use std::collections::HashMap;
use vstd::prelude::*;

use crate::native::{EditError, NodeHandle};

verus! {

broadcast use vstd::std_specs::hash::group_hash_axioms;

/// Maps the opaque node ids chosen by the diff engine to native node handles.
pub struct NodeRegistry {
    map: HashMap<u64, NodeHandle>,
}

impl View for NodeRegistry {
    type V = Map<u64, NodeHandle>;

    closed spec fn view(&self) -> Map<u64, NodeHandle> {
        self.map@
    }
}

impl NodeRegistry {
    pub fn new() -> (r: NodeRegistry)
        ensures
            r@ == Map::<u64, NodeHandle>::empty(),
    {
        NodeRegistry { map: HashMap::new() }
    }

    /// Inserts the entry for `id`, or overwrites the one that is there.
    pub fn register(&mut self, id: u64, handle: NodeHandle)
        ensures
            final(self)@ == old(self)@.insert(id, handle),
    {
        self.map.insert(id, handle);
    }

    /// The handle registered under `id`; an id without an entry is an error.
    pub fn lookup(&self, id: u64) -> (r: Result<NodeHandle, EditError>)
        ensures
            self@.contains_key(id) ==> r == Ok::<NodeHandle, EditError>(self@[id]),
            !self@.contains_key(id) ==> r == Err::<NodeHandle, EditError>(EditError::UnknownNodeId(id)),
    {
        match self.map.get(&id) {
            Some(h) => Ok(*h),
            None => Err(EditError::UnknownNodeId(id)),
        }
    }
}

/// The builder stack: the native nodes that the edit stream has just produced or
/// pushed, most recent last.
pub struct Stack {
    pub list: Vec<NodeHandle>,
}

impl View for Stack {
    type V = Seq<NodeHandle>;

    open spec fn view(&self) -> Seq<NodeHandle> {
        self.list@
    }
}

impl Stack {
    pub fn with_capacity(cap: usize) -> (r: Stack)
        ensures
            r@ == Seq::<NodeHandle>::empty(),
    {
        Stack { list: Vec::with_capacity(cap) }
    }

    pub fn push(&mut self, node: NodeHandle)
        ensures
            final(self)@ == old(self)@.push(node),
    {
        self.list.push(node);
    }

    /// Removes and returns the most recent node; an empty stack is an underflow and
    /// is left as it was.
    pub fn pop(&mut self) -> (r: Result<NodeHandle, EditError>)
        ensures
            old(self)@.len() == 0 ==> r == Err::<NodeHandle, EditError>(EditError::StackUnderflow)
                && final(self)@ == old(self)@,
            old(self)@.len() > 0 ==> r == Ok::<NodeHandle, EditError>(old(self)@.last())
                && final(self)@ == old(self)@.drop_last(),
    {
        match self.list.pop() {
            Some(n) => Ok(n),
            None => Err(EditError::StackUnderflow),
        }
    }

    pub fn clear(&mut self)
        ensures
            final(self)@ == Seq::<NodeHandle>::empty(),
    {
        self.list.clear();
    }

    /// The most recent node, left on the stack.
    pub fn top(&self) -> (r: Result<NodeHandle, EditError>)
        ensures
            self@.len() == 0 ==> r == Err::<NodeHandle, EditError>(EditError::StackUnderflow),
            self@.len() > 0 ==> r == Ok::<NodeHandle, EditError>(self@.last()),
    {
        let n = self.list.len();
        if n == 0 {
            Err(EditError::StackUnderflow)
        } else {
            Ok(self.list[n - 1])
        }
    }

    pub fn len(&self) -> (r: usize)
        ensures
            r == self@.len(),
    {
        self.list.len()
    }
}

} // verus!
