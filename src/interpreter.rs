use vstd::prelude::*;

use crate::events::{
    category_of, counts_after_add, counts_after_remove, encode_reservation, event_category,
    reservation_attribute_name, reservation_name, reservation_value, ListenerTable,
};
use crate::native::{DomEdit, EditError, ElementRole, NativeOp, NodeHandle, NodeKind};
use crate::registry::{NodeRegistry, Stack};
use crate::text::same_text;

verus! {

/// The namespace whose `class` attribute is an animated string.
pub const SVG_NS: &'static str = "http://www.w3.org/2000/svg";

/// The state of the interpreter as the edit rules see it.
pub struct DomState {
    /// The builder stack, most recent node last.
    pub stack: Seq<NodeHandle>,
    /// The node registry.
    pub registry: Map<u64, NodeHandle>,
    /// The kind of each native node created so far, by handle.
    pub kinds: Seq<NodeKind>,
    /// The number of logical listeners of each event category.
    pub listeners: Map<Seq<char>, nat>,
    /// Whether the last child appended was a text node.
    pub last_text: bool,
}

/// The role that an element created with `tag` in namespace `ns` plays.
pub open spec fn role_of(tag: Seq<char>, ns: Option<Seq<char>>) -> ElementRole {
    match ns {
        Some(n) => if n == SVG_NS@ { ElementRole::Svg } else { ElementRole::Plain },
        None => if tag == "input"@ {
            ElementRole::Input
        } else if tag == "option"@ {
            ElementRole::HtmlOption
        } else {
            ElementRole::Plain
        },
    }
}

/// The state after a node of kind `k` is created and registered under `id`: it gets
/// the next handle and is pushed.
pub open spec fn created(s: DomState, id: u64, k: NodeKind) -> DomState {
    let h = s.kinds.len() as NodeHandle;
    DomState {
        stack: s.stack.push(h),
        registry: s.registry.insert(id, h),
        kinds: s.kinds.push(k),
        ..s
    }
}

/// The operations that append `children` in order to `parent`, with a marker node put
/// before each text child that follows a text child, the number of markers created,
/// and whether the last child appended was a text node. `flag` says whether the one
/// appended before them was, and `kinds` gives the kinds of the existing nodes.
pub open spec fn append_run(
    parent: NodeHandle,
    children: Seq<NodeHandle>,
    kinds: Seq<NodeKind>,
    flag: bool,
) -> (Seq<NativeOp>, nat, bool)
    decreases children.len(),
{
    if children.len() == 0 {
        (Seq::empty(), 0, flag)
    } else {
        let prev = append_run(parent, children.drop_last(), kinds, flag);
        let c = children.last();
        if kinds[c as int] == NodeKind::Text {
            if prev.2 {
                let h = (kinds.len() + prev.1) as NodeHandle;
                (
                    prev.0 + seq![
                        NativeOp::CreateMarker { node: h },
                        NativeOp::AppendChild { parent, child: h },
                        NativeOp::AppendChild { parent, child: c },
                    ],
                    prev.1 + 1,
                    true,
                )
            } else {
                (prev.0.push(NativeOp::AppendChild { parent, child: c }), prev.1, true)
            }
        } else {
            (prev.0.push(NativeOp::AppendChild { parent, child: c }), prev.1, false)
        }
    }
}

pub open spec fn markers(n: nat) -> Seq<NodeKind> {
    Seq::new(n, |_i: int| NodeKind::Marker)
}

/// What attaching a listener named `event_name` to the top node does to the state:
/// the top node must be an element, and its category gains one listener.
pub open spec fn listener_step(s: DomState, event_name: Seq<char>) -> Result<DomState, EditError> {
    let c = category_of(event_name);
    if s.stack.len() == 0 {
        Err(EditError::StackUnderflow)
    } else if !(s.kinds[s.stack.last() as int] is Element) {
        Err(EditError::NotAnElement(s.stack.last()))
    } else if s.listeners.contains_key(c) && s.listeners[c] >= u64::MAX {
        Err(EditError::ListenerCountOverflow)
    } else {
        Ok(DomState { listeners: counts_after_add(s.listeners, c), ..s })
    }
}

/// The operations of attaching a listener: the reservation attribute on the top node,
/// then, for the first listener of the category, the installation of its native
/// listener.
pub open spec fn listener_ops(
    s: DomState,
    event_name: Seq<char>,
    scope: u64,
    mounted_node_id: u64,
    ops: Seq<NativeOp>,
) -> bool {
    let c = category_of(event_name);
    let fresh = !s.listeners.contains_key(c);
    &&& ops.len() == (if fresh { 2int } else { 1int })
    &&& match ops[0] {
        NativeOp::SetAttribute { node, name, value } => node == s.stack.last() && name@
            == reservation_name(c) && value@ == reservation_value(scope, mounted_node_id),
        _ => false,
    }
    &&& fresh ==> match ops[1] {
        NativeOp::InstallListener { event } => event@ == c,
        _ => false,
    }
}

/// What one instruction does to the state, or the error it fails with.
pub open spec fn step(s: DomState, e: DomEdit) -> Result<DomState, EditError> {
    let len = s.stack.len();
    match e {
        DomEdit::PushRoot { id } => if s.registry.contains_key(id) {
            Ok(DomState { stack: s.stack.push(s.registry[id]), ..s })
        } else {
            Err(EditError::UnknownNodeId(id))
        },
        DomEdit::PopRoot => if len == 0 {
            Err(EditError::StackUnderflow)
        } else {
            Ok(DomState { stack: s.stack.drop_last(), ..s })
        },
        DomEdit::AppendChildren { many } => if len < many + 1 {
            Err(EditError::StackUnderflow)
        } else {
            let run = append_run(
                s.stack[len - many - 1],
                s.stack.subrange(len - many, len as int),
                s.kinds,
                s.last_text,
            );
            Ok(
                DomState {
                    stack: s.stack.subrange(0, len - many),
                    kinds: s.kinds + markers(run.1),
                    last_text: run.2,
                    ..s
                },
            )
        },
        DomEdit::ReplaceWith { many } => if len < many + 1 {
            Err(EditError::StackUnderflow)
        } else {
            Ok(
                DomState {
                    stack: s.stack.subrange(0, len - many - 1) + s.stack.subrange(
                        len - many,
                        len as int,
                    ),
                    ..s
                },
            )
        },
        DomEdit::Remove => if len == 0 {
            Err(EditError::StackUnderflow)
        } else {
            Ok(DomState { stack: s.stack.drop_last(), ..s })
        },
        DomEdit::CreateTextNode { text, id } => Ok(created(s, id, NodeKind::Text)),
        DomEdit::CreateElement { tag, id } => Ok(
            created(s, id, NodeKind::Element(role_of(tag@, None))),
        ),
        DomEdit::CreateElementNs { tag, id, ns } => Ok(
            created(s, id, NodeKind::Element(role_of(tag@, Some(ns@)))),
        ),
        DomEdit::CreatePlaceholder { id } => Ok(
            created(s, id, NodeKind::Element(ElementRole::Plain)),
        ),
        DomEdit::NewEventListener { event_name, scope, mounted_node_id } => listener_step(
            s,
            event_name@,
        ),
        DomEdit::RemoveEventListener { event } => Ok(
            DomState { listeners: counts_after_remove(s.listeners, category_of(event@)), ..s },
        ),
        _ => if len == 0 {
            Err(EditError::StackUnderflow)
        } else {
            Ok(s)
        },
    }
}

/// The operations that setting attribute `field` to `value` on `node` of kind `k`
/// gives: `class` goes through the class-name property (the animated one for SVG
/// elements when the SVG namespace is given), other attributes through
/// `setAttribute`; nodes that are not elements are left alone.
pub open spec fn set_attribute_ops(
    k: NodeKind,
    node: NodeHandle,
    field: Seq<char>,
    value: Seq<char>,
    ns: Option<Seq<char>>,
    ops: Seq<NativeOp>,
) -> bool {
    if field == "class"@ && ns == Some(SVG_NS@) {
        if k == NodeKind::Element(ElementRole::Svg) {
            ops.len() == 1 && match ops[0] {
                NativeOp::SetSvgClass { node: n, value: v } => n == node && v@ == value,
                _ => false,
            }
        } else {
            ops.len() == 0
        }
    } else if !(k is Element) {
        ops.len() == 0
    } else if field == "class"@ {
        ops.len() == 1 && match ops[0] {
            NativeOp::SetClassName { node: n, value: v } => n == node && v@ == value,
            _ => false,
        }
    } else {
        ops.len() == 1 && match ops[0] {
            NativeOp::SetAttribute { node: n, name: a, value: v } => n == node && a@ == field
                && v@ == value,
            _ => false,
        }
    }
}

/// The property resets that removing attribute `name` from `node` of kind `k` needs,
/// because the attribute alone does not hold the live state.
pub open spec fn volatile_resets(k: NodeKind, node: NodeHandle, name: Seq<char>) -> Seq<NativeOp> {
    if k == NodeKind::Element(ElementRole::Input) && name == "value"@ {
        seq![NativeOp::ResetValue { node }]
    } else if k == NodeKind::Element(ElementRole::Input) && name == "checked"@ {
        seq![NativeOp::ResetChecked { node }]
    } else if k == NodeKind::Element(ElementRole::HtmlOption) && name == "selected"@ {
        seq![NativeOp::ResetSelected { node }]
    } else {
        Seq::empty()
    }
}

pub open spec fn remove_attribute_ops(
    k: NodeKind,
    node: NodeHandle,
    name: Seq<char>,
    ops: Seq<NativeOp>,
) -> bool {
    if !(k is Element) {
        ops.len() == 0
    } else {
        &&& ops.len() >= 1
        &&& match ops[0] {
            NativeOp::RemoveAttribute { node: n, name: a } => n == node && a@ == name,
            _ => false,
        }
        &&& ops.subrange(1, ops.len() as int) == volatile_resets(k, node, name)
    }
}

/// The operations that one instruction, applied successfully to state `s`, hands to
/// the host.
pub open spec fn edit_ops(s: DomState, e: DomEdit, ops: Seq<NativeOp>) -> bool {
    let len = s.stack.len();
    let top = s.stack.last();
    let h = s.kinds.len() as NodeHandle;
    match e {
        DomEdit::AppendChildren { many } => ops == append_run(
            s.stack[len - many - 1],
            s.stack.subrange(len - many, len as int),
            s.kinds,
            s.last_text,
        ).0,
        DomEdit::ReplaceWith { many } => ops.len() == 1 && match ops[0] {
            NativeOp::ReplaceWith { old, new_nodes } => old == s.stack[len - many - 1]
                && new_nodes@ == s.stack.subrange(len - many, len as int),
            _ => false,
        },
        DomEdit::Remove => ops == seq![NativeOp::Detach { node: top }],
        DomEdit::RemoveAllChildren => ops == seq![NativeOp::RemoveAllChildren { node: top }],
        DomEdit::CreateTextNode { text, id } => ops.len() == 1 && match ops[0] {
            NativeOp::CreateText { node, text: t } => node == h && t@ == text@,
            _ => false,
        },
        DomEdit::CreateElement { tag, id } => ops.len() == 1 && match ops[0] {
            NativeOp::CreateElement { node, tag: t, ns } => node == h && t@ == tag@ && ns is None,
            _ => false,
        },
        DomEdit::CreateElementNs { tag, id, ns } => ops.len() == 1 && match ops[0] {
            NativeOp::CreateElement { node, tag: t, ns: n } => node == h && t@ == tag@
                && n is Some && n->0@ == ns@,
            _ => false,
        },
        DomEdit::CreatePlaceholder { id } => ops.len() == 1 && match ops[0] {
            NativeOp::CreateElement { node, tag: t, ns } => node == h && t@ == "pre"@ && ns is None,
            _ => false,
        },
        DomEdit::NewEventListener { event_name, scope, mounted_node_id } => listener_ops(
            s,
            event_name@,
            scope,
            mounted_node_id,
            ops,
        ),
        DomEdit::RemoveEventListener { event } => {
            let c = category_of(event@);
            let last = s.listeners.contains_key(c) && s.listeners[c] <= 1;
            &&& ops.len() == (if last { 1int } else { 0int })
            &&& last ==> match ops[0] {
                NativeOp::UninstallListener { event: v } => v@ == c,
                _ => false,
            }
        },
        DomEdit::SetText { text } => ops.len() == 1 && match ops[0] {
            NativeOp::SetText { node, text: t } => node == top && t@ == text@,
            _ => false,
        },
        DomEdit::SetAttribute { field, value, ns } => set_attribute_ops(
            s.kinds[top as int],
            top,
            field@,
            value@,
            match ns {
                Some(n) => Some(n@),
                None => None,
            },
            ops,
        ),
        DomEdit::RemoveAttribute { name } => remove_attribute_ops(
            s.kinds[top as int],
            top,
            name@,
            ops,
        ),
        _ => ops.len() == 0,
    }
}

/// The state after a whole stream, or the error of its first failing instruction.
pub open spec fn run(s: DomState, edits: Seq<DomEdit>) -> Result<DomState, EditError>
    decreases edits.len(),
{
    if edits.len() == 0 {
        Ok(s)
    } else {
        match step(s, edits[0]) {
            Ok(s1) => run(s1, edits.drop_first()),
            Err(e) => Err(e),
        }
    }
}

/// Whether `ops` is what the successful application of `edits` to `s` hands to the
/// host: the operations of each instruction, in order.
pub open spec fn run_ops(s: DomState, edits: Seq<DomEdit>, ops: Seq<NativeOp>) -> bool
    decreases edits.len(),
{
    if edits.len() == 0 {
        ops.len() == 0
    } else {
        exists|k: int|
            0 <= k <= ops.len() && run_ops(s, edits.drop_last(), #[trigger] ops.subrange(0, k))
                && match run(s, edits.drop_last()) {
                Ok(s1) => edit_ops(s1, edits.last(), ops.subrange(k, ops.len() as int)),
                Err(_) => false,
            }
    }
}

pub proof fn lemma_run_append(s: DomState, a: Seq<DomEdit>, b: Seq<DomEdit>)
    ensures
        run(s, a + b) == (match run(s, a) {
            Ok(s1) => run(s1, b),
            Err(e) => Err(e),
        }),
    decreases a.len(),
{
    if a.len() == 0 {
        assert(a + b == b);
    } else {
        assert((a + b).drop_first() == a.drop_first() + b);
        assert((a + b)[0] == a[0]);
        match step(s, a[0]) {
            Ok(s1) => lemma_run_append(s1, a.drop_first(), b),
            Err(_) => {},
        }
    }
}

/// A handle table, a stack and a registry that only hold handles of existing nodes.
pub open spec fn state_wf(s: DomState) -> bool {
    &&& forall|i: int| 0 <= i < s.stack.len() ==> (#[trigger] s.stack[i]) < s.kinds.len()
    &&& forall|id: u64| #[trigger] s.registry.contains_key(id) ==> s.registry[id] < s.kinds.len()
}

/// The patch executor: applies edit streams through the builder stack and the node
/// registry, and keeps the table of delegated listeners.
pub struct WebsysDom {
    pub stack: Stack,
    nodes: NodeRegistry,
    kinds: Vec<NodeKind>,
    listeners: ListenerTable,
    last_node_was_text: bool,
}

impl View for WebsysDom {
    type V = DomState;

    closed spec fn view(&self) -> DomState {
        DomState {
            stack: self.stack@,
            registry: self.nodes@,
            kinds: self.kinds@,
            listeners: self.listeners@,
            last_text: self.last_node_was_text,
        }
    }
}

fn element_role(tag: &str, ns: Option<&str>) -> (r: ElementRole)
    ensures
        r == role_of(
            tag@,
            match ns {
                Some(n) => Some(n@),
                None => None,
            },
        ),
{
    match ns {
        Some(n) => if same_text(n, SVG_NS) {
            ElementRole::Svg
        } else {
            ElementRole::Plain
        },
        None => if same_text(tag, "input") {
            ElementRole::Input
        } else if same_text(tag, "option") {
            ElementRole::HtmlOption
        } else {
            ElementRole::Plain
        },
    }
}

impl WebsysDom {
    pub closed spec fn wf(&self) -> bool {
        &&& self.listeners.wf()
        &&& state_wf(self@)
    }

    /// An interpreter whose only node is the host's root element, handle 0, registered
    /// under `root_id`; the stack is empty and no listener is installed.
    pub fn new(root_id: u64) -> (r: WebsysDom)
        ensures
            r.wf(),
            r@ == (DomState {
                stack: Seq::empty(),
                registry: Map::empty().insert(root_id, 0),
                kinds: seq![NodeKind::Element(ElementRole::Plain)],
                listeners: Map::empty(),
                last_text: false,
            }),
    {
        let mut nodes = NodeRegistry::new();
        nodes.register(root_id, 0);
        let mut kinds = Vec::new();
        kinds.push(NodeKind::Element(ElementRole::Plain));
        WebsysDom {
            stack: Stack::with_capacity(10),
            nodes,
            kinds,
            listeners: ListenerTable::new(),
            last_node_was_text: false,
        }
    }

    /// The number of logical listeners of an event category.
    pub fn listener_count(&self, category: &str) -> (r: u64)
        requires
            self.wf(),
        ensures
            self@.listeners.contains_key(category@) ==> r == self@.listeners[category@],
            !self@.listeners.contains_key(category@) ==> r == 0,
    {
        self.listeners.count(category)
    }

    /// The handle registered under `id`.
    pub fn lookup(&self, id: u64) -> (r: Result<NodeHandle, EditError>)
        ensures
            self@.registry.contains_key(id) ==> r == Ok::<NodeHandle, EditError>(self@.registry[id]),
            !self@.registry.contains_key(id) ==> r == Err::<NodeHandle, EditError>(
                EditError::UnknownNodeId(id),
            ),
    {
        self.nodes.lookup(id)
    }

    /// The kind of the node behind `node`.
    pub fn kind_of(&self, node: NodeHandle) -> (r: Option<NodeKind>)
        ensures
            node < self@.kinds.len() ==> r == Some(self@.kinds[node as int]),
            node >= self@.kinds.len() ==> r is None,
    {
        if node < self.kinds.len() {
            Some(self.kinds[node])
        } else {
            None
        }
    }

    fn create_node(&mut self, id: u64, kind: NodeKind) -> (h: NodeHandle)
        requires
            old(self).wf(),
        ensures
            final(self).wf(),
            h == old(self)@.kinds.len(),
            final(self)@ == created(old(self)@, id, kind),
    {
        let h = self.kinds.len();
        self.kinds.push(kind);
        self.nodes.register(id, h);
        self.stack.push(h);
        proof {
            let s1 = self@;
            assert forall|i: int| 0 <= i < s1.stack.len() implies (#[trigger] s1.stack[i]) < s1.kinds.len() by {
                if i < s1.stack.len() - 1 {
                    assert(s1.stack[i] == old(self)@.stack[i]);
                }
            }
            assert forall|k: u64| #[trigger] s1.registry.contains_key(k) implies s1.registry[k] < s1.kinds.len() by {
                if k != id {
                    assert(old(self)@.registry.contains_key(k));
                }
            }
        }
        h
    }

    fn append_children(&mut self, many: u32) -> (r: Result<Vec<NativeOp>, EditError>)
        requires
            old(self).wf(),
        ensures
            final(self).wf(),
            match step(old(self)@, DomEdit::AppendChildren { many }) {
                Ok(s1) => r is Ok && final(self)@ == s1 && edit_ops(
                    old(self)@,
                    DomEdit::AppendChildren { many },
                    r->Ok_0@,
                ),
                Err(e) => r == Err::<Vec<NativeOp>, EditError>(e) && final(self)@ == old(self)@,
            },
    {
        let len = self.stack.list.len();
        let many = many as usize;
        if many >= len {
            return Err(EditError::StackUnderflow);
        }
        let parent = self.stack.list[len - many - 1];
        let start = len - many;
        let ghost s0 = self@;
        let ghost children = s0.stack.subrange(start as int, len as int);
        let mut ops: Vec<NativeOp> = Vec::new();
        let mut added: usize = 0;
        let mut i = start;
        assert(children.subrange(0, 0) =~= Seq::<NodeHandle>::empty());
        assert(s0.kinds + markers(0) =~= s0.kinds);
        while i < len
            invariant
                self.wf(),
                s0.stack.len() == len,
                many < len,
                start == len - many,
                start <= i <= len,
                self@.stack == s0.stack,
                self@.registry == s0.registry,
                self@.listeners == s0.listeners,
                self.listeners.wf(),
                parent == s0.stack[len - many - 1],
                children == s0.stack.subrange(start as int, len as int),
                state_wf(s0),
                ({
                    let run = append_run(parent, children.subrange(0, i - start), s0.kinds, s0.last_text);
                    &&& ops@ == run.0
                    &&& added == run.1
                    &&& self@.kinds == s0.kinds + markers(run.1)
                    &&& self@.last_text == run.2
                }),
            decreases len - i,
        {
            let child = self.stack.list[i];
            assert(children.subrange(0, i + 1 - start).drop_last() =~= children.subrange(0, i - start));
            assert(children.subrange(0, i + 1 - start).last() == child);
            assert(child < s0.kinds.len());
            assert(self@.kinds[child as int] == s0.kinds[child as int]);
            if self.kinds[child] == NodeKind::Text {
                if self.last_node_was_text {
                    let m = self.kinds.len();
                    self.kinds.push(NodeKind::Marker);
                    ops.push(NativeOp::CreateMarker { node: m });
                    ops.push(NativeOp::AppendChild { parent, child: m });
                    added = added + 1;
                    assert(self@.kinds =~= s0.kinds + markers(added as nat));
                }
                self.last_node_was_text = true;
            } else {
                self.last_node_was_text = false;
            }
            ops.push(NativeOp::AppendChild { parent, child });
            i = i + 1;
            assert(ops@ =~= append_run(parent, children.subrange(0, i - start), s0.kinds, s0.last_text).0);
        }
        assert(children.subrange(0, len - start) =~= children);
        self.stack.list.truncate(start);
        Ok(ops)
    }

    fn replace_with(&mut self, many: u32) -> (r: Result<Vec<NativeOp>, EditError>)
        requires
            old(self).wf(),
        ensures
            final(self).wf(),
            match step(old(self)@, DomEdit::ReplaceWith { many }) {
                Ok(s1) => r is Ok && final(self)@ == s1 && edit_ops(
                    old(self)@,
                    DomEdit::ReplaceWith { many },
                    r->Ok_0@,
                ),
                Err(e) => r == Err::<Vec<NativeOp>, EditError>(e) && final(self)@ == old(self)@,
            },
    {
        let len = self.stack.list.len();
        let many = many as usize;
        if many >= len {
            return Err(EditError::StackUnderflow);
        }
        let ghost s0 = self@;
        let mut new_nodes = self.stack.list.split_off(len - many);
        let old = self.stack.list.pop().unwrap();
        let mut back = new_nodes.clone();
        self.stack.list.append(&mut back);
        assert(self@.stack =~= s0.stack.subrange(0, len - many - 1) + s0.stack.subrange(
            len - many,
            len as int,
        ));
        proof {
            let s1 = self@;
            assert forall|i: int| 0 <= i < s1.stack.len() implies (#[trigger] s1.stack[i]) < s1.kinds.len() by {
                if i < len - many - 1 {
                    assert(s1.stack[i] == s0.stack[i]);
                } else {
                    assert(s1.stack[i] == s0.stack[i + 1]);
                }
            }
        }
        let mut ops: Vec<NativeOp> = Vec::new();
        ops.push(NativeOp::ReplaceWith { old, new_nodes });
        Ok(ops)
    }

    fn new_event_listener(&mut self, event_name: &str, scope: u64, mounted_node_id: u64) -> (r:
        Result<Vec<NativeOp>, EditError>)
        requires
            old(self).wf(),
        ensures
            final(self).wf(),
            match listener_step(old(self)@, event_name@) {
                Ok(s1) => r is Ok && final(self)@ == s1 && listener_ops(
                    old(self)@,
                    event_name@,
                    scope,
                    mounted_node_id,
                    r->Ok_0@,
                ),
                Err(e) => r == Err::<Vec<NativeOp>, EditError>(e) && final(self)@ == old(self)@,
            },
    {
        let top = match self.stack.top() {
            Ok(t) => t,
            Err(e) => return Err(e),
        };
        match self.kinds[top] {
            NodeKind::Element(_) => {},
            _ => return Err(EditError::NotAnElement(top)),
        }
        let category = event_category(event_name);
        if self.listeners.count(category.as_str()) == u64::MAX {
            return Err(EditError::ListenerCountOverflow);
        }
        let fresh = match self.listeners.add(category.as_str()) {
            Ok(f) => f,
            Err(e) => return Err(e),
        };
        let mut ops: Vec<NativeOp> = Vec::new();
        ops.push(
            NativeOp::SetAttribute {
                node: top,
                name: reservation_attribute_name(category.as_str()),
                value: encode_reservation(scope, mounted_node_id),
            },
        );
        if fresh {
            ops.push(NativeOp::InstallListener { event: category });
        }
        Ok(ops)
    }

    fn set_attribute(&self, top: NodeHandle, field: &str, value: &str, ns: Option<&str>) -> (r: Vec<
        NativeOp,
    >)
        requires
            self.wf(),
            top < self@.kinds.len(),
        ensures
            set_attribute_ops(
                self@.kinds[top as int],
                top,
                field@,
                value@,
                match ns {
                    Some(n) => Some(n@),
                    None => None,
                },
                r@,
            ),
    {
        let kind = self.kinds[top];
        let mut ops: Vec<NativeOp> = Vec::new();
        let is_class = same_text(field, "class");
        let svg_ns = match ns {
            Some(n) => same_text(n, SVG_NS),
            None => false,
        };
        if is_class && svg_ns {
            if kind == NodeKind::Element(ElementRole::Svg) {
                ops.push(NativeOp::SetSvgClass { node: top, value: value.to_string() });
            }
        } else {
            match kind {
                NodeKind::Element(_) => {
                    if is_class {
                        ops.push(NativeOp::SetClassName { node: top, value: value.to_string() });
                    } else {
                        ops.push(
                            NativeOp::SetAttribute {
                                node: top,
                                name: field.to_string(),
                                value: value.to_string(),
                            },
                        );
                    }
                },
                _ => {},
            }
        }
        ops
    }

    fn remove_attribute(&self, top: NodeHandle, name: &str) -> (r: Vec<NativeOp>)
        requires
            self.wf(),
            top < self@.kinds.len(),
        ensures
            remove_attribute_ops(self@.kinds[top as int], top, name@, r@),
    {
        let kind = self.kinds[top];
        let mut ops: Vec<NativeOp> = Vec::new();
        match kind {
            NodeKind::Element(role) => {
                ops.push(NativeOp::RemoveAttribute { node: top, name: name.to_string() });
                if role == ElementRole::Input && same_text(name, "value") {
                    ops.push(NativeOp::ResetValue { node: top });
                } else if role == ElementRole::Input && same_text(name, "checked") {
                    ops.push(NativeOp::ResetChecked { node: top });
                } else if role == ElementRole::HtmlOption && same_text(name, "selected") {
                    ops.push(NativeOp::ResetSelected { node: top });
                }
                assert(ops@.subrange(1, ops@.len() as int) =~= volatile_resets(kind, top, name@));
            },
            _ => {},
        }
        ops
    }

    /// Applies one instruction. On success the state is the one that `step` gives and
    /// the operations are those of `edit_ops`; on failure nothing has changed.
    pub fn apply_edit(&mut self, edit: &DomEdit) -> (r: Result<Vec<NativeOp>, EditError>)
        requires
            old(self).wf(),
        ensures
            final(self).wf(),
            match step(old(self)@, *edit) {
                Ok(s1) => r is Ok && final(self)@ == s1 && edit_ops(old(self)@, *edit, r->Ok_0@),
                Err(e) => r == Err::<Vec<NativeOp>, EditError>(e) && final(self)@ == old(self)@,
            },
    {
        let mut ops: Vec<NativeOp> = Vec::new();
        match edit {
            DomEdit::PushRoot { id } => {
                let h = match self.nodes.lookup(*id) {
                    Ok(h) => h,
                    Err(e) => return Err(e),
                };
                self.stack.push(h);
                proof {
                    let s1 = self@;
                    assert forall|i: int| 0 <= i < s1.stack.len() implies (#[trigger] s1.stack[i]) < s1.kinds.len() by {
                        if i < s1.stack.len() - 1 {
                            assert(s1.stack[i] == old(self)@.stack[i]);
                        }
                    }
                }
            },
            DomEdit::PopRoot => {
                if let Err(e) = self.stack.pop() {
                    return Err(e);
                }
            },
            DomEdit::AppendChildren { many } => {
                return self.append_children(*many);
            },
            DomEdit::ReplaceWith { many } => {
                return self.replace_with(*many);
            },
            DomEdit::Remove => {
                match self.stack.pop() {
                    Ok(node) => ops.push(NativeOp::Detach { node }),
                    Err(e) => return Err(e),
                }
                assert(ops@ =~= seq![NativeOp::Detach { node: old(self)@.stack.last() }]);
            },
            DomEdit::RemoveAllChildren => {
                match self.stack.top() {
                    Ok(node) => ops.push(NativeOp::RemoveAllChildren { node }),
                    Err(e) => return Err(e),
                }
                assert(ops@ =~= seq![NativeOp::RemoveAllChildren { node: old(self)@.stack.last() }]);
            },
            DomEdit::CreateTextNode { text, id } => {
                let h = self.create_node(*id, NodeKind::Text);
                ops.push(NativeOp::CreateText { node: h, text: text.clone() });
            },
            DomEdit::CreateElement { tag, id } => {
                let role = element_role(tag.as_str(), None);
                let h = self.create_node(*id, NodeKind::Element(role));
                ops.push(NativeOp::CreateElement { node: h, tag: tag.clone(), ns: None });
            },
            DomEdit::CreateElementNs { tag, id, ns } => {
                let role = element_role(tag.as_str(), Some(ns.as_str()));
                let h = self.create_node(*id, NodeKind::Element(role));
                ops.push(
                    NativeOp::CreateElement { node: h, tag: tag.clone(), ns: Some(ns.clone()) },
                );
            },
            DomEdit::CreatePlaceholder { id } => {
                let h = self.create_node(*id, NodeKind::Element(ElementRole::Plain));
                let tag = String::from_str("pre");
                proof {
                    reveal_strlit("pre");
                }
                ops.push(NativeOp::CreateElement { node: h, tag, ns: None });
            },
            DomEdit::NewEventListener { event_name, scope, mounted_node_id } => {
                return self.new_event_listener(event_name.as_str(), *scope, *mounted_node_id);
            },
            DomEdit::RemoveEventListener { event } => {
                let category = event_category(event.as_str());
                if self.listeners.remove(category.as_str()) {
                    ops.push(NativeOp::UninstallListener { event: category });
                }
            },
            DomEdit::SetText { text } => {
                match self.stack.top() {
                    Ok(node) => ops.push(NativeOp::SetText { node, text: text.clone() }),
                    Err(e) => return Err(e),
                }
            },
            DomEdit::SetAttribute { field, value, ns } => {
                let top = match self.stack.top() {
                    Ok(t) => t,
                    Err(e) => return Err(e),
                };
                let ns = match ns {
                    Some(n) => Some(n.as_str()),
                    None => None,
                };
                return Ok(self.set_attribute(top, field.as_str(), value.as_str(), ns));
            },
            DomEdit::RemoveAttribute { name } => {
                let top = match self.stack.top() {
                    Ok(t) => t,
                    Err(e) => return Err(e),
                };
                return Ok(self.remove_attribute(top, name.as_str()));
            },
        }
        Ok(ops)
    }

    /// Applies a whole stream in order and empties `edits`. The first instruction that
    /// fails ends the application with its error; the instructions before it stay
    /// applied.
    pub fn process_edits(&mut self, edits: &mut Vec<DomEdit>) -> (r: Result<
        Vec<NativeOp>,
        EditError,
    >)
        requires
            old(self).wf(),
        ensures
            final(self).wf(),
            final(edits)@.len() == 0,
            match run(old(self)@, old(edits)@) {
                Ok(s1) => r is Ok && final(self)@ == s1 && run_ops(old(self)@, old(edits)@, r->Ok_0@),
                Err(e) => r == Err::<Vec<NativeOp>, EditError>(e),
            },
    {
        let ghost s0 = self@;
        let ghost all = edits@;
        let n = edits.len();
        let mut ops: Vec<NativeOp> = Vec::new();
        let mut i: usize = 0;
        assert(all.subrange(0, 0) =~= Seq::<DomEdit>::empty());
        while i < n
            invariant
                self.wf(),
                n == all.len(),
                edits@ == all,
                s0 == old(self)@,
                all == old(edits)@,
                i <= n,
                run(s0, all.subrange(0, i as int)) == Ok::<DomState, EditError>(self@),
                run_ops(s0, all.subrange(0, i as int), ops@),
            decreases n - i,
        {
            let ghost si = self@;
            let ghost before = ops@;
            proof {
                lemma_run_append(s0, all.subrange(0, i as int), seq![all[i as int]]);
                assert(all.subrange(0, i as int) + seq![all[i as int]] =~= all.subrange(0, i + 1));
                assert(seq![all[i as int]].drop_first() =~= Seq::<DomEdit>::empty());
                reveal_with_fuel(run, 2);
            }
            match self.apply_edit(&edits[i]) {
                Ok(mut more) => {
                    let ghost added = more@;
                    ops.append(&mut more);
                    proof {
                        let pre = all.subrange(0, i + 1);
                        assert(pre.drop_last() =~= all.subrange(0, i as int));
                        assert(pre.last() == all[i as int]);
                        assert(ops@.subrange(0, before.len() as int) =~= before);
                        assert(ops@.subrange(before.len() as int, ops@.len() as int) =~= added);
                        assert(run_ops(s0, pre, ops@));
                    }
                },
                Err(e) => {
                    proof {
                        lemma_run_append(s0, all.subrange(0, i + 1), all.subrange(i + 1, n as int));
                        assert(all.subrange(0, i + 1) + all.subrange(i + 1, n as int) =~= all);
                        reveal_with_fuel(run, 2);
                    }
                    edits.clear();
                    return Err(e);
                },
            }
            i = i + 1;
        }
        assert(all.subrange(0, n as int) =~= all);
        edits.clear();
        Ok(ops)
    }
}

} // verus!
