use vstd::prelude::*;

verus! {

/// What one render of a component produced: a ready tree, or the empty placeholder
/// used when the component rendered nothing or failed.
#[derive(Debug, PartialEq, Eq)]
pub enum RenderReturn<E> {
    Ready(E),
    Empty,
}

/// How one call of a component function ended: it returned (a tree or nothing), or it
/// failed abnormally and the failure was caught at the cell boundary.
pub enum RenderOutcome<E> {
    Returned(Option<E>),
    Failed,
}

/// A component function together with its current properties, its memoization
/// comparator and its display name.
pub struct VProps<P, F, M> {
    pub render_fn: F,
    pub memo: M,
    pub props: P,
    pub name: String,
}

/// Binds a component function, its comparator, its initial properties and its name
/// into one render cell.
pub fn new_any_props<P, E, F: Fn(P) -> Option<E>, M: Fn(&P, &P) -> bool>(
    render_fn: F,
    memo: M,
    props: P,
    name: &str,
) -> (r: VProps<P, F, M>)
    ensures
        r.render_fn == render_fn,
        r.memo == memo,
        r.props == props,
        r.name@ == name@,
{
    VProps { render_fn, memo, props, name: name.to_string() }
}

/// Turns the outcome of one render call into its result: a returned tree is ready,
/// and both an empty return and a caught failure give the empty placeholder.
pub fn settle_render<E>(outcome: RenderOutcome<E>) -> (r: RenderReturn<E>)
    ensures
        r == (match outcome {
            RenderOutcome::Returned(Some(e)) => RenderReturn::Ready(e),
            _ => RenderReturn::Empty,
        }),
{
    match outcome {
        RenderOutcome::Returned(Some(e)) => RenderReturn::Ready(e),
        RenderOutcome::Returned(None) => RenderReturn::Empty,
        RenderOutcome::Failed => RenderReturn::Empty,
    }
}

impl<P, F, M: Fn(&P, &P) -> bool> VProps<P, F, M> {
    /// Compares the stored properties with a candidate recovered from a type-erased
    /// value; `None` stands for a candidate of another type, which never matches.
    pub fn memo_matches(&self, other: Option<&P>) -> (r: bool)
        requires
            forall|a: &P, b: &P| call_requires(self.memo, (a, b)),
        ensures
            other is None ==> !r,
            other is Some ==> call_ensures(self.memo, (&self.props, other->0), r),
    {
        match other {
            Some(o) => (self.memo)(&self.props, o),
            None => false,
        }
    }
}

impl<P: Clone, F: Copy, M: Copy> VProps<P, F, M> {
    /// An independent cell with the same function, comparator and name, holding a
    /// clone of the current properties.
    pub fn duplicate(&self) -> (r: VProps<P, F, M>)
        ensures
            r.render_fn == self.render_fn,
            r.memo == self.memo,
            cloned(self.props, r.props),
            r.name@ == self.name@,
    {
        VProps {
            render_fn: self.render_fn,
            memo: self.memo,
            props: self.props.clone(),
            name: self.name.clone(),
        }
    }

    /// The current properties.
    pub fn props(&self) -> (r: &P)
        ensures
            *r == self.props,
    {
        &self.props
    }
}

} // verus!
