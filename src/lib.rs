use vstd::prelude::*;

pub mod any_props;
pub mod events;
pub mod interpreter;
pub mod laws;
pub mod native;
pub mod registry;
pub mod text;

verus! {

} // verus!
