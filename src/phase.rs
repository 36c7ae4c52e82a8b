use vstd::prelude::*;

verus! {

/// A unit of work that a resolved schedule would run.
pub trait Phase {
    type Input;

    type Output;

    type State;

    fn render();
}

} // verus!
