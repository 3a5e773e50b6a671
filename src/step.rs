//! The outcome of a single transition.
use vstd::prelude::*;

verus! {

/// What a single transition yields: a machine that goes on, with an output
/// fragment, or the final result of one that has stopped.
pub enum Step<M, O, C> {
    NotReady(M, O),
    Done(C),
}

/// A final result found where a running machine was expected. It keeps the
/// result so that nothing is lost on that path.
#[derive(Debug, PartialEq, Eq, PartialOrd, Ord)]
pub struct UnexpectedEndOfStateMachine<T>(pub T);

impl<M, O, C> Step<M, O, C> {
    /// The next state and output of a running machine, or the final result
    /// wrapped as an error when the machine has stopped.
    pub fn try_next_state(self) -> (r: Result<(M, O), UnexpectedEndOfStateMachine<C>>)
        ensures
            match self {
                Step::NotReady(m, o) => r == Ok::<(M, O), UnexpectedEndOfStateMachine<C>>((m, o)),
                Step::Done(c) => r == Err::<(M, O), UnexpectedEndOfStateMachine<C>>(
                    UnexpectedEndOfStateMachine(c),
                ),
            },
    {
        match self {
            Step::Done(val) => Err(UnexpectedEndOfStateMachine(val)),
            Step::NotReady(t, o) => Ok((t, o)),
        }
    }
}

} // verus!
