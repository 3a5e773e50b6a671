//! The machine contract and the combinator that runs two machines in turn.
use vstd::prelude::*;

use crate::step::Step;

verus! {

/// The result of one transition of machine `M`.
pub type AResult<M> = Result<
    Step<M, <M as MealyMachine>::Output, <M as MealyMachine>::CalcResult>,
    <M as MealyMachine>::Error,
>;

/// A machine that consumes one input per transition and either goes on, with
/// an output fragment, or stops with a final result; a transition may also
/// fail with an error.
pub trait MealyMachine: Sized {
    type Input;

    type Output;

    type Error;

    type CalcResult;

    /// The states from which a transition may be taken.
    spec fn inv(&self) -> bool;

    /// Whether `r` is an outcome of taking `input` from this state.
    spec fn step_rel(&self, input: Self::Input, r: AResult<Self>) -> bool;

    /// Consumes this state and one input.
    fn transition(self, input: Self::Input) -> (r: AResult<Self>)
        requires
            self.inv(),
        ensures
            self.step_rel(input, r),
            r matches Ok(Step::NotReady(n, _)) ==> n.inv(),
    ;

    /// A machine that runs this one to its end, hands the final result to `f`
    /// and then runs the machine that `f` builds. Nothing is transitioned here.
    /// The composite is itself a machine where the machine that `f` builds
    /// takes the same inputs, outputs and errors as this one.
    fn and_then<M, F>(self, f: F) -> (r: AndThen<Self, M, F>) where
        F: FnOnce(Self::CalcResult) -> M,

        ensures
            r == AndThen::<Self, M, F>::Machine1(self, f),
    {
        AndThen::Machine1(self, f)
    }
}

/// Two machines run one after the other: the first, with the continuation
/// that builds the second from its final result, and then the second.
#[verifier::reject_recursive_types(M1)]
#[verifier::reject_recursive_types(M2)]
pub enum AndThen<M1, M2, F> {
    Machine1(M1, F),
    Machine2(M2),
}

/// The continuation may be called on every final result of the first machine
/// and always builds a second machine that may take transitions.
pub open spec fn continuation_ok<M1, M2, F>(f: F) -> bool where
    M1: MealyMachine,
    M2: MealyMachine<Input = M1::Input, Output = M1::Output, Error = M1::Error>,
    F: FnOnce(M1::CalcResult) -> M2,
 {
    &&& forall|c: M1::CalcResult| #[trigger] f.requires((c,))
    &&& forall|c: M1::CalcResult, m2: M2| #[trigger] f.ensures((c,), m2) ==> m2.inv()
}

/// Whether `m1` may stop on `input` with a final result from which the
/// continuation `f` may build `m2`.
pub open spec fn hands_off<M1, M2, F>(m1: M1, f: F, input: M1::Input, m2: M2) -> bool where
    M1: MealyMachine,
    F: FnOnce(M1::CalcResult) -> M2,
 {
    exists|c: M1::CalcResult|
        m1.step_rel(input, Ok(Step::Done(c))) && #[trigger] f.ensures((c,), m2)
}

impl<M1, M2, F> MealyMachine for AndThen<M1, M2, F> where
    M1: MealyMachine,
    M2: MealyMachine<Input = M1::Input, Output = M1::Output, Error = M1::Error>,
    F: FnOnce(M1::CalcResult) -> M2,
 {
    type Input = M1::Input;

    type Output = Option<M1::Output>;

    type Error = M1::Error;

    type CalcResult = M2::CalcResult;

    open spec fn inv(&self) -> bool {
        match *self {
            AndThen::Machine1(m1, f) => m1.inv() && continuation_ok::<M1, M2, F>(f),
            AndThen::Machine2(m2) => m2.inv(),
        }
    }

    open spec fn step_rel(
        &self,
        input: M1::Input,
        r: AResult<Self>,
    ) -> bool {
        match *self {
            AndThen::Machine1(m1, f) => match r {
                Err(e) => m1.step_rel(input, Err(e)),
                Ok(Step::NotReady(AndThen::Machine1(n1, g), Some(o))) => g == f && m1.step_rel(
                    input,
                    Ok(Step::NotReady(n1, o)),
                ),
                Ok(Step::NotReady(AndThen::Machine2(m2), None)) => hands_off(m1, f, input, m2),
                _ => false,
            },
            AndThen::Machine2(m2) => match r {
                Err(e) => m2.step_rel(input, Err(e)),
                Ok(Step::NotReady(AndThen::Machine2(n2), Some(o))) => m2.step_rel(
                    input,
                    Ok(Step::NotReady(n2, o)),
                ),
                Ok(Step::Done(c)) => m2.step_rel(input, Ok(Step::Done(c))),
                _ => false,
            },
        }
    }

    fn transition(self, input: M1::Input) -> (r: AResult<Self>) {
        match self {
            AndThen::Machine1(m1, f) => match m1.transition(input) {
                Err(e) => Err(e),
                Ok(Step::NotReady(new_m1, output)) => {
                    Ok(Step::NotReady(AndThen::Machine1(new_m1, f), Some(output)))
                },
                Ok(Step::Done(cresult)) => {
                    let m2 = f(cresult);
                    Ok(Step::NotReady(AndThen::Machine2(m2), None))
                },
            },
            AndThen::Machine2(m2) => match m2.transition(input) {
                Err(e) => Err(e),
                Ok(Step::NotReady(new_m2, output)) => {
                    Ok(Step::NotReady(AndThen::Machine2(new_m2), Some(output)))
                },
                Ok(Step::Done(cresult)) => Ok(Step::Done(cresult)),
            },
        }
    }
}

/// Errors pass through unchanged: in either phase the composite fails on an
/// input with exactly the errors that its active machine fails with on it.
pub proof fn lemma_and_then_error<M1, M2, F>(m: AndThen<M1, M2, F>, input: M1::Input, e: M1::Error) where
    M1: MealyMachine,
    M2: MealyMachine<Input = M1::Input, Output = M1::Output, Error = M1::Error>,
    F: FnOnce(M1::CalcResult) -> M2,

    ensures
        m.step_rel(input, Err(e)) == match m {
            AndThen::Machine1(m1, _) => m1.step_rel(input, Err(e)),
            AndThen::Machine2(m2) => m2.step_rel(input, Err(e)),
        },
{
}

/// The continuation is used once, at the handoff. A step of the first phase
/// either keeps the continuation untouched while the first machine goes on, or
/// leaves the first phase exactly when the first machine stops, with a second
/// machine that the continuation builds from that machine's final result. The
/// first phase never ends the composite, and no step of the second phase,
/// which holds no continuation, goes back to the first.
pub proof fn lemma_continuation_used_once<M1, M2, F>(
    m: AndThen<M1, M2, F>,
    input: M1::Input,
    r: AResult<AndThen<M1, M2, F>>,
) where
    M1: MealyMachine,
    M2: MealyMachine<Input = M1::Input, Output = M1::Output, Error = M1::Error>,
    F: FnOnce(M1::CalcResult) -> M2,

    requires
        m.step_rel(input, r),
    ensures
        match (m, r) {
            (AndThen::Machine1(m1, f), Ok(Step::NotReady(AndThen::Machine1(n1, g), out))) => {
                &&& g == f
                &&& out is Some
                &&& m1.step_rel(input, Ok(Step::NotReady(n1, out->0)))
            },
            (AndThen::Machine1(m1, f), Ok(Step::NotReady(AndThen::Machine2(m2), out))) => {
                &&& out is None
                &&& hands_off(m1, f, input, m2)
            },
            (AndThen::Machine1(_, _), Ok(Step::Done(_))) => false,
            (AndThen::Machine2(_), Ok(Step::NotReady(n, _))) => n is Machine2,
            _ => true,
        },
{
}

} // verus!
