//! Runs of a machine over a sequence of inputs, and how the runs of a
//! composite relate to the runs of its two machines.
use vstd::prelude::*;

use crate::machine::{AndThen, MealyMachine};
use crate::step::Step;

verus! {

/// Whether feeding `inputs` to `m`, one per transition, may yield `outputs`
/// from every transition but the last, and end with `result` on the last one.
pub open spec fn drives<M: MealyMachine>(
    m: M,
    inputs: Seq<M::Input>,
    outputs: Seq<M::Output>,
    result: M::CalcResult,
) -> bool
    decreases inputs.len(),
{
    if inputs.len() == 0 {
        false
    } else if inputs.len() == 1 {
        outputs.len() == 0 && m.step_rel(inputs[0], Ok(Step::Done(result)))
    } else {
        &&& outputs.len() > 0
        &&& exists|n: M|
            #[trigger] m.step_rel(inputs[0], Ok(Step::NotReady(n, outputs[0]))) && drives(
                n,
                inputs.drop_first(),
                outputs.drop_first(),
                result,
            )
    }
}

/// Each output fragment, as the composite machine hands it on.
pub open spec fn lift_outputs<O>(os: Seq<O>) -> Seq<Option<O>> {
    os.map_values(|o: O| Some(o))
}

/// The outputs of a composite run: those of the first machine, nothing at the
/// handoff, then those of the second machine.
pub open spec fn and_then_outputs<O>(os: Seq<O>, ps: Seq<O>) -> Seq<Option<O>> {
    lift_outputs(os) + seq![None] + lift_outputs(ps)
}

/// Once the second machine is active, the composite runs exactly as that
/// machine does, with each output wrapped in `Some`.
pub proof fn lemma_second_phase_runs<M1, M2, F>(
    m2: M2,
    inputs: Seq<M1::Input>,
    ps: Seq<M1::Output>,
    result: M2::CalcResult,
) where
    M1: MealyMachine,
    M2: MealyMachine<Input = M1::Input, Output = M1::Output, Error = M1::Error>,
    F: FnOnce(M1::CalcResult) -> M2,

    requires
        drives(m2, inputs, ps, result),
    ensures
        drives(AndThen::<M1, M2, F>::Machine2(m2), inputs, lift_outputs(ps), result),
    decreases inputs.len(),
{
    if inputs.len() > 1 {
        let n = choose|n: M2|
            #[trigger] m2.step_rel(inputs[0], Ok(Step::NotReady(n, ps[0]))) && drives(
                n,
                inputs.drop_first(),
                ps.drop_first(),
                result,
            );
        lemma_second_phase_runs::<M1, M2, F>(n, inputs.drop_first(), ps.drop_first(), result);
        assert(lift_outputs(ps.drop_first()) =~= lift_outputs(ps).drop_first());
        let c = AndThen::<M1, M2, F>::Machine2(m2);
        assert(c.step_rel(
            inputs[0],
            Ok(Step::NotReady(AndThen::<M1, M2, F>::Machine2(n), lift_outputs(ps)[0])),
        ));
    }
}

/// Composition law: a run of the first machine to `r`, a second machine that
/// the continuation builds from `r`, and a run of that machine together make
/// a run of the composite over both inputs. Its outputs are those of the first
/// run, nothing at the handoff, then those of the second run, and it ends with
/// the second run's result.
pub proof fn lemma_and_then_runs<M1, M2, F>(
    m1: M1,
    f: F,
    is: Seq<M1::Input>,
    os: Seq<M1::Output>,
    r: M1::CalcResult,
    m2: M2,
    js: Seq<M1::Input>,
    ps: Seq<M1::Output>,
    result: M2::CalcResult,
) where
    M1: MealyMachine,
    M2: MealyMachine<Input = M1::Input, Output = M1::Output, Error = M1::Error>,
    F: FnOnce(M1::CalcResult) -> M2,

    requires
        drives(m1, is, os, r),
        f.ensures((r,), m2),
        drives(m2, js, ps, result),
    ensures
        drives(AndThen::<M1, M2, F>::Machine1(m1, f), is + js, and_then_outputs(os, ps), result),
    decreases is.len(),
{
    let c = AndThen::<M1, M2, F>::Machine1(m1, f);
    let qs = and_then_outputs(os, ps);
    lemma_second_phase_runs::<M1, M2, F>(m2, js, ps, result);
    if is.len() == 1 {
        assert(m1.step_rel(is[0], Ok(Step::Done(r))));
        assert((is + js).drop_first() =~= js);
        assert(qs.drop_first() =~= lift_outputs(ps));
        assert((is + js)[0] == is[0]);
        assert(qs[0] == None::<M1::Output>);
        assert(c.step_rel((is + js)[0], Ok(Step::NotReady(AndThen::<M1, M2, F>::Machine2(m2), qs[0]))));
    } else {
        let n = choose|n: M1|
            #[trigger] m1.step_rel(is[0], Ok(Step::NotReady(n, os[0]))) && drives(
                n,
                is.drop_first(),
                os.drop_first(),
                r,
            );
        lemma_and_then_runs(n, f, is.drop_first(), os.drop_first(), r, m2, js, ps, result);
        let next = AndThen::<M1, M2, F>::Machine1(n, f);
        assert(c.step_rel(is[0], Ok(Step::NotReady(next, Some(os[0])))));
        assert((is + js).drop_first() =~= is.drop_first() + js);
        assert(qs.drop_first() =~= and_then_outputs(os.drop_first(), ps));
        assert((is + js)[0] == is[0]);
        assert(qs[0] == Some(os[0]));
    }
}


/// Every run of the composite while the second machine is active is a run of
/// that machine, with each output wrapped in `Some`; the result gives those
/// outputs.
pub proof fn lemma_second_phase_run_back<M1, M2, F>(
    m2: M2,
    inputs: Seq<M1::Input>,
    qs: Seq<Option<M1::Output>>,
    result: M2::CalcResult,
) -> (ps: Seq<M1::Output>) where
    M1: MealyMachine,
    M2: MealyMachine<Input = M1::Input, Output = M1::Output, Error = M1::Error>,
    F: FnOnce(M1::CalcResult) -> M2,

    requires
        drives(AndThen::<M1, M2, F>::Machine2(m2), inputs, qs, result),
    ensures
        drives(m2, inputs, ps, result),
        qs == lift_outputs(ps),
    decreases inputs.len(),
{
    let c = AndThen::<M1, M2, F>::Machine2(m2);
    if inputs.len() == 1 {
        let ps = Seq::<M1::Output>::empty();
        assert(qs =~= lift_outputs(ps));
        ps
    } else {
        let n = choose|n: AndThen<M1, M2, F>|
            #[trigger] c.step_rel(inputs[0], Ok(Step::NotReady(n, qs[0]))) && drives(
                n,
                inputs.drop_first(),
                qs.drop_first(),
                result,
            );
        match (n, qs[0]) {
            (AndThen::Machine2(n2), Some(o)) => {
                let rest = lemma_second_phase_run_back::<M1, M2, F>(
                    n2,
                    inputs.drop_first(),
                    qs.drop_first(),
                    result,
                );
                let ps = seq![o] + rest;
                assert(ps.drop_first() =~= rest);
                assert(m2.step_rel(inputs[0], Ok(Step::NotReady(n2, ps[0]))));
                assert forall|i: int| 0 <= i < qs.len() implies qs[i] == lift_outputs(ps)[i] by {
                    if i > 0 {
                        assert(qs[i] == qs.drop_first()[i - 1]);
                    }
                }
                assert(qs =~= lift_outputs(ps));
                ps
            },
            _ => {
                assert(false);
                Seq::empty()
            },
        }
    }
}

/// Converse of the composition law: every run of the composite, started in
/// its first phase, splits after some `k` inputs into a run of the first
/// machine to a final result `r`, a second machine that the continuation
/// builds from `r`, and a run of that machine on the remaining inputs. The
/// outputs are those of the two runs with nothing at the handoff between them.
pub proof fn lemma_and_then_run_splits<M1, M2, F>(
    m1: M1,
    f: F,
    xs: Seq<M1::Input>,
    qs: Seq<Option<M1::Output>>,
    result: M2::CalcResult,
) where
    M1: MealyMachine,
    M2: MealyMachine<Input = M1::Input, Output = M1::Output, Error = M1::Error>,
    F: FnOnce(M1::CalcResult) -> M2,

    requires
        drives(AndThen::<M1, M2, F>::Machine1(m1, f), xs, qs, result),
    ensures
        exists|k: int, os: Seq<M1::Output>, r: M1::CalcResult, m2: M2, ps: Seq<M1::Output>|
            #![trigger drives(m1, xs.take(k), os, r), drives(m2, xs.skip(k), ps, result)]
            {
                &&& 1 <= k < xs.len()
                &&& drives(m1, xs.take(k), os, r)
                &&& f.ensures((r,), m2)
                &&& drives(m2, xs.skip(k), ps, result)
                &&& qs == and_then_outputs(os, ps)
            },
    decreases xs.len(),
{
    let c = AndThen::<M1, M2, F>::Machine1(m1, f);
    if xs.len() == 1 {
        assert(!c.step_rel(xs[0], Ok(Step::Done(result))));
    } else {
        let n = choose|n: AndThen<M1, M2, F>|
            #[trigger] c.step_rel(xs[0], Ok(Step::NotReady(n, qs[0]))) && drives(
                n,
                xs.drop_first(),
                qs.drop_first(),
                result,
            );
        let xs1 = xs.drop_first();
        let qs1 = qs.drop_first();
        match (n, qs[0]) {
            (AndThen::Machine1(n1, g), Some(o)) => {
                lemma_and_then_run_splits(n1, f, xs1, qs1, result);
                let (k1, os1, r, m2, ps) = choose|
                    k1: int,
                    os1: Seq<M1::Output>,
                    r: M1::CalcResult,
                    m2: M2,
                    ps: Seq<M1::Output>,
                |
                    #![trigger drives(n1, xs1.take(k1), os1, r), drives(m2, xs1.skip(k1), ps, result)]
                    {
                        &&& 1 <= k1 < xs1.len()
                        &&& drives(n1, xs1.take(k1), os1, r)
                        &&& f.ensures((r,), m2)
                        &&& drives(m2, xs1.skip(k1), ps, result)
                        &&& qs1 == and_then_outputs(os1, ps)
                    };
                let k = k1 + 1;
                let os = seq![o] + os1;
                assert(xs.take(k).drop_first() =~= xs1.take(k1));
                assert(os.drop_first() =~= os1);
                assert(m1.step_rel(xs.take(k)[0], Ok(Step::NotReady(n1, os[0]))));
                assert(drives(m1, xs.take(k), os, r));
                assert(xs.skip(k) =~= xs1.skip(k1));
                let expected = and_then_outputs(os, ps);
                assert forall|i: int| 0 <= i < qs.len() implies qs[i] == expected[i] by {
                    if i > 0 {
                        assert(qs[i] == qs1[i - 1]);
                        if i <= os1.len() {
                            assert(os[i] == os1[i - 1]);
                        }
                    }
                }
                assert(qs =~= expected);
            },
            (AndThen::Machine2(m2), None) => {
                let r = choose|r: M1::CalcResult|
                    m1.step_rel(xs[0], Ok(Step::Done(r))) && #[trigger] f.ensures((r,), m2);
                let ps = lemma_second_phase_run_back::<M1, M2, F>(m2, xs1, qs1, result);
                let os = Seq::<M1::Output>::empty();
                assert(xs.take(1)[0] == xs[0]);
                assert(drives(m1, xs.take(1), os, r));
                assert(xs.skip(1) =~= xs1);
                let expected = and_then_outputs(os, ps);
                assert forall|i: int| 0 <= i < qs.len() implies qs[i] == expected[i] by {
                    if i > 0 {
                        assert(qs[i] == qs1[i - 1]);
                    }
                }
                assert(qs =~= expected);
            },
            _ => {
                assert(false);
            },
        }
    }
}

} // verus!
