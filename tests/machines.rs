use mealy::{AndThen, MealyMachine, Step, UnexpectedEndOfStateMachine};

/// Takes `needed` inputs, echoing each one, and ends with `result`.
/// The input 0 is refused.
#[derive(Debug, PartialEq)]
struct Counter {
    needed: u32,
    result: u64,
}

impl MealyMachine for Counter {
    type Input = u64;
    type Output = u64;
    type Error = String;
    type CalcResult = u64;

    fn inv(&self) -> bool {
        true
    }

    fn step_rel(&self, input: u64, r: Result<Step<Self, u64, u64>, String>) -> bool {
        match r {
            Err(_) => input == 0,
            Ok(Step::Done(c)) => input != 0 && self.needed <= 1 && c == self.result,
            Ok(Step::NotReady(n, o)) => {
                input != 0
                    && self.needed > 1
                    && o == input
                    && n.needed == self.needed - 1
                    && n.result == self.result
            }
        }
    }

    fn transition(self, input: u64) -> Result<Step<Self, u64, u64>, String> {
        if input == 0 {
            return Err(format!("zero after {} left", self.needed));
        }
        if self.needed <= 1 {
            Ok(Step::Done(self.result))
        } else {
            Ok(Step::NotReady(
                Counter {
                    needed: self.needed - 1,
                    result: self.result,
                },
                input,
            ))
        }
    }
}

fn counter(needed: u32, result: u64) -> Counter {
    Counter { needed, result }
}

#[test]
fn counter_transitions_meet_its_relation() {
    for (needed, input) in [(3u32, 4u64), (1, 4), (2, 0), (1, 0)] {
        let m = counter(needed, 8);
        let r = counter(needed, 8).transition(input);
        assert!(m.step_rel(input, r));
    }
}

#[test]
fn try_next_state_keeps_state_and_output() {
    let s: Step<u8, &str, i32> = Step::NotReady(4, "out");
    assert_eq!(s.try_next_state(), Ok((4, "out")));
}

#[test]
fn try_next_state_wraps_final_result() {
    let s: Step<u8, &str, i32> = Step::Done(-3);
    assert_eq!(s.try_next_state(), Err(UnexpectedEndOfStateMachine(-3)));
}

#[test]
fn unexpected_end_orders_by_result() {
    assert!(UnexpectedEndOfStateMachine(1) < UnexpectedEndOfStateMachine(2));
    assert_eq!(UnexpectedEndOfStateMachine("x"), UnexpectedEndOfStateMachine("x"));
}

#[test]
fn and_then_starts_in_first_phase() {
    let m = counter(2, 10).and_then(|r: u64| counter(1, r));
    match m {
        AndThen::Machine1(m1, _) => assert_eq!(m1, counter(2, 10)),
        AndThen::Machine2(_) => panic!("second phase before any input"),
    }
}

#[test]
fn composite_scenario_two_then_one() {
    let m = counter(2, 10).and_then(|r: u64| {
        assert_eq!(r, 10);
        counter(1, 99)
    });
    let (m, o) = m.transition(5).unwrap().try_next_state().ok().unwrap();
    assert_eq!(o, Some(5));
    assert!(matches!(m, AndThen::Machine1(_, _)));
    let (m, o) = m.transition(7).unwrap().try_next_state().ok().unwrap();
    assert_eq!(o, None);
    assert!(matches!(m, AndThen::Machine2(_)));
    match m.transition(3) {
        Ok(Step::Done(r)) => assert_eq!(r, 99),
        _ => panic!("expected the end of the second machine"),
    }
}

#[test]
fn composite_outputs_match_sequential_driving() {
    let m = counter(3, 4).and_then(|r: u64| counter(r as u32, 77));
    let mut outputs = Vec::new();
    let mut m = m;
    let inputs = [11u64, 12, 13, 21, 22, 23, 24];
    let mut result = None;
    for (k, i) in inputs.iter().enumerate() {
        match m.transition(*i).unwrap() {
            Step::NotReady(n, o) => {
                outputs.push(o);
                m = n;
            }
            Step::Done(r) => {
                assert_eq!(k, inputs.len() - 1);
                result = Some(r);
                break;
            }
        }
    }
    assert_eq!(
        outputs,
        vec![Some(11), Some(12), None, Some(21), Some(22), Some(23)]
    );
    assert_eq!(result, Some(77));
}

#[test]
fn composite_passes_first_machine_error() {
    let m = counter(2, 10).and_then(|r: u64| counter(1, r));
    match m.transition(0) {
        Err(e) => assert_eq!(e, "zero after 2 left"),
        Ok(_) => panic!("error expected"),
    }
}

#[test]
fn composite_passes_second_machine_error() {
    let m = counter(1, 3).and_then(|r: u64| counter(r as u32, 5));
    let (m, o) = m.transition(9).unwrap().try_next_state().ok().unwrap();
    assert_eq!(o, None);
    match m.transition(0) {
        Err(e) => assert_eq!(e, "zero after 3 left"),
        Ok(_) => panic!("error expected"),
    }
}

#[test]
fn continuation_runs_once_on_handoff() {
    let calls = std::cell::Cell::new(0u32);
    let m = counter(2, 6).and_then(|r: u64| {
        calls.set(calls.get() + 1);
        counter(2, r * 2)
    });
    let (m, _) = m.transition(1).unwrap().try_next_state().ok().unwrap();
    assert_eq!(calls.get(), 0);
    let (m, _) = m.transition(1).unwrap().try_next_state().ok().unwrap();
    assert_eq!(calls.get(), 1);
    let (m, o) = m.transition(8).unwrap().try_next_state().ok().unwrap();
    assert_eq!(o, Some(8));
    assert_eq!(calls.get(), 1);
    match m.transition(1) {
        Ok(Step::Done(r)) => assert_eq!(r, 12),
        _ => panic!("expected the end"),
    }
    assert_eq!(calls.get(), 1);
}

#[test]
fn continuation_unused_when_first_machine_fails() {
    let calls = std::cell::Cell::new(0u32);
    let m = counter(1, 6).and_then(|r: u64| {
        calls.set(calls.get() + 1);
        counter(1, r)
    });
    assert!(m.transition(0).is_err());
    assert_eq!(calls.get(), 0);
}
