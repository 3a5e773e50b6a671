//! Step-driven state machines that consume one input at a time, and a
//! combinator that runs a second machine where the first one stops.
use vstd::prelude::*;

pub mod drive;
pub mod machine;
pub mod step;

pub use machine::{AResult, AndThen, MealyMachine};
pub use step::{Step, UnexpectedEndOfStateMachine};
