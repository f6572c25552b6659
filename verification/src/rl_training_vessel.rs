//! The phases of training as a vessel names them.
use crate::rl_trainer_driver::{RlTrainerDriverError, RlTrainerPhase};
use vstd::prelude::*;

verus! {

/// The collection of seeds of a phase.
#[derive(Clone, Copy, Debug, PartialEq, Eq, Structural)]
pub enum TrainingSeedPhase {
    Train,
    Val,
    Test,
}

/// The collection of seeds of a phase.
pub fn seed_phase(phase: RlTrainerPhase) -> (result: TrainingSeedPhase)
    ensures
        result == match phase {
            RlTrainerPhase::Train => TrainingSeedPhase::Train,
            RlTrainerPhase::Validation => TrainingSeedPhase::Val,
            RlTrainerPhase::Test => TrainingSeedPhase::Test,
        },
{
    match phase {
        RlTrainerPhase::Train => TrainingSeedPhase::Train,
        RlTrainerPhase::Validation => TrainingSeedPhase::Val,
        RlTrainerPhase::Test => TrainingSeedPhase::Test,
    }
}

/// The name of the stage that a failed phase is reported as.
pub open spec fn run_stage(phase: RlTrainerPhase) -> Seq<char> {
    match phase {
        RlTrainerPhase::Train => "train"@,
        RlTrainerPhase::Validation => "validate"@,
        RlTrainerPhase::Test => "test"@,
    }
}

/// The error of a phase that failed.
pub fn run_error(phase: RlTrainerPhase, message: String) -> (result: RlTrainerDriverError)
    ensures
        result matches RlTrainerDriverError::Plugin { stage, message: said } && stage@ == run_stage(phase) && said
            == message,
{
    let stage = match phase {
        RlTrainerPhase::Train => "train",
        RlTrainerPhase::Validation => "validate",
        RlTrainerPhase::Test => "test",
    };
    RlTrainerDriverError::Plugin { stage: stage.to_owned(), message }
}

/// The error of seeds that could not be made.
pub fn seed_error(message: String) -> (result: RlTrainerDriverError)
    ensures
        result matches RlTrainerDriverError::Plugin { stage, message: said } && stage@ == "seed_factory"@ && said
            == message,
{
    RlTrainerDriverError::Plugin { stage: "seed_factory".to_owned(), message }
}

} // verus!
