//! The schedule of a trainer over plugins: a vessel, callbacks, seeds and a restore.
//!
//! The driver decides; whoever owns the plugins does what an action says and answers. Between two
//! answers the plugins may change the state of the trainer and its configuration.
use crate::integer::{truncated_remainder, Integer};
use crate::rl_trainer_state::{
    initialized, iteration_initialized, number_of, RlTrainerRuntime, RlTrainerStateError, TrainerModel,
};
use vstd::prelude::*;

verus! {

/// How far and how a trainer fits.
#[derive(Debug)]
pub struct RlTrainerConfig {
    pub max_iters: Option<Integer>,
    pub val_every_n_iters: Option<Integer>,
}

/// What plugins may change between two answers.
pub struct RlTrainerControl<M> {
    pub runtime: RlTrainerRuntime<M>,
    pub config: RlTrainerConfig,
}

#[derive(Clone, Copy, Debug, PartialEq, Eq, Structural)]
pub enum RlTrainerPhase {
    Train,
    Validation,
    Test,
}

#[derive(Clone, Copy, Debug, PartialEq, Eq, Structural)]
pub enum RlTrainerHook {
    FitStart,
    FitEnd,
    IterStart,
    IterEnd,
    TrainStart,
    TrainEnd,
    ValidateStart,
    ValidateEnd,
    TestStart,
    TestEnd,
}

/// Why a run of a trainer ended early.
#[derive(Debug)]
pub enum RlTrainerDriverError {
    State(RlTrainerStateError),
    MissingState(&'static str),
    ZeroValidationInterval,
    Plugin { stage: String, message: String },
}

/// Progress that is traced.
#[derive(Clone, Copy, Debug)]
pub struct TracingRlTrainerProgress;

// ---- decisions on the state -------------------------------------------------------------------

/// Whether an error says that a field of the state is missing.
pub open spec fn is_missing_state(error: RlTrainerDriverError, field: Seq<char>) -> bool {
    error matches RlTrainerDriverError::MissingState(name) && name@ == field
}

/// Whether the interval of validations is over.
pub open spec fn validation_due(interval: int, iteration: int) -> bool {
    truncated_remainder(iteration + 1, interval) == 0
}

/// The state after an iteration was counted.
pub open spec fn iteration_finished<M>(state: TrainerModel<M>, maximum: Option<int>) -> TrainerModel<M> {
    let next = state.current_iter->Some_0 + 1;
    TrainerModel {
        current_iter: Some(next),
        should_stop: if maximum is Some && next >= maximum->Some_0 {
            Some(true)
        } else {
            state.should_stop
        },
        ..state
    }
}

impl<M> RlTrainerControl<M> {
    /// What the state holds.
    pub open spec fn state(&self) -> TrainerModel<M> {
        self.runtime.state@
    }

    /// Begins a validation if one is due: the stage changes with the decision.
    pub fn begin_validation(&mut self) -> (result: Result<bool, RlTrainerDriverError>)
        ensures
            final(self).config == old(self).config,
            final(self).runtime.fast_dev_run == old(self).runtime.fast_dev_run,
            match number_of(old(self).config.val_every_n_iters) {
                None => result == Ok::<bool, RlTrainerDriverError>(false) && final(self).state() == old(self).state(),
                Some(interval) => match old(self).state().current_iter {
                    None => final(self).state() == old(self).state() && result is Err && is_missing_state(
                        result->Err_0,
                        "current_iter"@,
                    ),
                    Some(iteration) => if interval == 0 {
                        final(self).state() == old(self).state() && result == Err::<bool, _>(
                            RlTrainerDriverError::ZeroValidationInterval,
                        )
                    } else {
                        &&& result == Ok::<bool, RlTrainerDriverError>(validation_due(interval, iteration))
                        &&& final(self).state() == if validation_due(interval, iteration) {
                            TrainerModel { current_stage: "val"@, ..old(self).state() }
                        } else {
                            old(self).state()
                        }
                    },
                },
            },
    {
        let interval = match &self.config.val_every_n_iters {
            None => return Ok(false),
            Some(interval) => interval,
        };
        let next = match &self.runtime.state.current_iter {
            None => return Err(RlTrainerDriverError::MissingState("current_iter")),
            Some(iteration) => iteration.next(),
        };
        if interval.is_zero() {
            return Err(RlTrainerDriverError::ZeroValidationInterval);
        }
        let due = next.divisible_by(interval);
        if due {
            self.runtime.state.current_stage = "val".to_owned();
        }
        Ok(due)
    }

    /// Counts an iteration. The last one stops the trainer.
    pub fn finish_iteration(&mut self) -> (result: Result<(), RlTrainerDriverError>)
        ensures
            final(self).config == old(self).config,
            final(self).runtime.fast_dev_run == old(self).runtime.fast_dev_run,
            match old(self).state().current_iter {
                None => final(self).state() == old(self).state() && result is Err && is_missing_state(
                    result->Err_0,
                    "current_iter"@,
                ),
                Some(_) => result is Ok && final(self).state() == iteration_finished(
                    old(self).state(),
                    number_of(old(self).config.max_iters),
                ),
            },
    {
        let next = match &self.runtime.state.current_iter {
            None => return Err(RlTrainerDriverError::MissingState("current_iter")),
            Some(iteration) => iteration.next(),
        };
        let stops = match &self.config.max_iters {
            Some(maximum) => !next.less(maximum),
            None => false,
        };
        self.runtime.state.current_iter = Some(next);
        if stops {
            self.runtime.state.should_stop = Some(true);
        }
        Ok(())
    }
}

// ---- the schedule -----------------------------------------------------------------------------

/// What a driver waits for.
pub enum DriverPhase {
    /// Nothing: no run is under way.
    Idle,
    /// The vessel to take the trainer, before a fit (with or without a restore) or a test.
    Assigning { restores: bool, tests: bool },
    /// The restore.
    Restoring,
    /// A callback.
    Calling { hook: RlTrainerHook, index: usize },
    /// The report of an iteration.
    Reporting,
    /// The seeds of a phase.
    Seeding(RlTrainerPhase),
    /// The entry of the seeds.
    Entering(RlTrainerPhase),
    /// The environment of a phase.
    Building(RlTrainerPhase),
    /// The phase itself.
    Running(RlTrainerPhase),
    /// The exit of the seeds, with the error of the phase if there was one.
    Exiting { phase: RlTrainerPhase, error: Option<RlTrainerDriverError> },
}

/// What the owner of the plugins does next.
pub enum DriverAction {
    AssignTrainer,
    Restore,
    Callback { hook: RlTrainerHook, index: usize },
    Progress { next: Integer, maximum: Option<Integer> },
    Seeds(RlTrainerPhase),
    EnterSeeds,
    /// Build an environment. One that was kept behind a failed phase goes once this is built.
    Environment,
    /// Run a phase. The environment of a failed phase is kept.
    Run(RlTrainerPhase),
    /// Leave the seeds; the error of the phase is at hand.
    ExitSeeds,
    /// The run is over.
    Finished,
    /// The run ended early.
    Failed(RlTrainerDriverError),
}

/// What an action asks for.
pub enum ActionModel {
    AssignTrainer,
    Restore,
    Callback { hook: RlTrainerHook, index: usize },
    Progress { next: int, maximum: Option<int> },
    Seeds(RlTrainerPhase),
    EnterSeeds,
    Environment,
    Run(RlTrainerPhase),
    ExitSeeds,
    Finished,
    /// A state that a decision needs is missing.
    Missing(Seq<char>),
    ZeroInterval,
    Failed(RlTrainerDriverError),
}

impl View for DriverAction {
    type V = ActionModel;

    open spec fn view(&self) -> ActionModel {
        match self {
            DriverAction::AssignTrainer => ActionModel::AssignTrainer,
            DriverAction::Restore => ActionModel::Restore,
            DriverAction::Callback { hook, index } => ActionModel::Callback { hook: *hook, index: *index },
            DriverAction::Progress { next, maximum } => ActionModel::Progress {
                next: next@,
                maximum: number_of(*maximum),
            },
            DriverAction::Seeds(phase) => ActionModel::Seeds(*phase),
            DriverAction::EnterSeeds => ActionModel::EnterSeeds,
            DriverAction::Environment => ActionModel::Environment,
            DriverAction::Run(phase) => ActionModel::Run(*phase),
            DriverAction::ExitSeeds => ActionModel::ExitSeeds,
            DriverAction::Finished => ActionModel::Finished,
            DriverAction::Failed(RlTrainerDriverError::MissingState(field)) => ActionModel::Missing(field@),
            DriverAction::Failed(RlTrainerDriverError::ZeroValidationInterval) => ActionModel::ZeroInterval,
            DriverAction::Failed(error) => ActionModel::Failed(*error),
        }
    }
}

/// The action of a plugin's error.
pub open spec fn failed(error: RlTrainerDriverError) -> ActionModel {
    DriverAction::Failed(error)@
}

/// What comes of a decision: the phase and the action, and the state of the trainer.
pub struct Decision<M> {
    pub phase: DriverPhase,
    pub action: ActionModel,
    pub state: TrainerModel<M>,
}

/// The run is over.
pub open spec fn finished<M>(state: TrainerModel<M>) -> Decision<M> {
    Decision { phase: DriverPhase::Idle, action: ActionModel::Finished, state }
}

/// The run ends early.
pub open spec fn broken<M>(action: ActionModel, state: TrainerModel<M>) -> Decision<M> {
    Decision { phase: DriverPhase::Idle, action, state }
}

/// How many hooks can follow one another without a callback.
pub open spec fn hook_rank(hook: RlTrainerHook) -> nat {
    match hook {
        RlTrainerHook::TrainEnd => 4,
        RlTrainerHook::ValidateEnd => 3,
        RlTrainerHook::FitStart => 2,
        RlTrainerHook::IterEnd => 2,
        RlTrainerHook::IterStart => 1,
        _ => 0,
    }
}

/// A hook is dispatched: the first callback is due, or what follows the hook if there is none.
pub open spec fn dispatched<M>(hook: RlTrainerHook, callbacks: usize, config: RlTrainerConfig, state: TrainerModel<M>) -> Decision<M>
    decreases hook_rank(hook), 1nat,
{
    if callbacks > 0 {
        Decision {
            phase: DriverPhase::Calling { hook, index: 0 },
            action: ActionModel::Callback { hook, index: 0 },
            state,
        }
    } else {
        after_hook(hook, callbacks, config, state)
    }
}

/// What follows a hook once every callback has run.
pub open spec fn after_hook<M>(hook: RlTrainerHook, callbacks: usize, config: RlTrainerConfig, state: TrainerModel<M>) -> Decision<M>
    decreases hook_rank(hook), 0nat,
{
    match hook {
        RlTrainerHook::FitStart | RlTrainerHook::IterEnd => match state.should_stop {
            None => broken(ActionModel::Missing("should_stop"@), state),
            Some(stops) => if stops {
                dispatched(RlTrainerHook::FitEnd, callbacks, config, state)
            } else {
                match state.current_iter {
                    None => broken(ActionModel::Missing("current_iter"@), state),
                    Some(iteration) => Decision {
                        phase: DriverPhase::Reporting,
                        action: ActionModel::Progress { next: iteration + 1, maximum: number_of(config.max_iters) },
                        state,
                    },
                }
            },
        },
        RlTrainerHook::IterStart => dispatched(
            RlTrainerHook::TrainStart,
            callbacks,
            config,
            TrainerModel { current_stage: "train"@, ..state },
        ),
        RlTrainerHook::TrainStart => seeded(RlTrainerPhase::Train, state),
        RlTrainerHook::ValidateStart => seeded(RlTrainerPhase::Validation, state),
        RlTrainerHook::TestStart => seeded(RlTrainerPhase::Test, state),
        RlTrainerHook::TrainEnd => match number_of(config.val_every_n_iters) {
            None => match state.current_iter {
                None => broken(ActionModel::Missing("current_iter"@), state),
                Some(_) => dispatched(
                    RlTrainerHook::IterEnd,
                    callbacks,
                    config,
                    iteration_finished(state, number_of(config.max_iters)),
                ),
            },
            Some(interval) => match state.current_iter {
                None => broken(ActionModel::Missing("current_iter"@), state),
                Some(iteration) => if interval == 0 {
                    broken(ActionModel::ZeroInterval, state)
                } else if validation_due(interval, iteration) {
                    dispatched(
                        RlTrainerHook::ValidateStart,
                        callbacks,
                        config,
                        TrainerModel { current_stage: "val"@, ..state },
                    )
                } else {
                    dispatched(
                        RlTrainerHook::IterEnd,
                        callbacks,
                        config,
                        iteration_finished(state, number_of(config.max_iters)),
                    )
                },
            },
        },
        RlTrainerHook::ValidateEnd => match state.current_iter {
            None => broken(ActionModel::Missing("current_iter"@), state),
            Some(_) => dispatched(
                RlTrainerHook::IterEnd,
                callbacks,
                config,
                iteration_finished(state, number_of(config.max_iters)),
            ),
        },
        RlTrainerHook::FitEnd | RlTrainerHook::TestEnd => finished(state),
    }
}

/// The seeds of a phase are due.
pub open spec fn seeded<M>(phase: RlTrainerPhase, state: TrainerModel<M>) -> Decision<M> {
    Decision { phase: DriverPhase::Seeding(phase), action: ActionModel::Seeds(phase), state }
}

/// The hook at the end of a phase.
pub open spec fn end_hook(phase: RlTrainerPhase) -> RlTrainerHook {
    match phase {
        RlTrainerPhase::Train => RlTrainerHook::TrainEnd,
        RlTrainerPhase::Validation => RlTrainerHook::ValidateEnd,
        RlTrainerPhase::Test => RlTrainerHook::TestEnd,
    }
}

/// What a plugin answers: nothing if it did its work, else its error; seeds say on their exit
/// whether they suppress the error of the phase.
pub enum DriverReply {
    Done,
    Failed(RlTrainerDriverError),
    Exited(bool),
}

/// Whether an answer fits what a driver waits for.
pub open spec fn fits(phase: DriverPhase, reply: DriverReply) -> bool {
    match phase {
        DriverPhase::Idle => false,
        DriverPhase::Exiting { .. } => !(reply is Done),
        _ => !(reply is Exited),
    }
}

/// What follows an answer.
pub open spec fn answered<M>(
    phase: DriverPhase,
    reply: DriverReply,
    callbacks: usize,
    config: RlTrainerConfig,
    state: TrainerModel<M>,
) -> Decision<M> {
    match reply {
        DriverReply::Failed(error) => match phase {
            DriverPhase::Building(running) | DriverPhase::Running(running) => Decision {
                phase: DriverPhase::Exiting { phase: running, error: Some(error) },
                action: ActionModel::ExitSeeds,
                state,
            },
            _ => broken(failed(error), state),
        },
        _ => match phase {
            DriverPhase::Idle => finished(state),
            DriverPhase::Assigning { restores, tests } => if tests {
                dispatched(
                    RlTrainerHook::TestStart,
                    callbacks,
                    config,
                    TrainerModel { current_stage: "test"@, ..iteration_initialized(state) },
                )
            } else if restores {
                Decision { phase: DriverPhase::Restoring, action: ActionModel::Restore, state }
            } else {
                dispatched(RlTrainerHook::FitStart, callbacks, config, initialized(state))
            },
            DriverPhase::Restoring => dispatched(RlTrainerHook::FitStart, callbacks, config, state),
            DriverPhase::Calling { hook, index } => if index + 1 < callbacks {
                Decision {
                    phase: DriverPhase::Calling { hook, index: (index + 1) as usize },
                    action: ActionModel::Callback { hook, index: (index + 1) as usize },
                    state,
                }
            } else {
                after_hook(hook, callbacks, config, state)
            },
            DriverPhase::Reporting => dispatched(
                RlTrainerHook::IterStart,
                callbacks,
                config,
                iteration_initialized(state),
            ),
            DriverPhase::Seeding(running) => Decision {
                phase: DriverPhase::Entering(running),
                action: ActionModel::EnterSeeds,
                state,
            },
            DriverPhase::Entering(running) => Decision {
                phase: DriverPhase::Building(running),
                action: ActionModel::Environment,
                state,
            },
            DriverPhase::Building(running) => Decision {
                phase: DriverPhase::Running(running),
                action: ActionModel::Run(running),
                state,
            },
            DriverPhase::Running(running) => Decision {
                phase: DriverPhase::Exiting { phase: running, error: None },
                action: ActionModel::ExitSeeds,
                state,
            },
            DriverPhase::Exiting { phase: running, error } => match error {
                Some(failure) => if reply == DriverReply::Exited(true) {
                    dispatched(end_hook(running), callbacks, config, state)
                } else {
                    broken(failed(failure), state)
                },
                None => dispatched(end_hook(running), callbacks, config, state),
            },
        },
    }
}

/// The driver of a trainer.
pub struct RlTrainerDriver {
    callbacks: usize,
    phase: DriverPhase,
}

impl RlTrainerDriver {
    /// How many callbacks are registered.
    pub closed spec fn callbacks(&self) -> usize {
        self.callbacks
    }

    /// What the driver waits for.
    pub closed spec fn phase(&self) -> DriverPhase {
        self.phase
    }

    pub fn new(callbacks: usize) -> (result: Self)
        ensures
            result.callbacks() == callbacks,
            result.phase() is Idle,
    {
        RlTrainerDriver { callbacks, phase: DriverPhase::Idle }
    }

    /// Whether an answer fits what the driver waits for.
    pub fn expects(&self, reply: &DriverReply) -> (result: bool)
        ensures
            result == fits(self.phase(), *reply),
    {
        match (&self.phase, reply) {
            (DriverPhase::Idle, _) => false,
            (DriverPhase::Exiting { .. }, DriverReply::Done) => false,
            (DriverPhase::Exiting { .. }, _) => true,
            (_, DriverReply::Exited(_)) => false,
            _ => true,
        }
    }

    /// The error of a phase whose seeds are being left.
    pub fn phase_error(&self) -> (result: Option<&RlTrainerDriverError>)
        ensures
            match self.phase() {
                DriverPhase::Exiting { error: Some(error), .. } => result == Some(&error),
                _ => result is None,
            },
    {
        match &self.phase {
            DriverPhase::Exiting { error: Some(error), .. } => Some(error),
            _ => None,
        }
    }

    /// Begins a fit, from a restore or from the start.
    pub fn fit(&mut self, restores: bool) -> (result: DriverAction)
        ensures
            final(self).callbacks() == old(self).callbacks(),
            final(self).phase() == (DriverPhase::Assigning { restores, tests: false }),
            result@ == ActionModel::AssignTrainer,
    {
        self.phase = DriverPhase::Assigning { restores, tests: false };
        DriverAction::AssignTrainer
    }

    /// Begins a test. It clears the metrics and nothing else of the state.
    pub fn test(&mut self) -> (result: DriverAction)
        ensures
            final(self).callbacks() == old(self).callbacks(),
            final(self).phase() == (DriverPhase::Assigning { restores: false, tests: true }),
            result@ == ActionModel::AssignTrainer,
    {
        self.phase = DriverPhase::Assigning { restores: false, tests: true };
        DriverAction::AssignTrainer
    }

    /// Takes an answer and says what is done next.
    pub fn answer<M>(&mut self, reply: DriverReply, control: &mut RlTrainerControl<M>) -> (result: DriverAction)
        requires
            fits(old(self).phase(), reply),
        ensures
            final(self).callbacks() == old(self).callbacks(),
            final(control).config == old(control).config,
            final(control).runtime.fast_dev_run == old(control).runtime.fast_dev_run,
            ({
                let decision = answered(
                    old(self).phase(),
                    reply,
                    old(self).callbacks(),
                    old(control).config,
                    old(control).state(),
                );
                &&& final(self).phase() == decision.phase
                &&& result@ == decision.action
                &&& final(control).state() == decision.state
            }),
    {
        let mut phase = DriverPhase::Idle;
        core::mem::swap(&mut self.phase, &mut phase);
        let error = match reply {
            DriverReply::Failed(error) => {
                match phase {
                    DriverPhase::Building(running) | DriverPhase::Running(running) => {
                        self.phase = DriverPhase::Exiting { phase: running, error: Some(error) };
                        return DriverAction::ExitSeeds;
                    },
                    _ => return DriverAction::Failed(error),
                }
            },
            DriverReply::Exited(suppressed) => suppressed,
            DriverReply::Done => false,
        };
        match phase {
            DriverPhase::Idle => DriverAction::Finished,
            DriverPhase::Assigning { restores, tests } => if tests {
                control.runtime.state.initialize_iter();
                control.runtime.state.current_stage = "test".to_owned();
                self.dispatch(RlTrainerHook::TestStart, control)
            } else if restores {
                self.phase = DriverPhase::Restoring;
                DriverAction::Restore
            } else {
                control.runtime.state.initialize();
                self.dispatch(RlTrainerHook::FitStart, control)
            },
            DriverPhase::Restoring => self.dispatch(RlTrainerHook::FitStart, control),
            DriverPhase::Calling { hook, index } => if index < self.callbacks && index + 1 < self.callbacks {
                self.phase = DriverPhase::Calling { hook, index: index + 1 };
                DriverAction::Callback { hook, index: index + 1 }
            } else {
                self.follow(hook, control)
            },
            DriverPhase::Reporting => {
                control.runtime.state.initialize_iter();
                self.dispatch(RlTrainerHook::IterStart, control)
            },
            DriverPhase::Seeding(running) => {
                self.phase = DriverPhase::Entering(running);
                DriverAction::EnterSeeds
            },
            DriverPhase::Entering(running) => {
                self.phase = DriverPhase::Building(running);
                DriverAction::Environment
            },
            DriverPhase::Building(running) => {
                self.phase = DriverPhase::Running(running);
                DriverAction::Run(running)
            },
            DriverPhase::Running(running) => {
                self.phase = DriverPhase::Exiting { phase: running, error: None };
                DriverAction::ExitSeeds
            },
            DriverPhase::Exiting { phase: running, error: pending } => {
                let hook = match running {
                    RlTrainerPhase::Train => RlTrainerHook::TrainEnd,
                    RlTrainerPhase::Validation => RlTrainerHook::ValidateEnd,
                    RlTrainerPhase::Test => RlTrainerHook::TestEnd,
                };
                match pending {
                    Some(failure) => if error {
                        self.dispatch(hook, control)
                    } else {
                        DriverAction::Failed(failure)
                    },
                    None => self.dispatch(hook, control),
                }
            },
        }
    }

    /// Dispatches a hook.
    fn dispatch<M>(&mut self, hook: RlTrainerHook, control: &mut RlTrainerControl<M>) -> (result: DriverAction)
        requires
            old(self).phase() is Idle,
        ensures
            final(self).callbacks() == old(self).callbacks(),
            final(control).config == old(control).config,
            final(control).runtime.fast_dev_run == old(control).runtime.fast_dev_run,
            ({
                let decision = dispatched(hook, old(self).callbacks(), old(control).config, old(control).state());
                &&& final(self).phase() == decision.phase
                &&& result@ == decision.action
                &&& final(control).state() == decision.state
            }),
        decreases hook_rank(hook), 1nat,
    {
        if self.callbacks > 0 {
            self.phase = DriverPhase::Calling { hook, index: 0 };
            DriverAction::Callback { hook, index: 0 }
        } else {
            self.follow(hook, control)
        }
    }

    /// Goes on behind a hook.
    fn follow<M>(&mut self, hook: RlTrainerHook, control: &mut RlTrainerControl<M>) -> (result: DriverAction)
        requires
            old(self).phase() is Idle,
        ensures
            final(self).callbacks() == old(self).callbacks(),
            final(control).config == old(control).config,
            final(control).runtime.fast_dev_run == old(control).runtime.fast_dev_run,
            ({
                let decision = after_hook(hook, old(self).callbacks(), old(control).config, old(control).state());
                &&& final(self).phase() == decision.phase
                &&& result@ == decision.action
                &&& final(control).state() == decision.state
            }),
        decreases hook_rank(hook), 0nat,
    {
        match hook {
            RlTrainerHook::FitStart | RlTrainerHook::IterEnd => match control.runtime.state.should_stop {
                None => DriverAction::Failed(RlTrainerDriverError::MissingState("should_stop")),
                Some(stops) => if stops {
                    self.dispatch(RlTrainerHook::FitEnd, control)
                } else {
                    match &control.runtime.state.current_iter {
                        None => DriverAction::Failed(RlTrainerDriverError::MissingState("current_iter")),
                        Some(iteration) => {
                            let next = iteration.next();
                            let maximum = match &control.config.max_iters {
                                Some(number) => Some(number.copied()),
                                None => None,
                            };
                            self.phase = DriverPhase::Reporting;
                            DriverAction::Progress { next, maximum }
                        },
                    }
                },
            },
            RlTrainerHook::IterStart => {
                control.runtime.state.current_stage = "train".to_owned();
                self.dispatch(RlTrainerHook::TrainStart, control)
            },
            RlTrainerHook::TrainStart => {
                self.phase = DriverPhase::Seeding(RlTrainerPhase::Train);
                DriverAction::Seeds(RlTrainerPhase::Train)
            },
            RlTrainerHook::ValidateStart => {
                self.phase = DriverPhase::Seeding(RlTrainerPhase::Validation);
                DriverAction::Seeds(RlTrainerPhase::Validation)
            },
            RlTrainerHook::TestStart => {
                self.phase = DriverPhase::Seeding(RlTrainerPhase::Test);
                DriverAction::Seeds(RlTrainerPhase::Test)
            },
            RlTrainerHook::TrainEnd => match control.begin_validation() {
                Err(error) => DriverAction::Failed(error),
                Ok(due) => if due {
                    self.dispatch(RlTrainerHook::ValidateStart, control)
                } else {
                    match control.finish_iteration() {
                        Err(error) => DriverAction::Failed(error),
                        Ok(()) => self.dispatch(RlTrainerHook::IterEnd, control),
                    }
                },
            },
            RlTrainerHook::ValidateEnd => match control.finish_iteration() {
                Err(error) => DriverAction::Failed(error),
                Ok(()) => self.dispatch(RlTrainerHook::IterEnd, control),
            },
            RlTrainerHook::FitEnd | RlTrainerHook::TestEnd => DriverAction::Finished,
        }
    }
}

// ---- laws -------------------------------------------------------------------------------------

/// Seeds that were entered are left, whether the environment, the phase or nothing failed.
pub proof fn entered_seeds_are_left<M>(
    phase: RlTrainerPhase,
    reply: DriverReply,
    callbacks: usize,
    config: RlTrainerConfig,
    state: TrainerModel<M>,
)
    requires
        !(reply is Exited),
    ensures
        answered(DriverPhase::Running(phase), reply, callbacks, config, state).action == ActionModel::ExitSeeds,
        reply is Failed ==> answered(DriverPhase::Building(phase), reply, callbacks, config, state).action
            == ActionModel::ExitSeeds,
        reply is Failed ==> answered(DriverPhase::Entering(phase), reply, callbacks, config, state).phase is Idle,
{
}

/// The error of a phase ends the run unless the seeds suppress it; an error on the exit ends the
/// run in its place.
pub proof fn only_seeds_suppress_errors<M>(
    phase: RlTrainerPhase,
    error: RlTrainerDriverError,
    exit_error: RlTrainerDriverError,
    callbacks: usize,
    config: RlTrainerConfig,
    state: TrainerModel<M>,
)
    ensures
        ({
            let waiting = DriverPhase::Exiting { phase, error: Some(error) };
            &&& answered(waiting, DriverReply::Exited(false), callbacks, config, state) == broken(
                failed(error),
                state,
            )
            &&& answered(waiting, DriverReply::Failed(exit_error), callbacks, config, state) == broken(
                failed(exit_error),
                state,
            )
            &&& answered(waiting, DriverReply::Exited(true), callbacks, config, state) == dispatched(
                end_hook(phase),
                callbacks,
                config,
                state,
            )
        }),
{
}

/// The callbacks of a hook run in order, and one that fails skips the later ones and ends the run.
pub proof fn callbacks_run_in_order<M>(
    hook: RlTrainerHook,
    index: usize,
    error: RlTrainerDriverError,
    callbacks: usize,
    config: RlTrainerConfig,
    state: TrainerModel<M>,
)
    requires
        index + 1 < callbacks,
    ensures
        ({
            let waiting = DriverPhase::Calling { hook, index };
            let next = answered(waiting, DriverReply::Done, callbacks, config, state);
            &&& next.action == (ActionModel::Callback { hook, index: (index + 1) as usize })
            &&& answered(waiting, DriverReply::Failed(error), callbacks, config, state) == broken(failed(error), state)
        }),
{
}

/// A trainer that reached its maximum stops before another iteration: the end of the fit follows.
pub proof fn the_maximum_stops<M>(state: TrainerModel<M>, maximum: int, callbacks: usize, config: RlTrainerConfig)
    requires
        state.current_iter is Some,
        state.current_iter->Some_0 + 1 >= maximum,
    ensures
        after_hook(RlTrainerHook::IterEnd, callbacks, config, iteration_finished(state, Some(maximum))) == dispatched(
            RlTrainerHook::FitEnd,
            callbacks,
            config,
            iteration_finished(state, Some(maximum)),
        ),
{
}

/// A test leaves the iteration, the episode and the stop of the trainer alone.
pub proof fn tests_keep_progress<M>(callbacks: usize, config: RlTrainerConfig, state: TrainerModel<M>)
    ensures
        ({
            let after = answered(
                DriverPhase::Assigning { restores: false, tests: true },
                DriverReply::Done,
                callbacks,
                config,
                state,
            ).state;
            &&& after.current_iter == state.current_iter
            &&& after.current_episode == state.current_episode
            &&& after.should_stop == state.should_stop
            &&& after.metrics == Some(Seq::<(Seq<char>, M)>::empty())
            &&& after.current_stage == "test"@
        }),
{
}

// ---- whole fits -------------------------------------------------------------------------------

/// The answer of a plugin that does its work.
pub open spec fn plain_reply(phase: DriverPhase) -> DriverReply {
    match phase {
        DriverPhase::Exiting { .. } => DriverReply::Exited(false),
        _ => DriverReply::Done,
    }
}

/// What follows a decision if the plugin does its work and leaves the state of the trainer alone.
pub open spec fn onward<M>(decision: Decision<M>, callbacks: usize, config: RlTrainerConfig) -> Decision<M> {
    answered(decision.phase, plain_reply(decision.phase), callbacks, config, decision.state)
}

/// What follows a decision behind a number of plugins that do their work.
pub open spec fn onward_by<M>(decision: Decision<M>, callbacks: usize, config: RlTrainerConfig, count: nat) -> Decision<M>
    decreases count,
{
    if count == 0 {
        decision
    } else {
        onward(onward_by(decision, callbacks, config, (count - 1) as nat), callbacks, config)
    }
}

proof fn onward_adds<M>(decision: Decision<M>, callbacks: usize, config: RlTrainerConfig, first: nat, second: nat)
    ensures
        onward_by(onward_by(decision, callbacks, config, first), callbacks, config, second) == onward_by(
            decision,
            callbacks,
            config,
            first + second,
        ),
    decreases second,
{
    if second > 0 {
        onward_adds(decision, callbacks, config, first, (second - 1) as nat);
    }
}

proof fn callbacks_run<M>(
    hook: RlTrainerHook,
    index: usize,
    callbacks: usize,
    config: RlTrainerConfig,
    state: TrainerModel<M>,
) -> (count: nat)
    requires
        index < callbacks,
    ensures
        onward_by(
            Decision {
                phase: DriverPhase::Calling { hook, index },
                action: ActionModel::Callback { hook, index },
                state,
            },
            callbacks,
            config,
            count,
        ) == after_hook(hook, callbacks, config, state),
    decreases callbacks - index,
{
    let here = Decision {
        phase: DriverPhase::Calling { hook, index },
        action: ActionModel::Callback { hook, index },
        state,
    };
    assert(onward_by(here, callbacks, config, 0) == here);
    assert(onward_by(here, callbacks, config, 1) == onward(here, callbacks, config));
    if index + 1 < callbacks {
        let rest = callbacks_run(hook, (index + 1) as usize, callbacks, config, state);
        onward_adds(here, callbacks, config, 1, rest);
        1 + rest
    } else {
        1
    }
}

proof fn hook_runs<M>(hook: RlTrainerHook, callbacks: usize, config: RlTrainerConfig, state: TrainerModel<M>) -> (count: nat)
    ensures
        onward_by(dispatched(hook, callbacks, config, state), callbacks, config, count) == after_hook(
            hook,
            callbacks,
            config,
            state,
        ),
{
    if callbacks > 0 {
        callbacks_run(hook, 0, callbacks, config, state)
    } else {
        assert(onward_by(dispatched(hook, callbacks, config, state), callbacks, config, 0) == dispatched(
            hook,
            callbacks,
            config,
            state,
        ));
        0
    }
}

proof fn phase_runs<M>(phase: RlTrainerPhase, callbacks: usize, config: RlTrainerConfig, state: TrainerModel<M>) -> (count: nat)
    ensures
        onward_by(seeded(phase, state), callbacks, config, count) == after_hook(
            end_hook(phase),
            callbacks,
            config,
            state,
        ),
{
    let start = seeded(phase, state);
    reveal_with_fuel(onward_by, 6);
    assert(onward_by(start, callbacks, config, 5) == dispatched(end_hook(phase), callbacks, config, state));
    let rest = hook_runs(end_hook(phase), callbacks, config, state);
    onward_adds(start, callbacks, config, 5, rest);
    5 + rest
}

/// A decision to report the next iteration.
pub open spec fn reporting<M>(config: RlTrainerConfig, state: TrainerModel<M>) -> Decision<M> {
    Decision {
        phase: DriverPhase::Reporting,
        action: ActionModel::Progress {
            next: state.current_iter->Some_0 + 1,
            maximum: number_of(config.max_iters),
        },
        state,
    }
}

proof fn iteration_ends<M>(
    decision: Decision<M>,
    done: nat,
    callbacks: usize,
    config: RlTrainerConfig,
    state: TrainerModel<M>,
) -> (count: nat)
    requires
        onward_by(decision, callbacks, config, done) == dispatched(
            RlTrainerHook::IterEnd,
            callbacks,
            config,
            iteration_finished(state, number_of(config.max_iters)),
        ),
    ensures
        onward_by(decision, callbacks, config, count) == after_hook(
            RlTrainerHook::IterEnd,
            callbacks,
            config,
            iteration_finished(state, number_of(config.max_iters)),
        ),
{
    let rest = hook_runs(
        RlTrainerHook::IterEnd,
        callbacks,
        config,
        iteration_finished(state, number_of(config.max_iters)),
    );
    onward_adds(decision, callbacks, config, done, rest);
    done + rest
}

/// An iteration whose plugins do their work is counted, with or without a validation.
pub proof fn iterations_are_counted<M>(callbacks: usize, config: RlTrainerConfig, state: TrainerModel<M>) -> (result: (
    nat,
    TrainerModel<M>,
))
    requires
        state.current_iter is Some,
        number_of(config.val_every_n_iters) != Some(0int),
    ensures
        onward_by(reporting(config, state), callbacks, config, result.0) == after_hook(
            RlTrainerHook::IterEnd,
            callbacks,
            config,
            result.1,
        ),
        result.1.current_iter == Some(state.current_iter->Some_0 + 1),
        result.1.should_stop == if number_of(config.max_iters) is Some && state.current_iter->Some_0 + 1 >= number_of(
            config.max_iters,
        )->Some_0 {
            Some(true)
        } else {
            state.should_stop
        },
{
    let start = reporting(config, state);
    let begun = iteration_initialized(state);
    let training = TrainerModel { current_stage: "train"@, ..begun };
    assert(onward_by(start, callbacks, config, 0) == start);
    assert(onward_by(start, callbacks, config, 1) == dispatched(RlTrainerHook::IterStart, callbacks, config, begun));
    let a = hook_runs(RlTrainerHook::IterStart, callbacks, config, begun);
    onward_adds(start, callbacks, config, 1, a);
    let b = hook_runs(RlTrainerHook::TrainStart, callbacks, config, training);
    onward_adds(start, callbacks, config, 1 + a, b);
    let c = phase_runs(RlTrainerPhase::Train, callbacks, config, training);
    onward_adds(start, callbacks, config, 1 + a + b, c);
    let trained = 1 + a + b + c;
    let interval = number_of(config.val_every_n_iters);
    if interval is Some && validation_due(interval->Some_0, state.current_iter->Some_0) {
        let validating = TrainerModel { current_stage: "val"@, ..training };
        let d = hook_runs(RlTrainerHook::ValidateStart, callbacks, config, validating);
        onward_adds(start, callbacks, config, trained, d);
        let e = phase_runs(RlTrainerPhase::Validation, callbacks, config, validating);
        onward_adds(start, callbacks, config, trained + d, e);
        let count = iteration_ends(start, trained + d + e, callbacks, config, validating);
        (count, iteration_finished(validating, number_of(config.max_iters)))
    } else {
        let count = iteration_ends(start, trained, callbacks, config, training);
        (count, iteration_finished(training, number_of(config.max_iters)))
    }
}

proof fn remaining_iterations_run<M>(callbacks: usize, config: RlTrainerConfig, state: TrainerModel<M>, maximum: int) -> (count: nat)
    requires
        state.current_iter is Some,
        state.current_iter->Some_0 >= 0,
        state.current_iter->Some_0 == 0 || state.current_iter->Some_0 < maximum,
        state.should_stop == Some(false),
        number_of(config.max_iters) == Some(maximum),
        number_of(config.val_every_n_iters) != Some(0int),
    ensures
        ({
            let end = onward_by(reporting(config, state), callbacks, config, count);
            &&& end.action is Finished
            &&& end.state.current_iter == Some(
                if maximum < 1 {
                    1int
                } else {
                    maximum
                },
            )
        }),
    decreases maximum - state.current_iter->Some_0,
{
    let start = reporting(config, state);
    let (done, next) = iterations_are_counted(callbacks, config, state);
    if next.should_stop == Some(true) {
        let rest = hook_runs(RlTrainerHook::FitEnd, callbacks, config, next);
        onward_adds(start, callbacks, config, done, rest);
        done + rest
    } else {
        let rest = remaining_iterations_run(callbacks, config, next, maximum);
        onward_adds(start, callbacks, config, done, rest);
        done + rest
    }
}

/// A fit from the start whose plugins do their work and leave the state of the trainer alone comes to
/// its end, with as many iterations as it may have at most, and never with none.
pub proof fn fits_run_their_iterations<M>(
    callbacks: usize,
    config: RlTrainerConfig,
    state: TrainerModel<M>,
    maximum: int,
) -> (count: nat)
    requires
        number_of(config.max_iters) == Some(maximum),
        number_of(config.val_every_n_iters) != Some(0int),
    ensures
        ({
            let start = dispatched(RlTrainerHook::FitStart, callbacks, config, initialized(state));
            let end = onward_by(start, callbacks, config, count);
            &&& end.action is Finished
            &&& end.state.current_iter == Some(
                if maximum < 1 {
                    1int
                } else {
                    maximum
                },
            )
        }),
{
    let start = dispatched(RlTrainerHook::FitStart, callbacks, config, initialized(state));
    let begun = hook_runs(RlTrainerHook::FitStart, callbacks, config, initialized(state));
    assert(after_hook(RlTrainerHook::FitStart, callbacks, config, initialized(state)) == reporting(
        config,
        initialized(state),
    ));
    let rest = remaining_iterations_run(callbacks, config, initialized(state), maximum);
    onward_adds(start, callbacks, config, begun, rest);
    begun + rest
}

/// An iteration that is finished is counted once, and the trainer is told to stop exactly where it comes
/// to the maximum, unless it was told to before.
pub proof fn iterations_stop_at_the_maximum<M>(
    control: &mut RlTrainerControl<M>,
    result: Result<(), RlTrainerDriverError>,
    iteration: int,
    maximum: int,
)
    requires
        call_ensures(RlTrainerControl::<M>::finish_iteration, (control,), result),
        old(control).state().current_iter == Some(iteration),
        number_of(old(control).config.max_iters) == Some(maximum),
    ensures
        final(control).state().current_iter == Some(iteration + 1),
        iteration + 1 >= maximum ==> final(control).state().should_stop == Some(true),
        iteration + 1 < maximum ==> final(control).state().should_stop == old(control).state().should_stop,
        final(control).state().metrics == old(control).state().metrics,
        final(control).state().current_stage == old(control).state().current_stage,
{
}

/// Validations come behind every iteration whose number, counted from one, is a multiple of the
/// interval, and behind no other.
pub proof fn every_multiple_is_validated<M>(
    control: &mut RlTrainerControl<M>,
    result: Result<bool, RlTrainerDriverError>,
    iteration: int,
    interval: int,
    times: int,
)
    requires
        call_ensures(RlTrainerControl::<M>::begin_validation, (control,), result),
        old(control).state().current_iter == Some(iteration),
        number_of(old(control).config.val_every_n_iters) == Some(interval),
        interval > 0,
        iteration >= 0,
    ensures
        result is Ok,
        iteration + 1 == times * interval ==> result == Ok::<bool, RlTrainerDriverError>(true),
        result == Ok::<bool, RlTrainerDriverError>(true) ==> exists|whole: int| iteration + 1 == #[trigger] (whole * interval),
        result == Ok::<bool, RlTrainerDriverError>(true) ==> final(control).state().current_stage == "val"@,
        result == Ok::<bool, RlTrainerDriverError>(false) ==> final(control).state() == old(control).state(),
{
    let count = iteration + 1;
    vstd::arithmetic::div_mod::lemma_fundamental_div_mod(count, interval);
    assert(interval * (count / interval) == (count / interval) * interval) by (nonlinear_arith);
    if count == times * interval {
        vstd::arithmetic::div_mod::lemma_mod_multiples_basic(times, interval);
    }
}

} // verus!
