//! Early stopping on a monitored metric, with snapshots of the best weights.
//!
//! The callback decides; whoever owns the vessel, the snapshots and the log does what an action
//! says and answers. A failure keeps what was assigned before it.
use crate::integer::{decimal_text, Integer};
use crate::number::{Number, Ticks};
use crate::ordered::{names_of, value_of, OrderedMap};
use crate::rl_trainer_checkpoint::{RlCheckpointField, RlTrainerCheckpointError};
use crate::rl_trainer_driver::RlTrainerHook;
use crate::rl_trainer_state::{RlTrainerState, RlTrainerStateError, TrainerModel};
use crate::text::{append_chars, from_chars, same_text, sentence, to_chars};
use vstd::prelude::*;

verus! {

/// A number that can be monitored: it has a highest and a lowest value, and a text.
pub trait MonitoredNumber: Number {
    open spec fn highest_spec() -> Self {
        arbitrary()
    }

    open spec fn lowest_spec() -> Self {
        arbitrary()
    }

    /// The value with four decimals, in lowercase.
    open spec fn shown(self) -> Seq<char> {
        arbitrary()
    }

    fn highest() -> (result: Self)
        ensures
            result == Self::highest_spec(),
    ;

    fn lowest() -> (result: Self)
        ensures
            result == Self::lowest_spec(),
    ;

    fn show(self) -> (result: String)
        ensures
            result@ == self.shown(),
    ;
}

impl MonitoredNumber for Ticks {
    open spec fn highest_spec() -> Self {
        Ticks(Some(i64::MAX))
    }

    open spec fn lowest_spec() -> Self {
        Ticks(Some(i64::MIN))
    }

    open spec fn shown(self) -> Seq<char> {
        match self.0 {
            Some(value) => decimal_text(value as int) + ".0000"@,
            None => "nan"@,
        }
    }

    fn highest() -> (result: Self) {
        Ticks(Some(i64::MAX))
    }

    fn lowest() -> (result: Self) {
        Ticks(Some(i64::MIN))
    }

    fn show(self) -> (result: String) {
        match self.0 {
            Some(value) => {
                let mut text = to_chars(Integer::from_i64(value).text().as_str());
                append_chars(&mut text, to_chars(".0000").as_slice());
                from_chars(text.as_slice())
            },
            None => "nan".to_owned(),
        }
    }
}

/// Why early stopping failed.
#[derive(Debug)]
pub enum RlEarlyStoppingError {
    UnsupportedMode(String),
    Runtime(RlTrainerStateError),
    Checkpoint(RlTrainerCheckpointError),
    MissingTrainerField(&'static str),
    Plugin { stage: &'static str, message: String },
}

/// What is said of a failure.
pub open spec fn stopping_words(error: RlEarlyStoppingError) -> Seq<char> {
    match error {
        RlEarlyStoppingError::UnsupportedMode(mode) => "Unsupported earlystopping mode: "@ + mode@,
        RlEarlyStoppingError::Runtime(error) => crate::rl_trainer_state::state_words(error),
        RlEarlyStoppingError::Checkpoint(error) => crate::rl_trainer_checkpoint::checkpoint_words(error),
        RlEarlyStoppingError::MissingTrainerField(field) => "trainer "@ + field@ + " has not been initialized"@,
        RlEarlyStoppingError::Plugin { stage, message } => "early stopping "@ + stage@ + " failed: "@ + message@,
    }
}

impl RlEarlyStoppingError {
    /// What is said of the failure.
    pub fn message(&self) -> (result: String)
        ensures
            result@ == stopping_words(*self),
    {
        match self {
            RlEarlyStoppingError::UnsupportedMode(mode) => sentence("Unsupported earlystopping mode: ", mode.as_str(), "", ""),
            RlEarlyStoppingError::Runtime(error) => error.message(),
            RlEarlyStoppingError::Checkpoint(error) => error.message(),
            RlEarlyStoppingError::MissingTrainerField(field) => sentence("trainer ", field, " has not been initialized", ""),
            RlEarlyStoppingError::Plugin { stage, message } => sentence("early stopping ", stage, " failed: ", message.as_str()),
        }
    }
}

/// What is monitored, and how patiently.
pub struct RlEarlyStoppingConfig<T> {
    pub monitor: String,
    pub min_delta: T,
    pub patience: Integer,
    pub mode: String,
    pub baseline: Option<T>,
    pub restore_best_weights: bool,
}

impl<T: MonitoredNumber> Default for RlEarlyStoppingConfig<T> {
    fn default() -> (result: Self)
        ensures
            result.monitor@ == "reward"@,
            result.min_delta == T::zero_spec(),
            result.patience@ == 0,
            result.mode@ == "max"@,
            result.baseline is None,
            !result.restore_best_weights,
    {
        RlEarlyStoppingConfig {
            monitor: "reward".to_owned(),
            min_delta: T::zero(),
            patience: Integer::zero(),
            mode: "max".to_owned(),
            baseline: None,
            restore_best_weights: false,
        }
    }
}

/// What early stopping knows. A missing field differs from a present one without weights.
pub struct RlEarlyStoppingState<S, T> {
    pub wait: RlCheckpointField<Integer>,
    pub best: RlCheckpointField<T>,
    pub best_weights: RlCheckpointField<Option<S>>,
    pub best_iter: RlCheckpointField<Integer>,
}

/// What early stopping knows.
pub struct StopModel<S, T> {
    pub wait: RlCheckpointField<int>,
    pub best: RlCheckpointField<T>,
    pub best_weights: RlCheckpointField<Option<S>>,
    pub best_iter: RlCheckpointField<int>,
}

/// The number in a field.
pub open spec fn field_number(field: RlCheckpointField<Integer>) -> RlCheckpointField<int> {
    match field {
        RlCheckpointField::Missing => RlCheckpointField::Missing,
        RlCheckpointField::Present(number) => RlCheckpointField::Present(number@),
    }
}

impl<S, T> View for RlEarlyStoppingState<S, T> {
    type V = StopModel<S, T>;

    open spec fn view(&self) -> StopModel<S, T> {
        StopModel {
            wait: field_number(self.wait),
            best: self.best,
            best_weights: self.best_weights,
            best_iter: field_number(self.best_iter),
        }
    }
}

/// Snapshots of plain values, taken through an encoding.
#[derive(Clone, Copy, Debug)]
pub struct BincodeRlCheckpointSnapshot;

#[derive(Clone, Copy, Debug, PartialEq, Eq, Structural)]
pub enum RlEarlyStoppingLogLevel {
    Info,
    Warning,
}

/// A log that is traced.
#[derive(Clone, Copy, Debug)]
pub struct TracingRlEarlyStoppingLogger;

/// Whether a value improves on a reference by more than the threshold.
pub open spec fn improves<T: MonitoredNumber>(minimize: bool, min_delta: T, value: T, reference: T) -> bool {
    if minimize {
        value.minus_spec(min_delta).below_spec(reference)
    } else {
        reference.below_spec(value.minus_spec(min_delta))
    }
}

/// What early stopping waits for.
pub enum StopPhase<T> {
    Idle,
    /// The warning that there is no value.
    Warning,
    /// The state of the vessel, for the first snapshot.
    FirstSave { current: T },
    FirstSnapshot { current: T },
    /// The state of the vessel, for the snapshot of an improvement.
    Save { current: T },
    Snapshot { current: T },
    /// The log of the progress.
    Progress,
    /// The log of the stop.
    StopLog,
    /// The log of the restore.
    RestoreLog,
    /// The restore of the vessel.
    Load,
}

/// What the owner of the plugins does next.
pub enum StopAction {
    Log { level: RlEarlyStoppingLogLevel, message: String },
    /// Save the state of the vessel.
    SaveVessel,
    /// Take a detached snapshot of the state that was saved.
    TakeSnapshot,
    /// Restore the vessel from the best weights.
    LoadVessel,
    Finished,
    Failed(RlEarlyStoppingError),
}

/// What an action asks for.
pub enum StopActionModel {
    Log { level: RlEarlyStoppingLogLevel, message: Seq<char> },
    SaveVessel,
    TakeSnapshot,
    LoadVessel,
    Finished,
    /// The trainer lacks a field.
    MissingTrainer(Seq<char>),
    /// The state of early stopping lacks a field.
    MissingField(Seq<char>),
    Plugin { stage: Seq<char>, message: Seq<char> },
    Other(RlEarlyStoppingError),
}

impl View for StopAction {
    type V = StopActionModel;

    open spec fn view(&self) -> StopActionModel {
        match self {
            StopAction::Log { level, message } => StopActionModel::Log { level: *level, message: message@ },
            StopAction::SaveVessel => StopActionModel::SaveVessel,
            StopAction::TakeSnapshot => StopActionModel::TakeSnapshot,
            StopAction::LoadVessel => StopActionModel::LoadVessel,
            StopAction::Finished => StopActionModel::Finished,
            StopAction::Failed(RlEarlyStoppingError::MissingTrainerField(field)) => StopActionModel::MissingTrainer(
                field@,
            ),
            StopAction::Failed(RlEarlyStoppingError::Checkpoint(RlTrainerCheckpointError::MissingField(field))) =>
            StopActionModel::MissingField(field@),
            StopAction::Failed(RlEarlyStoppingError::Plugin { stage, message }) => StopActionModel::Plugin {
                stage: stage@,
                message: message@,
            },
            StopAction::Failed(error) => StopActionModel::Other(*error),
        }
    }
}

/// What a plugin answers.
pub enum StopReply<S> {
    Done,
    /// A snapshot; none stands for a state that cannot be restored.
    Snapshot(Option<S>),
    Failed(String),
}

/// Whether an answer fits what early stopping waits for.
pub open spec fn fits<S, T>(phase: StopPhase<T>, reply: StopReply<S>) -> bool {
    match reply {
        StopReply::Failed(_) => !(phase is Idle),
        StopReply::Snapshot(_) => phase is FirstSnapshot || phase is Snapshot,
        StopReply::Done => !(phase is Idle || phase is FirstSnapshot || phase is Snapshot),
    }
}

/// What comes of a decision.
pub struct StopDecision<S, T> {
    pub phase: StopPhase<T>,
    pub action: StopActionModel,
    pub state: StopModel<S, T>,
    pub stops: bool,
}

/// Nothing more is done.
pub open spec fn over<S, T>(action: StopActionModel, state: StopModel<S, T>) -> StopDecision<S, T> {
    StopDecision { phase: StopPhase::Idle, action, state, stops: false }
}

/// Something is asked for.
pub open spec fn asked<S, T>(phase: StopPhase<T>, action: StopActionModel, state: StopModel<S, T>) -> StopDecision<S, T> {
    StopDecision { phase, action, state, stops: false }
}

/// Something is logged.
pub open spec fn told<S, T>(phase: StopPhase<T>, message: Seq<char>, state: StopModel<S, T>) -> StopDecision<S, T> {
    asked(phase, StopActionModel::Log { level: RlEarlyStoppingLogLevel::Info, message }, state)
}

/// Names with commas between them.
pub open spec fn comma_list(names: Seq<Seq<char>>) -> Seq<char>
    decreases names.len(),
{
    if names.len() == 0 {
        Seq::empty()
    } else if names.len() == 1 {
        names[0]
    } else {
        comma_list(names.drop_last()) + ","@ + names.last()
    }
}

/// The warning about a metric that is not there.
pub open spec fn unavailable_message(monitor: Seq<char>, names: Seq<Seq<char>>) -> Seq<char> {
    "Early stopping conditioned on metric `"@ + monitor + "` which is not available. Available metrics are: "@
        + comma_list(names)
}

/// The log of the progress.
pub open spec fn progress_message(iteration: int, current: Seq<char>, best: Seq<char>, best_iter: int) -> Seq<char> {
    "#"@ + decimal_text(iteration) + " current reward: "@ + current + ", best reward: "@ + best + " in #"@
        + decimal_text(best_iter)
}

/// The log of the stop.
pub open spec fn stop_message(next: int) -> Seq<char> {
    "On iteration "@ + decimal_text(next) + ": early stopping"@
}

/// The log of the restore.
pub open spec fn restore_message(number: int) -> Seq<char> {
    "Restoring model weights from the end of the best iteration: "@ + decimal_text(number)
}

/// Why the state of early stopping cannot be used.
pub open spec fn lacking<S, T>(field: Seq<char>, state: StopModel<S, T>) -> StopDecision<S, T> {
    over(StopActionModel::MissingField(field), state)
}

/// Why the state of the trainer cannot be used.
pub open spec fn untrained<S, T>(field: Seq<char>, state: StopModel<S, T>) -> StopDecision<S, T> {
    over(StopActionModel::MissingTrainer(field), state)
}

/// The progress is logged.
pub open spec fn progress_told<S, T: MonitoredNumber, M>(
    state: StopModel<S, T>,
    trainer: TrainerModel<M>,
    current: T,
) -> StopDecision<S, T> {
    match trainer.current_iter {
        None => untrained("current_iter"@, state),
        Some(iteration) => match state.best_iter {
            RlCheckpointField::Missing => lacking("best_iter"@, state),
            RlCheckpointField::Present(best_iter) => told(
                StopPhase::Progress,
                progress_message(iteration, current.shown(), state.best->Present_0.shown(), best_iter),
                state,
            ),
        },
    }
}

/// An improvement is taken in once its weights are: over the baseline it ends the waiting.
pub open spec fn improvement_taken<S, T: MonitoredNumber, M>(
    config: RlEarlyStoppingConfig<T>,
    minimize: bool,
    state: StopModel<S, T>,
    trainer: TrainerModel<M>,
    current: T,
) -> StopDecision<S, T> {
    progress_told(
        if config.baseline is None || improves(minimize, config.min_delta, current, config.baseline->Some_0) {
            StopModel { wait: RlCheckpointField::Present(0int), ..state }
        } else {
            state
        },
        trainer,
        current,
    )
}

/// A value is judged against the best one.
pub open spec fn judged<S, T: MonitoredNumber, M>(
    config: RlEarlyStoppingConfig<T>,
    minimize: bool,
    state: StopModel<S, T>,
    trainer: TrainerModel<M>,
    current: T,
) -> StopDecision<S, T> {
    match state.wait {
        RlCheckpointField::Missing => lacking("wait"@, state),
        RlCheckpointField::Present(wait) => {
            let waited = StopModel { wait: RlCheckpointField::Present(wait + 1), ..state };
            match state.best {
                RlCheckpointField::Missing => lacking("best"@, waited),
                RlCheckpointField::Present(best) => if improves(minimize, config.min_delta, current, best) {
                    let better = StopModel { best: RlCheckpointField::Present(current), ..waited };
                    match trainer.current_iter {
                        None => untrained("current_iter"@, better),
                        Some(iteration) => {
                            let placed = StopModel { best_iter: RlCheckpointField::Present(iteration), ..better };
                            if config.restore_best_weights {
                                asked(StopPhase::Save { current }, StopActionModel::SaveVessel, placed)
                            } else {
                                improvement_taken(config, minimize, placed, trainer, current)
                            }
                        },
                    }
                } else {
                    progress_told(waited, trainer, current)
                },
            }
        },
    }
}

/// The end of a validation.
pub open spec fn validated<S, T: MonitoredNumber>(
    config: RlEarlyStoppingConfig<T>,
    minimize: bool,
    state: StopModel<S, T>,
    trainer: TrainerModel<Option<T>>,
) -> StopDecision<S, T> {
    match trainer.metrics {
        None => untrained("metrics"@, state),
        Some(metrics) => match value_of(metrics, config.monitor@) {
            Some(Some(current)) => if config.restore_best_weights {
                match state.best_weights {
                    RlCheckpointField::Missing => lacking("best_weights"@, state),
                    RlCheckpointField::Present(None) => asked(
                        StopPhase::FirstSave { current },
                        StopActionModel::SaveVessel,
                        state,
                    ),
                    RlCheckpointField::Present(Some(_)) => judged(config, minimize, state, trainer, current),
                }
            } else {
                judged(config, minimize, state, trainer, current)
            },
            _ => asked(
                StopPhase::Warning,
                StopActionModel::Log {
                    level: RlEarlyStoppingLogLevel::Warning,
                    message: unavailable_message(config.monitor@, names_of(metrics)),
                },
                state,
            ),
        },
    }
}

/// The stage that fails where a plugin does.
pub open spec fn stage_name<T>(phase: StopPhase<T>) -> Seq<char> {
    match phase {
        StopPhase::FirstSave { .. } => "save"@,
        StopPhase::Save { .. } => "save"@,
        StopPhase::FirstSnapshot { .. } => "snapshot"@,
        StopPhase::Snapshot { .. } => "snapshot"@,
        StopPhase::Load => "load"@,
        _ => "log"@,
    }
}

/// The patience is over: the trainer stops, but never in its first iteration.
pub open spec fn patience_checked<S, T, M>(
    config: RlEarlyStoppingConfig<T>,
    state: StopModel<S, T>,
    trainer: TrainerModel<M>,
) -> StopDecision<S, T> {
    if state.wait->Present_0 >= config.patience@ {
        match trainer.current_iter {
            None => untrained("current_iter"@, state),
            Some(iteration) => if iteration > 0 {
                StopDecision { stops: true, ..told(StopPhase::StopLog, stop_message(iteration + 1), state) }
            } else {
                over(StopActionModel::Finished, state)
            },
        }
    } else {
        over(StopActionModel::Finished, state)
    }
}

/// What follows an answer.
pub open spec fn answered<S, T: MonitoredNumber>(
    phase: StopPhase<T>,
    reply: StopReply<S>,
    config: RlEarlyStoppingConfig<T>,
    minimize: bool,
    state: StopModel<S, T>,
    trainer: TrainerModel<Option<T>>,
) -> StopDecision<S, T> {
    match reply {
        StopReply::Failed(message) => over(
            StopActionModel::Plugin { stage: stage_name(phase), message: message@ },
            state,
        ),
        StopReply::Snapshot(weights) => {
            let held = StopModel { best_weights: RlCheckpointField::Present(weights), ..state };
            match phase {
                StopPhase::FirstSnapshot { current } => judged(config, minimize, held, trainer, current),
                StopPhase::Snapshot { current } => improvement_taken(config, minimize, held, trainer, current),
                _ => over(StopActionModel::Finished, state),
            }
        },
        StopReply::Done => match phase {
            StopPhase::FirstSave { current } => asked(
                StopPhase::FirstSnapshot { current },
                StopActionModel::TakeSnapshot,
                state,
            ),
            StopPhase::Save { current } => asked(StopPhase::Snapshot { current }, StopActionModel::TakeSnapshot, state),
            StopPhase::Progress => patience_checked(config, state, trainer),
            StopPhase::StopLog => if config.restore_best_weights && state.best_weights is Present
                && state.best_weights->Present_0 is Some {
                told(StopPhase::RestoreLog, restore_message(state.best_iter->Present_0 + 1), state)
            } else {
                over(StopActionModel::Finished, state)
            },
            StopPhase::RestoreLog => asked(StopPhase::Load, StopActionModel::LoadVessel, state),
            _ => over(StopActionModel::Finished, state),
        },
    }
}

/// What is known of the metric that is watched.
#[derive(Debug)]
pub enum MonitoredValue<T> {
    Known(T),
    /// The metric has no value; the warning names those that there are.
    Unavailable { warning: String },
}

/// Early stopping.
pub struct RlEarlyStopping<S, T> {
    /// The threshold is signed by the mode when the callback is made.
    pub config: RlEarlyStoppingConfig<T>,
    pub state: RlEarlyStoppingState<S, T>,
    pub phase: StopPhase<T>,
    pub minimize: bool,
}

/// What early stopping knows at the start of a fit.
pub open spec fn fit_started<S, T: MonitoredNumber>(minimize: bool) -> StopModel<S, T> {
    StopModel {
        wait: RlCheckpointField::Present(0int),
        best: RlCheckpointField::Present(
            if minimize {
                T::highest_spec()
            } else {
                T::lowest_spec()
            },
        ),
        best_weights: RlCheckpointField::Present(None),
        best_iter: RlCheckpointField::Present(0int),
    }
}

/// The threshold with the sign of the mode.
pub open spec fn signed_threshold<T: MonitoredNumber>(min_delta: T, minimize: bool) -> T {
    min_delta.absolute_spec().times_spec(
        if minimize {
            T::zero_spec().minus_spec(T::one_spec())
        } else {
            T::one_spec()
        },
    )
}

/// The first field that is missing.
pub open spec fn missing_field<S, T>(state: StopModel<S, T>) -> Option<Seq<char>> {
    if state.wait is Missing {
        Some("wait"@)
    } else if state.best is Missing {
        Some("best"@)
    } else if state.best_weights is Missing {
        Some("best_weights"@)
    } else if state.best_iter is Missing {
        Some("best_iter"@)
    } else {
        None
    }
}

/// A state after another was assigned to it field by field, up to the first missing field.
pub open spec fn assigned<S, T>(state: StopModel<S, T>, other: StopModel<S, T>) -> StopModel<S, T> {
    let waiting = StopModel { wait: other.wait, ..state };
    let best = StopModel { best: other.best, ..waiting };
    let weights = StopModel { best_weights: other.best_weights, ..best };
    if other.wait is Missing {
        state
    } else if other.best is Missing {
        waiting
    } else if other.best_weights is Missing {
        best
    } else if other.best_iter is Missing {
        weights
    } else {
        other
    }
}

/// Whether an error says that a field is missing.
pub open spec fn is_missing_field(error: RlEarlyStoppingError, field: Seq<char>) -> bool {
    error matches RlEarlyStoppingError::Checkpoint(RlTrainerCheckpointError::MissingField(name)) && name@ == field
}

/// What one decision made of early stopping and of the trainer.
pub open spec fn decided<S, T: MonitoredNumber>(
    before: RlEarlyStopping<S, T>,
    after: RlEarlyStopping<S, T>,
    action: StopAction,
    decision: StopDecision<S, T>,
) -> bool {
    &&& after.config == before.config
    &&& after.minimize == before.minimize
    &&& after.phase == decision.phase
    &&& after.state@ == decision.state
    &&& action@ == decision.action
}

/// The state of the trainer after a decision.
pub open spec fn stopped_if<M>(stops: bool, trainer: TrainerModel<M>) -> TrainerModel<M> {
    if stops {
        TrainerModel { should_stop: Some(true), ..trainer }
    } else {
        trainer
    }
}

fn append_text(target: &mut Vec<char>, text: &str)
    ensures
        final(target)@ == old(target)@ + text@,
{
    append_chars(target, to_chars(text).as_slice());
}

fn join_names<M>(metrics: &OrderedMap<M>) -> (result: Vec<char>)
    ensures
        result@ == comma_list(names_of(metrics@)),
{
    let length: usize = metrics.len();
    let mut text: Vec<char> = Vec::new();
    let ghost names = names_of(metrics@);
    let mut i: usize = 0;
    assert(names.take(0) =~= Seq::<Seq<char>>::empty());
    while i < length
        invariant
            i <= length,
            length == metrics@.len(),
            names == names_of(metrics@),
            text@ == comma_list(names.take(i as int)),
        decreases length - i,
    {
        proof {
            assert(names.take(i + 1).drop_last() =~= names.take(i as int));
            assert(names.take(i + 1).last() == metrics@[i as int].0);
            assert(Seq::<char>::empty() + metrics@[i as int].0 =~= metrics@[i as int].0);
        }
        if i > 0 {
            append_text(&mut text, ",");
        }
        append_text(&mut text, metrics.name_at(i).as_str());
        i += 1;
    }
    assert(names.take(i as int) =~= names);
    text
}

impl<S, T: MonitoredNumber> RlEarlyStopping<S, T> {
    /// The phases keep what they need: the progress is logged only once the fields are present.
    pub open spec fn wf(&self) -> bool {
        &&& self.phase is Progress ==> self.state.wait is Present
        &&& self.phase is StopLog ==> self.state.best_iter is Present
        &&& self.phase is Progress ==> self.state.best_iter is Present
        &&& self.phase is Snapshot ==> self.state.wait is Present && self.state.best is Present
        &&& self.phase is Save ==> self.state.wait is Present && self.state.best is Present
    }

    /// Modes are `min` and `max`.
    pub fn new(config: RlEarlyStoppingConfig<T>) -> (result: Result<Self, RlEarlyStoppingError>)
        ensures
            if config.mode@ == "min"@ || config.mode@ == "max"@ {
                result matches Ok(stopping) && stopping.wf() && stopping.minimize == (config.mode@ == "min"@)
                    && stopping.config == (RlEarlyStoppingConfig {
                    min_delta: signed_threshold(config.min_delta, config.mode@ == "min"@),
                    ..config
                }) && stopping.phase is Idle && stopping.state@ == (StopModel::<S, T> {
                    wait: RlCheckpointField::Missing,
                    best: RlCheckpointField::Missing,
                    best_weights: RlCheckpointField::Present(None),
                    best_iter: RlCheckpointField::Missing,
                })
            } else {
                result == Err::<Self, _>(RlEarlyStoppingError::UnsupportedMode(config.mode))
            },
    {
        proof {
            reveal_strlit("min");
            reveal_strlit("max");
            assert("min"@[1] != "max"@[1]);
        }
        let minimize = if same_text(config.mode.as_str(), "min") {
            true
        } else if same_text(config.mode.as_str(), "max") {
            false
        } else {
            return Err(RlEarlyStoppingError::UnsupportedMode(config.mode));
        };
        let sign = if minimize {
            T::zero().minus(T::one())
        } else {
            T::one()
        };
        let min_delta = config.min_delta.absolute().times(sign);
        let RlEarlyStoppingConfig { monitor, min_delta: _, patience, mode, baseline, restore_best_weights } = config;
        Ok(
            RlEarlyStopping {
                config: RlEarlyStoppingConfig { monitor, min_delta, patience, mode, baseline, restore_best_weights },
                state: RlEarlyStoppingState {
                    wait: RlCheckpointField::Missing,
                    best: RlCheckpointField::Missing,
                    best_weights: RlCheckpointField::Present(None),
                    best_iter: RlCheckpointField::Missing,
                },
                phase: StopPhase::Idle,
                minimize,
            },
        )
    }

    /// Starts over.
    pub fn on_fit_start(&mut self)
        ensures
            final(self).config == old(self).config,
            final(self).minimize == old(self).minimize,
            final(self).phase is Idle,
            final(self).state@ == fit_started::<S, T>(old(self).minimize),
            final(self).wf(),
    {
        self.phase = StopPhase::Idle;
        self.state = RlEarlyStoppingState {
            wait: RlCheckpointField::Present(Integer::zero()),
            best: RlCheckpointField::Present(
                if self.minimize {
                    T::highest()
                } else {
                    T::lowest()
                },
            ),
            best_weights: RlCheckpointField::Present(None),
            best_iter: RlCheckpointField::Present(Integer::zero()),
        };
    }

    /// Whether a value improves on a reference by more than the threshold.
    pub fn is_improvement(&self, value: T, reference: T) -> (result: bool)
        ensures
            result == improves(self.minimize, self.config.min_delta, value, reference),
    {
        let adjusted = value.minus(self.config.min_delta);
        if self.minimize {
            adjusted.below(reference)
        } else {
            reference.below(adjusted)
        }
    }

    /// The state for a checkpoint: every field must be present.
    pub fn state_dict(&self) -> (result: Result<RlEarlyStoppingState<S, T>, RlEarlyStoppingError>) where S: Copy
        ensures
            match missing_field(self.state@) {
                Some(field) => result is Err && is_missing_field(result->Err_0, field),
                None => result is Ok && result->Ok_0@ == self.state@,
            },
    {
        let wait = match self.state.wait.require("wait") {
            Ok(number) => number.copied(),
            Err(error) => return Err(RlEarlyStoppingError::Checkpoint(error)),
        };
        let best = match self.state.best.require("best") {
            Ok(value) => *value,
            Err(error) => return Err(RlEarlyStoppingError::Checkpoint(error)),
        };
        let best_weights = match self.state.best_weights.require("best_weights") {
            Ok(weights) => *weights,
            Err(error) => return Err(RlEarlyStoppingError::Checkpoint(error)),
        };
        let best_iter = match self.state.best_iter.require("best_iter") {
            Ok(number) => number.copied(),
            Err(error) => return Err(RlEarlyStoppingError::Checkpoint(error)),
        };
        Ok(
            RlEarlyStoppingState {
                wait: RlCheckpointField::Present(wait),
                best: RlCheckpointField::Present(best),
                best_weights: RlCheckpointField::Present(best_weights),
                best_iter: RlCheckpointField::Present(best_iter),
            },
        )
    }

    /// Assigns a state field by field. What is missing stops the assignment and keeps what was
    /// assigned before. A decision under way is given up.
    pub fn load_state_dict(&mut self, state: &RlEarlyStoppingState<S, T>) -> (result: Result<(), RlEarlyStoppingError>) where
        S: Copy,

        ensures
            final(self).config == old(self).config,
            final(self).minimize == old(self).minimize,
            final(self).phase is Idle,
            final(self).wf(),
            final(self).state@ == assigned(old(self).state@, state@),
            match missing_field(state@) {
                Some(field) => result is Err && is_missing_field(result->Err_0, field),
                None => result is Ok,
            },
    {
        self.phase = StopPhase::Idle;
        match state.wait.require("wait") {
            Ok(number) => {
                self.state.wait = RlCheckpointField::Present(number.copied());
            },
            Err(error) => return Err(RlEarlyStoppingError::Checkpoint(error)),
        }
        match state.best.require("best") {
            Ok(value) => {
                self.state.best = RlCheckpointField::Present(*value);
            },
            Err(error) => return Err(RlEarlyStoppingError::Checkpoint(error)),
        }
        match state.best_weights.require("best_weights") {
            Ok(weights) => {
                self.state.best_weights = RlCheckpointField::Present(*weights);
            },
            Err(error) => return Err(RlEarlyStoppingError::Checkpoint(error)),
        }
        match state.best_iter.require("best_iter") {
            Ok(number) => {
                self.state.best_iter = RlCheckpointField::Present(number.copied());
            },
            Err(error) => return Err(RlEarlyStoppingError::Checkpoint(error)),
        }
        Ok(())
    }

    /// Whether an answer fits what early stopping waits for.
    pub fn expects(&self, reply: &StopReply<S>) -> (result: bool)
        ensures
            result == fits(self.phase, *reply),
    {
        let (idle, snapshot) = match &self.phase {
            StopPhase::Idle => (true, false),
            StopPhase::FirstSnapshot { .. } => (false, true),
            StopPhase::Snapshot { .. } => (false, true),
            _ => (false, false),
        };
        match reply {
            StopReply::Failed(_) => !idle,
            StopReply::Snapshot(_) => snapshot,
            StopReply::Done => !idle && !snapshot,
        }
    }

    fn missing(field: &str) -> (result: StopAction)
        ensures
            result@ == StopActionModel::MissingField(field@),
    {
        StopAction::Failed(
            RlEarlyStoppingError::Checkpoint(RlTrainerCheckpointError::MissingField(field.to_owned())),
        )
    }

    fn tell_progress<M>(&mut self, trainer: &RlTrainerState<M>, current: T) -> (result: StopAction)
        requires
            old(self).phase is Idle,
            old(self).state.wait is Present,
            old(self).state.best is Present,
        ensures
            final(self).wf(),
            decided(*old(self), *final(self), result, progress_told(old(self).state@, trainer@, current)),
    {
        let iteration = match &trainer.current_iter {
            None => return StopAction::Failed(RlEarlyStoppingError::MissingTrainerField("current_iter")),
            Some(iteration) => iteration,
        };
        let best_iter = match &self.state.best_iter {
            RlCheckpointField::Missing => return Self::missing("best_iter"),
            RlCheckpointField::Present(number) => number,
        };
        let best = match &self.state.best {
            RlCheckpointField::Missing => return Self::missing("best"),
            RlCheckpointField::Present(value) => *value,
        };
        let mut text = to_chars("#");
        append_text(&mut text, iteration.text().as_str());
        append_text(&mut text, " current reward: ");
        append_text(&mut text, current.show().as_str());
        append_text(&mut text, ", best reward: ");
        append_text(&mut text, best.show().as_str());
        append_text(&mut text, " in #");
        append_text(&mut text, best_iter.text().as_str());
        self.phase = StopPhase::Progress;
        StopAction::Log { level: RlEarlyStoppingLogLevel::Info, message: from_chars(text.as_slice()) }
    }

    fn take_improvement<M>(&mut self, trainer: &RlTrainerState<M>, current: T) -> (result: StopAction)
        requires
            old(self).phase is Idle,
            old(self).state.wait is Present,
            old(self).state.best is Present,
        ensures
            final(self).wf(),
            decided(
                *old(self),
                *final(self),
                result,
                improvement_taken(old(self).config, old(self).minimize, old(self).state@, trainer@, current),
            ),
    {
        let ends = match self.config.baseline {
            None => true,
            Some(baseline) => self.is_improvement(current, baseline),
        };
        if ends {
            self.state.wait = RlCheckpointField::Present(Integer::zero());
        }
        self.tell_progress(trainer, current)
    }

    fn judge<M>(&mut self, trainer: &RlTrainerState<M>, current: T) -> (result: StopAction)
        requires
            old(self).phase is Idle,
        ensures
            final(self).wf(),
            decided(
                *old(self),
                *final(self),
                result,
                judged(old(self).config, old(self).minimize, old(self).state@, trainer@, current),
            ),
    {
        let next = match &self.state.wait {
            RlCheckpointField::Missing => return Self::missing("wait"),
            RlCheckpointField::Present(wait) => wait.next(),
        };
        self.state.wait = RlCheckpointField::Present(next);
        let best = match &self.state.best {
            RlCheckpointField::Missing => return Self::missing("best"),
            RlCheckpointField::Present(value) => *value,
        };
        if !self.is_improvement(current, best) {
            return self.tell_progress(trainer, current);
        }
        self.state.best = RlCheckpointField::Present(current);
        let iteration = match &trainer.current_iter {
            None => return StopAction::Failed(RlEarlyStoppingError::MissingTrainerField("current_iter")),
            Some(iteration) => iteration.copied(),
        };
        self.state.best_iter = RlCheckpointField::Present(iteration);
        if self.config.restore_best_weights {
            self.phase = StopPhase::Save { current };
            StopAction::SaveVessel
        } else {
            self.take_improvement(trainer, current)
        }
    }

    /// The value of the metric that is watched; without metrics, the field that is missing.
    pub fn get_monitor_value(&self, trainer: &RlTrainerState<Option<T>>) -> (result: Result<
        MonitoredValue<T>,
        &'static str,
    >)
        ensures
            match trainer@.metrics {
                None => result matches Err(field) && field@ == "metrics"@,
                Some(metrics) => match value_of(metrics, self.config.monitor@) {
                    Some(Some(current)) => result == Ok::<_, &'static str>(MonitoredValue::Known(current)),
                    _ => result matches Ok(MonitoredValue::Unavailable { warning }) && warning@ == unavailable_message(
                        self.config.monitor@,
                        names_of(metrics),
                    ),
                },
            },
    {
        let metrics = match &trainer.metrics {
            None => return Err("metrics"),
            Some(metrics) => metrics,
        };
        let value: Option<T> = match metrics.get(self.config.monitor.as_str()) {
            Some(value) => *value,
            None => None,
        };
        match value {
            Some(current) => Ok(MonitoredValue::Known(current)),
            None => {
                let mut text = to_chars("Early stopping conditioned on metric `");
                append_text(&mut text, self.config.monitor.as_str());
                append_text(&mut text, "` which is not available. Available metrics are: ");
                append_chars(&mut text, join_names(metrics).as_slice());
                Ok(MonitoredValue::Unavailable { warning: from_chars(text.as_slice()) })
            },
        }
    }

    /// Begins with the end of a validation. A decision under way is given up.
    pub fn on_validate_end(&mut self, trainer: &RlTrainerState<Option<T>>) -> (result: StopAction)
        ensures
            final(self).wf(),
            decided(
                *old(self),
                *final(self),
                result,
                validated(old(self).config, old(self).minimize, old(self).state@, trainer@),
            ),
    {
        self.phase = StopPhase::Idle;
        let current = match self.get_monitor_value(trainer) {
            Err(field) => return StopAction::Failed(RlEarlyStoppingError::MissingTrainerField(field)),
            Ok(MonitoredValue::Known(current)) => current,
            Ok(MonitoredValue::Unavailable { warning }) => {
                self.phase = StopPhase::Warning;
                return StopAction::Log { level: RlEarlyStoppingLogLevel::Warning, message: warning };
            },
        };
        if self.config.restore_best_weights {
            match &self.state.best_weights {
                RlCheckpointField::Missing => return Self::missing("best_weights"),
                RlCheckpointField::Present(None) => {
                    self.phase = StopPhase::FirstSave { current };
                    return StopAction::SaveVessel;
                },
                RlCheckpointField::Present(Some(_)) => {},
            }
        }
        self.judge(trainer, current)
    }

    /// What a hook brings.
    pub fn on_hook(&mut self, hook: RlTrainerHook, trainer: &RlTrainerState<Option<T>>) -> (result: StopAction)
        requires
            old(self).wf(),
        ensures
            final(self).wf(),
            match hook {
                RlTrainerHook::FitStart => decided(
                    *old(self),
                    *final(self),
                    result,
                    over(StopActionModel::Finished, fit_started(old(self).minimize)),
                ),
                RlTrainerHook::ValidateEnd => decided(
                    *old(self),
                    *final(self),
                    result,
                    validated(old(self).config, old(self).minimize, old(self).state@, trainer@),
                ),
                _ => *final(self) == *old(self) && result@ == StopActionModel::Finished,
            },
    {
        match hook {
            RlTrainerHook::FitStart => {
                self.on_fit_start();
                StopAction::Finished
            },
            RlTrainerHook::ValidateEnd => self.on_validate_end(trainer),
            _ => StopAction::Finished,
        }
    }

    fn stage(phase: &StopPhase<T>) -> (result: &'static str)
        ensures
            result@ == stage_name(*phase),
    {
        match phase {
            StopPhase::FirstSave { .. } => "save",
            StopPhase::Save { .. } => "save",
            StopPhase::FirstSnapshot { .. } => "snapshot",
            StopPhase::Snapshot { .. } => "snapshot",
            StopPhase::Load => "load",
            _ => "log",
        }
    }

    /// Ends the waiting once the patience is over.
    fn check_patience<M>(&mut self, trainer: &mut RlTrainerState<M>) -> (result: StopAction)
        requires
            old(self).phase is Idle,
            old(self).state.wait is Present,
            old(self).state.best_iter is Present,
        ensures
            final(self).wf(),
            decided(
                *old(self),
                *final(self),
                result,
                patience_checked(old(self).config, old(self).state@, old(trainer)@),
            ),
            final(trainer)@ == stopped_if(
                patience_checked(old(self).config, old(self).state@, old(trainer)@).stops,
                old(trainer)@,
            ),
    {
        let over = match &self.state.wait {
            RlCheckpointField::Present(wait) => !wait.less(&self.config.patience),
            RlCheckpointField::Missing => false,
        };
        if !over {
            return StopAction::Finished;
        }
        let next = match &trainer.current_iter {
            None => return StopAction::Failed(RlEarlyStoppingError::MissingTrainerField("current_iter")),
            Some(iteration) => {
                if !iteration.is_positive() {
                    return StopAction::Finished;
                }
                iteration.next()
            },
        };
        trainer.should_stop = Some(true);
        let mut text = to_chars("On iteration ");
        append_text(&mut text, next.text().as_str());
        append_text(&mut text, ": early stopping");
        self.phase = StopPhase::StopLog;
        StopAction::Log { level: RlEarlyStoppingLogLevel::Info, message: from_chars(text.as_slice()) }
    }

    /// Goes on to the restore of the best weights, if there are any.
    fn begin_restore(&mut self) -> (result: StopAction)
        requires
            old(self).phase is Idle,
            old(self).state.best_iter is Present,
        ensures
            final(self).wf(),
            final(self).config == old(self).config,
            final(self).minimize == old(self).minimize,
            final(self).state == old(self).state,
            ({
                let decision = if old(self).config.restore_best_weights && old(self).state.best_weights is Present
                    && old(self).state.best_weights->Present_0 is Some {
                    told(
                        StopPhase::RestoreLog,
                        restore_message(old(self).state@.best_iter->Present_0 + 1),
                        old(self).state@,
                    )
                } else {
                    over(StopActionModel::Finished, old(self).state@)
                };
                final(self).phase == decision.phase && result@ == decision.action
            }),
    {
        if !self.config.restore_best_weights {
            return StopAction::Finished;
        }
        match &self.state.best_weights {
            RlCheckpointField::Present(Some(_)) => {},
            _ => return StopAction::Finished,
        }
        let number = match &self.state.best_iter {
            RlCheckpointField::Present(best_iter) => best_iter.next(),
            RlCheckpointField::Missing => return StopAction::Finished,
        };
        let mut text = to_chars("Restoring model weights from the end of the best iteration: ");
        append_text(&mut text, number.text().as_str());
        self.phase = StopPhase::RestoreLog;
        StopAction::Log { level: RlEarlyStoppingLogLevel::Info, message: from_chars(text.as_slice()) }
    }

    /// Takes an answer and says what is done next.
    pub fn answer(&mut self, reply: StopReply<S>, trainer: &mut RlTrainerState<Option<T>>) -> (result: StopAction)
        requires
            old(self).wf(),
            fits(old(self).phase, reply),
        ensures
            final(self).wf(),
            ({
                let decision = answered(
                    old(self).phase,
                    reply,
                    old(self).config,
                    old(self).minimize,
                    old(self).state@,
                    old(trainer)@,
                );
                &&& decided(*old(self), *final(self), result, decision)
                &&& final(trainer)@ == stopped_if(decision.stops, old(trainer)@)
            }),
    {
        let mut phase = StopPhase::Idle;
        core::mem::swap(&mut self.phase, &mut phase);
        match reply {
            StopReply::Failed(message) => StopAction::Failed(
                RlEarlyStoppingError::Plugin { stage: Self::stage(&phase), message },
            ),
            StopReply::Snapshot(weights) => {
                self.state.best_weights = RlCheckpointField::Present(weights);
                match phase {
                    StopPhase::FirstSnapshot { current } => self.judge(trainer, current),
                    StopPhase::Snapshot { current } => self.take_improvement(trainer, current),
                    _ => StopAction::Finished,
                }
            },
            StopReply::Done => match phase {
                StopPhase::FirstSave { current } => {
                    self.phase = StopPhase::FirstSnapshot { current };
                    StopAction::TakeSnapshot
                },
                StopPhase::Save { current } => {
                    self.phase = StopPhase::Snapshot { current };
                    StopAction::TakeSnapshot
                },
                StopPhase::Progress => self.check_patience(trainer),
                StopPhase::StopLog => self.begin_restore(),
                StopPhase::RestoreLog => {
                    self.phase = StopPhase::Load;
                    StopAction::LoadVessel
                },
                _ => StopAction::Finished,
            },
        }
    }
}

// ---- laws -------------------------------------------------------------------------------------

/// A state that was saved whole is restored whole.
pub proof fn saved_states_are_restored<S, T>(saved: StopModel<S, T>, state: StopModel<S, T>)
    requires
        missing_field(saved) is None,
    ensures
        assigned(state, saved) == saved,
{
}

/// Without an improvement the wait grows by one and the best value stays.
pub proof fn waiting_grows<S, T: MonitoredNumber, M>(
    config: RlEarlyStoppingConfig<T>,
    minimize: bool,
    state: StopModel<S, T>,
    trainer: TrainerModel<M>,
    current: T,
)
    requires
        missing_field(state) is None,
        !improves(minimize, config.min_delta, current, state.best->Present_0),
    ensures
        ({
            let after = judged(config, minimize, state, trainer, current).state;
            &&& after.wait == RlCheckpointField::Present(state.wait->Present_0 + 1)
            &&& after.best == state.best
            &&& after.best_iter == state.best_iter
            &&& after.best_weights == state.best_weights
        }),
{
}

/// A trainer is stopped only once the wait has reached the patience, and never in its first
/// iteration.
pub proof fn only_lost_patience_stops<S, T: MonitoredNumber>(
    phase: StopPhase<T>,
    reply: StopReply<S>,
    config: RlEarlyStoppingConfig<T>,
    minimize: bool,
    state: StopModel<S, T>,
    trainer: TrainerModel<Option<T>>,
)
    requires
        answered(phase, reply, config, minimize, state, trainer).stops,
    ensures
        phase is Progress,
        state.wait->Present_0 >= config.patience@,
        trainer.current_iter is Some && trainer.current_iter->Some_0 > 0,
{
}

/// The threshold never makes an improvement easier: a value has to be better than the reference by more
/// than the size of the threshold, above it where a maximum is looked for and below it for a minimum.
pub proof fn improvements_exceed_the_threshold<S>(
    config: RlEarlyStoppingConfig<Ticks>,
    made: Result<RlEarlyStopping<S, Ticks>, RlEarlyStoppingError>,
    delta: i64,
    value: i64,
    reference: i64,
    result: bool,
)
    requires
        call_ensures(RlEarlyStopping::<S, Ticks>::new, (config,), made),
        made is Ok,
        call_ensures(
            RlEarlyStopping::<S, Ticks>::is_improvement,
            (&made->Ok_0, Ticks(Some(value)), Ticks(Some(reference))),
            result,
        ),
        config.min_delta == Ticks(Some(delta)),
        delta > i64::MIN,
        i64::MIN <= value - delta <= i64::MAX,
        i64::MIN <= value + delta <= i64::MAX,
    ensures
        config.mode@ == "max"@ || config.mode@ == "min"@,
        config.mode@ == "max"@ ==> (result <==> value - reference > if delta < 0 {
            -delta
        } else {
            delta as int
        }),
        config.mode@ == "min"@ ==> (result <==> reference - value > if delta < 0 {
            -delta
        } else {
            delta as int
        }),
{
    reveal_strlit("max");
    reveal_strlit("min");
    assert("max"@[1] == 'a' && "min"@[1] == 'i');
    let size: int = if delta < 0 {
        -delta
    } else {
        delta as int
    };
    assert(size * 1 == size && size * -1 == -size);
}

/// At the start of a fit nothing is as bad as what was best so far, and nothing was waited for.
pub proof fn fits_start_with_the_worst<S>(stopping: &mut RlEarlyStopping<S, Ticks>, value: i64)
    requires
        call_ensures(RlEarlyStopping::<S, Ticks>::on_fit_start, (stopping,), ()),
    ensures
        final(stopping).state@.wait == RlCheckpointField::Present(0int),
        final(stopping).state@.best_iter == RlCheckpointField::Present(0int),
        final(stopping).state@.best_weights == RlCheckpointField::Present(None::<S>),
        final(stopping).state@.best matches RlCheckpointField::Present(best) && best.0 is Some && if old(stopping).minimize {
            best.0->Some_0 >= value
        } else {
            best.0->Some_0 <= value
        },
{
}

/// What comes of a validation whose metric is there and whose weights are not kept. A value that
/// improves on the best becomes it, at the iteration of the trainer, and ends the waiting, unless there
/// is a baseline that it does not improve on; every other value is waited through.
pub proof fn validations_keep_the_best<S>(
    stopping: &mut RlEarlyStopping<S, Ticks>,
    trainer: RlTrainerState<Option<Ticks>>,
    result: StopAction,
    current: Ticks,
    wait: int,
    best: Ticks,
    improved: bool,
    over_baseline: bool,
)
    requires
        call_ensures(RlEarlyStopping::<S, Ticks>::on_validate_end, (stopping, &trainer), result),
        !old(stopping).config.restore_best_weights,
        trainer@.metrics is Some,
        value_of(trainer@.metrics->Some_0, old(stopping).config.monitor@) == Some(Some(current)),
        trainer@.current_iter is Some,
        old(stopping).state@.wait == RlCheckpointField::Present(wait),
        old(stopping).state@.best == RlCheckpointField::Present(best),
        call_ensures(RlEarlyStopping::<S, Ticks>::is_improvement, (&*old(stopping), current, best), improved),
        old(stopping).config.baseline is Some ==> call_ensures(
            RlEarlyStopping::<S, Ticks>::is_improvement,
            (&*old(stopping), current, old(stopping).config.baseline->Some_0),
            over_baseline,
        ),
    ensures
        ({
            let (before, after) = (old(stopping).state@, final(stopping).state@);
            &&& after.best_weights == before.best_weights
            &&& improved ==> after.best == RlCheckpointField::Present(current) && after.best_iter
                == RlCheckpointField::Present(trainer@.current_iter->Some_0)
            &&& !improved ==> after.best == before.best && after.best_iter == before.best_iter
            &&& after.wait == RlCheckpointField::Present(
                if improved && (old(stopping).config.baseline is None || over_baseline) {
                    0
                } else {
                    wait + 1
                },
            )
        }),
        final(stopping).config == old(stopping).config,
{
}

/// A trainer whose patience is lost is stopped, unless in its first iteration; one that has patience
/// left goes on.
pub proof fn lost_patience_stops<S>(
    stopping: &mut RlEarlyStopping<S, Ticks>,
    trainer: &mut RlTrainerState<Option<Ticks>>,
    result: StopAction,
    wait: int,
    iteration: int,
)
    requires
        call_ensures(RlEarlyStopping::<S, Ticks>::answer, (stopping, StopReply::Done, trainer), result),
        old(stopping).wf(),
        old(stopping).phase is Progress,
        old(stopping).state@.wait == RlCheckpointField::Present(wait),
        old(trainer)@.current_iter == Some(iteration),
    ensures
        wait >= old(stopping).config.patience@ && iteration > 0 ==> final(trainer)@.should_stop == Some(true),
        wait < old(stopping).config.patience@ || iteration <= 0 ==> final(trainer)@ == old(trainer)@ && result@
            == StopActionModel::Finished,
        final(trainer)@.current_iter == old(trainer)@.current_iter && final(trainer)@.metrics == old(trainer)@.metrics,
        final(stopping).state@ == old(stopping).state@,
{
}

} // verus!
