//! When a trainer's checkpoint is saved, and the order in which clock, naming, graph and storage
//! plugins are called for it.
//!
//! The callback decides; whoever owns the plugins does what an action says and answers. A failure
//! keeps what was assigned before it.
use crate::integer::{truncated_remainder, Integer};
use crate::number::{Number, Ticks};
use crate::ordered::has_name;
use crate::rl_checkpoint_name::points_of;
use crate::rl_checkpoint_text::RlCheckpointText;
use crate::rl_trainer_driver::RlTrainerHook;
use crate::rl_trainer_state::{number_of, RlTrainerState, RlTrainerStateError, TrainerModel};
use crate::text::{same_text, sentence};
use vstd::prelude::*;

verus! {

/// Seconds of a wall clock.
pub trait WallSeconds: Number {
    /// The greatest integer that is not greater, where the value is finite.
    open spec fn whole_spec(self) -> Option<int> {
        arbitrary()
    }

    /// Whether the value lies above every other.
    open spec fn endless(self) -> bool {
        arbitrary()
    }

    fn whole(self) -> (result: Option<Integer>)
        ensures
            number_of(result) == self.whole_spec(),
    ;

    fn is_endless(self) -> (result: bool)
        ensures
            result == self.endless(),
    ;
}

impl WallSeconds for Ticks {
    open spec fn whole_spec(self) -> Option<int> {
        match self.0 {
            Some(value) => Some(value as int),
            None => None,
        }
    }

    open spec fn endless(self) -> bool {
        false
    }

    fn whole(self) -> (result: Option<Integer>) {
        match self.0 {
            Some(value) => Some(Integer::from_i64(value)),
            None => None,
        }
    }

    fn is_endless(self) -> (result: bool) {
        false
    }
}

/// An interval of time. An integer is compared without rounding.
pub enum RlCheckpointTimeInterval<T> {
    Integer(Integer),
    Float(T),
}

/// Whether an interval is over after some seconds.
pub open spec fn interval_over<T: WallSeconds>(interval: RlCheckpointTimeInterval<T>, seconds: T) -> bool {
    match interval {
        RlCheckpointTimeInterval::Float(length) => length.below_spec(seconds) || length.equals_spec(seconds),
        RlCheckpointTimeInterval::Integer(length) => match seconds.whole_spec() {
            Some(whole) => whole >= length@,
            None => seconds.endless(),
        },
    }
}

impl<T: WallSeconds> RlCheckpointTimeInterval<T> {
    /// Whether the interval is over after some seconds.
    pub fn elapsed(&self, seconds: T) -> (result: bool)
        ensures
            result == interval_over(*self, seconds),
    {
        match self {
            RlCheckpointTimeInterval::Float(length) => length.below(seconds) || length.equals(seconds),
            RlCheckpointTimeInterval::Integer(length) => match seconds.whole() {
                Some(whole) => !whole.less(length),
                None => seconds.is_endless(),
            },
        }
    }
}

/// A text that file names are written in.
pub trait NameText: Sized {
    /// Whether the text says the same as some characters.
    open spec fn says(&self, text: Seq<char>) -> bool {
        arbitrary()
    }

    fn is_text(&self, text: &str) -> (result: bool)
        ensures
            result == self.says(text@),
    ;

    fn of_text(text: &str) -> (result: Self)
        ensures
            result.says(text@),
    ;
}

impl NameText for String {
    open spec fn says(&self, text: Seq<char>) -> bool {
        self@ == text
    }

    fn is_text(&self, text: &str) -> (result: bool) {
        same_text(self.as_str(), text)
    }

    fn of_text(text: &str) -> (result: Self) {
        text.to_owned()
    }
}

impl NameText for RlCheckpointText {
    open spec fn says(&self, text: Seq<char>) -> bool {
        self@ == points_of(text)
    }

    fn is_text(&self, text: &str) -> (result: bool) {
        self.equals(&RlCheckpointText::from_utf8(text))
    }

    fn of_text(text: &str) -> (result: Self) {
        RlCheckpointText::from_utf8(text)
    }
}

/// When and how checkpoints are saved.
pub struct CheckpointConfig<X, T> {
    pub dirpath: String,
    pub filename: X,
    /// None and the empty text leave the latest checkpoint alone. A text that is neither `link`
    /// nor `copy` removes it and puts nothing in its place.
    pub save_latest: Option<X>,
    pub every_n_iters: Option<Integer>,
    pub time_interval: Option<RlCheckpointTimeInterval<T>>,
    pub save_on_fit_end: bool,
}

/// The configuration of checkpoints with plain names.
pub type RlCheckpointConfig<T> = CheckpointConfig<String, T>;

/// The configuration of checkpoints with names over code points.
pub type RlLosslessCheckpointConfig<T> = CheckpointConfig<RlCheckpointText, T>;

impl<X: NameText, T> CheckpointConfig<X, T> {
    pub fn new(dirpath: String) -> (result: Self)
        ensures
            result.dirpath@ == dirpath@,
            result.filename.says("{iter:03d}.pth"@),
            result.save_latest is Some && result.save_latest->Some_0.says("link"@),
            result.every_n_iters is None,
            result.time_interval is None,
            result.save_on_fit_end,
    {
        CheckpointConfig {
            dirpath,
            filename: X::of_text("{iter:03d}.pth"),
            save_latest: Some(X::of_text("link")),
            every_n_iters: None,
            time_interval: None,
            save_on_fit_end: true,
        }
    }
}

/// What a callback knows of its last save.
pub struct CheckpointState<X, T> {
    pub last_name: Option<X>,
    pub last_iter: Option<Integer>,
    pub last_time: Option<T>,
}

/// What a callback with plain names knows of its last save.
pub type RlCheckpointCallbackState<T> = CheckpointState<String, T>;

/// What a callback with names over code points knows of its last save.
pub type RlLosslessCheckpointCallbackState<T> = CheckpointState<RlCheckpointText, T>;

/// What is known of a last save.
pub struct StateModel<X, T> {
    pub last_name: Option<X>,
    pub last_iter: Option<int>,
    pub last_time: Option<T>,
}

impl<X, T> View for CheckpointState<X, T> {
    type V = StateModel<X, T>;

    open spec fn view(&self) -> StateModel<X, T> {
        StateModel {
            last_name: self.last_name,
            last_iter: number_of(self.last_iter),
            last_time: self.last_time,
        }
    }
}

/// Why a checkpoint was not saved.
#[derive(Debug)]
pub enum RlCheckpointCallbackError {
    Runtime(RlTrainerStateError),
    MissingTrainerField(&'static str),
    ZeroIterationInterval,
    DuplicateKeyword(&'static str),
    Plugin { stage: &'static str, message: String },
}

/// What is said of a failure.
pub open spec fn callback_words(error: RlCheckpointCallbackError) -> Seq<char> {
    match error {
        RlCheckpointCallbackError::Runtime(error) => crate::rl_trainer_state::state_words(error),
        RlCheckpointCallbackError::MissingTrainerField(field) => "trainer "@ + field@ + " has not been initialized"@,
        RlCheckpointCallbackError::ZeroIterationInterval => "checkpoint iteration interval is zero"@,
        RlCheckpointCallbackError::DuplicateKeyword(keyword) => "checkpoint filename has a duplicate keyword: "@ + keyword@,
        RlCheckpointCallbackError::Plugin { stage, message } => "checkpoint "@ + stage@ + " failed: "@ + message@,
    }
}

impl RlCheckpointCallbackError {
    /// What is said of the failure.
    pub fn message(&self) -> (result: String)
        ensures
            result@ == callback_words(*self),
    {
        match self {
            RlCheckpointCallbackError::Runtime(error) => error.message(),
            RlCheckpointCallbackError::MissingTrainerField(field) => sentence("trainer ", field, " has not been initialized", ""),
            RlCheckpointCallbackError::ZeroIterationInterval => "checkpoint iteration interval is zero".to_owned(),
            RlCheckpointCallbackError::DuplicateKeyword(keyword) => sentence("checkpoint filename has a duplicate keyword: ", keyword, "", ""),
            RlCheckpointCallbackError::Plugin { stage, message } => sentence("checkpoint ", stage, " failed: ", message.as_str()),
        }
    }
}

/// What a callback waits for.
pub enum CheckpointPhase {
    /// Nothing: no save is under way.
    Idle,
    /// The time, to see whether a save is due; whether it is due already.
    DueTime { due: bool },
    Directory,
    /// The local time for the name; the iteration of the name.
    LocalTime { iteration: Integer },
    Name,
    SaveTime,
    Graph,
    Save,
    Exists,
    IsLink,
    Remove,
    Link,
    Copy,
}

/// What a callback waits for.
pub enum PhaseModel {
    Idle,
    DueTime { due: bool },
    Directory,
    LocalTime { iteration: int },
    Name,
    SaveTime,
    Graph,
    Save,
    Exists,
    IsLink,
    Remove,
    Link,
    Copy,
}

impl View for CheckpointPhase {
    type V = PhaseModel;

    open spec fn view(&self) -> PhaseModel {
        match self {
            CheckpointPhase::Idle => PhaseModel::Idle,
            CheckpointPhase::DueTime { due } => PhaseModel::DueTime { due: *due },
            CheckpointPhase::Directory => PhaseModel::Directory,
            CheckpointPhase::LocalTime { iteration } => PhaseModel::LocalTime { iteration: iteration@ },
            CheckpointPhase::Name => PhaseModel::Name,
            CheckpointPhase::SaveTime => PhaseModel::SaveTime,
            CheckpointPhase::Graph => PhaseModel::Graph,
            CheckpointPhase::Save => PhaseModel::Save,
            CheckpointPhase::Exists => PhaseModel::Exists,
            CheckpointPhase::IsLink => PhaseModel::IsLink,
            CheckpointPhase::Remove => PhaseModel::Remove,
            CheckpointPhase::Link => PhaseModel::Link,
            CheckpointPhase::Copy => PhaseModel::Copy,
        }
    }
}

/// What the owner of the plugins does next. Files lie in the directory of the configuration; the
/// checkpoint is named by the state, the latest one `latest.pth`.
pub enum CheckpointAction {
    /// Read the wall clock.
    Timestamp,
    CreateDirectory,
    /// Read the local time as a text.
    LocalTime,
    /// Render the file name of the configuration, with the metrics of the trainer.
    Render { iteration: Integer, local_time: String },
    /// Collect the graph of the trainer.
    Collect,
    /// Save the graph under the name of the state.
    Save,
    /// See whether the latest checkpoint exists, links followed.
    LatestExists,
    /// See whether the latest checkpoint is a link, even one that leads nowhere.
    LatestIsLink,
    RemoveLatest,
    /// Make the latest checkpoint a link to the saved one.
    LinkLatest,
    /// Make the latest checkpoint a copy of the saved one.
    CopyLatest,
    Finished,
    Failed(RlCheckpointCallbackError),
}

/// What an action asks for.
pub enum ActionModel {
    Timestamp,
    CreateDirectory,
    LocalTime,
    Render { iteration: int, local_time: Seq<char> },
    Collect,
    Save,
    LatestExists,
    LatestIsLink,
    RemoveLatest,
    LinkLatest,
    CopyLatest,
    Finished,
    Missing(Seq<char>),
    ZeroInterval,
    Duplicate(Seq<char>),
    Plugin { stage: Seq<char>, message: Seq<char> },
    Unusable(RlTrainerStateError),
}

impl View for CheckpointAction {
    type V = ActionModel;

    open spec fn view(&self) -> ActionModel {
        match self {
            CheckpointAction::Timestamp => ActionModel::Timestamp,
            CheckpointAction::CreateDirectory => ActionModel::CreateDirectory,
            CheckpointAction::LocalTime => ActionModel::LocalTime,
            CheckpointAction::Render { iteration, local_time } => ActionModel::Render {
                iteration: iteration@,
                local_time: local_time@,
            },
            CheckpointAction::Collect => ActionModel::Collect,
            CheckpointAction::Save => ActionModel::Save,
            CheckpointAction::LatestExists => ActionModel::LatestExists,
            CheckpointAction::LatestIsLink => ActionModel::LatestIsLink,
            CheckpointAction::RemoveLatest => ActionModel::RemoveLatest,
            CheckpointAction::LinkLatest => ActionModel::LinkLatest,
            CheckpointAction::CopyLatest => ActionModel::CopyLatest,
            CheckpointAction::Finished => ActionModel::Finished,
            CheckpointAction::Failed(error) => match error {
                RlCheckpointCallbackError::Runtime(error) => ActionModel::Unusable(*error),
                RlCheckpointCallbackError::MissingTrainerField(field) => ActionModel::Missing(field@),
                RlCheckpointCallbackError::ZeroIterationInterval => ActionModel::ZeroInterval,
                RlCheckpointCallbackError::DuplicateKeyword(keyword) => ActionModel::Duplicate(keyword@),
                RlCheckpointCallbackError::Plugin { stage, message } => ActionModel::Plugin {
                    stage: stage@,
                    message: message@,
                },
            },
        }
    }
}

/// What a plugin answers.
pub enum CheckpointReply<X, T> {
    Done,
    Time(T),
    LocalTime(String),
    Name(X),
    Flag(bool),
    Failed(String),
}

/// Whether an answer fits what a callback waits for.
pub open spec fn fits<X, T>(phase: PhaseModel, reply: CheckpointReply<X, T>) -> bool {
    if reply is Failed {
        !(phase is Idle)
    } else {
        match phase {
            PhaseModel::Idle => false,
            PhaseModel::DueTime { .. } => reply is Time,
            PhaseModel::SaveTime => reply is Time,
            PhaseModel::LocalTime { .. } => reply is LocalTime,
            PhaseModel::Name => reply is Name,
            PhaseModel::Exists => reply is Flag,
            PhaseModel::IsLink => reply is Flag,
            _ => reply is Done,
        }
    }
}

/// What comes of a decision.
pub struct Decision<X, T> {
    pub phase: PhaseModel,
    pub action: ActionModel,
    pub state: StateModel<X, T>,
}

/// Nothing more is done.
pub open spec fn over<X, T>(action: ActionModel, state: StateModel<X, T>) -> Decision<X, T> {
    Decision { phase: PhaseModel::Idle, action, state }
}

/// A save begins.
pub open spec fn begun<X, T>(state: StateModel<X, T>) -> Decision<X, T> {
    Decision { phase: PhaseModel::Directory, action: ActionModel::CreateDirectory, state }
}

/// A save begins where it is due.
pub open spec fn begun_if<X, T>(due: bool, state: StateModel<X, T>) -> Decision<X, T> {
    if due {
        begun(state)
    } else {
        over(ActionModel::Finished, state)
    }
}

/// The stage that fails where a plugin does.
pub open spec fn stage_name(phase: PhaseModel) -> Seq<char> {
    match phase {
        PhaseModel::Directory => "mkdir"@,
        PhaseModel::LocalTime { .. } => "local_time"@,
        PhaseModel::Name => "format"@,
        PhaseModel::Graph => "graph"@,
        PhaseModel::Save => "save"@,
        PhaseModel::Exists => "exists"@,
        PhaseModel::IsLink => "is_link"@,
        PhaseModel::Remove => "remove"@,
        PhaseModel::Link => "link"@,
        PhaseModel::Copy => "copy"@,
        _ => "time"@,
    }
}

/// What a hook brings. The end of a fit saves an iteration that was not saved yet. The end of an
/// iteration saves by the number of iterations or by the time, which is looked at even where the
/// number has decided.
pub open spec fn hooked<X, T, M>(
    hook: RlTrainerHook,
    config: CheckpointConfig<X, T>,
    state: StateModel<X, T>,
    trainer: TrainerModel<M>,
) -> Decision<X, T> {
    match hook {
        RlTrainerHook::FitEnd => if config.save_on_fit_end {
            match trainer.current_iter {
                None => over(ActionModel::Missing("current_iter"@), state),
                Some(iteration) => begun_if(Some(iteration) != state.last_iter, state),
            }
        } else {
            over(ActionModel::Finished, state)
        },
        RlTrainerHook::IterEnd => match number_of(config.every_n_iters) {
            None => timed(false, config, state),
            Some(interval) => match trainer.current_iter {
                None => over(ActionModel::Missing("current_iter"@), state),
                Some(iteration) => if interval == 0 {
                    over(ActionModel::ZeroInterval, state)
                } else {
                    timed(truncated_remainder(iteration + 1, interval) == 0, config, state)
                },
            },
        },
        _ => over(ActionModel::Finished, state),
    }
}

/// What the interval of time makes of a decision.
pub open spec fn timed<X, T>(due: bool, config: CheckpointConfig<X, T>, state: StateModel<X, T>) -> Decision<X, T> {
    if config.time_interval is None {
        begun_if(due, state)
    } else if state.last_time is None {
        begun(state)
    } else {
        Decision { phase: PhaseModel::DueTime { due }, action: ActionModel::Timestamp, state }
    }
}

/// The latest checkpoint takes its new form, where the mode is one.
pub open spec fn replaced<X: NameText, T>(mode: Option<X>, state: StateModel<X, T>) -> Decision<X, T> {
    match mode {
        Some(text) => if text.says("link"@) {
            Decision { phase: PhaseModel::Link, action: ActionModel::LinkLatest, state }
        } else if text.says("copy"@) {
            Decision { phase: PhaseModel::Copy, action: ActionModel::CopyLatest, state }
        } else {
            over(ActionModel::Finished, state)
        },
        None => over(ActionModel::Finished, state),
    }
}

/// What follows an answer.
pub open spec fn answered<X: NameText, T: WallSeconds, M>(
    phase: PhaseModel,
    reply: CheckpointReply<X, T>,
    config: CheckpointConfig<X, T>,
    state: StateModel<X, T>,
    trainer: TrainerModel<M>,
) -> Decision<X, T> {
    match reply {
        CheckpointReply::Failed(message) => over(
            ActionModel::Plugin { stage: stage_name(phase), message: message@ },
            state,
        ),
        CheckpointReply::Time(now) => if phase is DueTime {
            begun_if(
                phase->due || interval_over(config.time_interval->Some_0, now.minus_spec(state.last_time->Some_0)),
                state,
            )
        } else {
            Decision {
                phase: PhaseModel::Graph,
                action: ActionModel::Collect,
                state: StateModel { last_time: Some(now), ..state },
            }
        },
        CheckpointReply::LocalTime(time) => match trainer.metrics {
            None => over(ActionModel::Missing("metrics"@), state),
            Some(metrics) => if has_name(metrics, "iter"@) {
                over(ActionModel::Duplicate("iter"@), state)
            } else if has_name(metrics, "time"@) {
                over(ActionModel::Duplicate("time"@), state)
            } else {
                Decision {
                    phase: PhaseModel::Name,
                    action: ActionModel::Render { iteration: phase->iteration, local_time: time@ },
                    state,
                }
            },
        },
        CheckpointReply::Name(name) => {
            let named = StateModel { last_name: Some(name), ..state };
            match trainer.current_iter {
                None => over(ActionModel::Missing("current_iter"@), named),
                Some(iteration) => Decision {
                    phase: PhaseModel::SaveTime,
                    action: ActionModel::Timestamp,
                    state: StateModel { last_iter: Some(iteration), ..named },
                },
            }
        },
        CheckpointReply::Flag(found) => if found {
            Decision { phase: PhaseModel::Remove, action: ActionModel::RemoveLatest, state }
        } else if phase is Exists {
            Decision { phase: PhaseModel::IsLink, action: ActionModel::LatestIsLink, state }
        } else {
            replaced(config.save_latest, state)
        },
        CheckpointReply::Done => match phase {
            PhaseModel::Directory => match trainer.current_iter {
                None => over(ActionModel::Missing("current_iter"@), state),
                Some(iteration) => Decision {
                    phase: PhaseModel::LocalTime { iteration },
                    action: ActionModel::LocalTime,
                    state,
                },
            },
            PhaseModel::Graph => Decision { phase: PhaseModel::Save, action: ActionModel::Save, state },
            PhaseModel::Save => if config.save_latest is Some && !config.save_latest->Some_0.says(""@) {
                Decision { phase: PhaseModel::Exists, action: ActionModel::LatestExists, state }
            } else {
                over(ActionModel::Finished, state)
            },
            PhaseModel::Remove => replaced(config.save_latest, state),
            _ => over(ActionModel::Finished, state),
        },
    }
}

/// A callback that saves checkpoints.
pub struct CheckpointCallback<X, T> {
    pub config: CheckpointConfig<X, T>,
    pub state: CheckpointState<X, T>,
    pub phase: CheckpointPhase,
}

/// A callback that saves checkpoints with plain names.
pub type RlCheckpointCallback<T> = CheckpointCallback<String, T>;

/// A callback that saves checkpoints with names over code points.
pub type RlLosslessCheckpointCallback<T> = CheckpointCallback<RlCheckpointText, T>;

/// What one decision made of a callback.
pub open spec fn decided<X, T>(
    before: CheckpointCallback<X, T>,
    after: CheckpointCallback<X, T>,
    action: CheckpointAction,
    decision: Decision<X, T>,
) -> bool {
    &&& after.config == before.config
    &&& after.phase@ == decision.phase
    &&& after.state@ == decision.state
    &&& action@ == decision.action
}

impl<X: NameText, T: WallSeconds> CheckpointCallback<X, T> {
    /// A time is waited for to see whether a save is due only where there are an interval and a
    /// last time.
    pub open spec fn wf(&self) -> bool {
        self.phase is DueTime ==> self.config.time_interval is Some && self.state.last_time is Some
    }

    /// Takes a configuration as it is.
    pub fn new(config: CheckpointConfig<X, T>) -> (result: Self)
        ensures
            result.wf(),
            result.config == config,
            result.phase is Idle,
            result.state@ == (StateModel::<X, T> { last_name: None, last_iter: None, last_time: None }),
    {
        CheckpointCallback {
            config,
            state: CheckpointState { last_name: None, last_iter: None, last_time: None },
            phase: CheckpointPhase::Idle,
        }
    }

    /// Whether an answer fits what the callback waits for.
    pub fn expects(&self, reply: &CheckpointReply<X, T>) -> (result: bool)
        ensures
            result == fits(self.phase@, *reply),
    {
        match (&self.phase, reply) {
            (CheckpointPhase::Idle, _) => false,
            (_, CheckpointReply::Failed(_)) => true,
            (CheckpointPhase::DueTime { .. }, CheckpointReply::Time(_)) => true,
            (CheckpointPhase::SaveTime, CheckpointReply::Time(_)) => true,
            (CheckpointPhase::LocalTime { .. }, CheckpointReply::LocalTime(_)) => true,
            (CheckpointPhase::Name, CheckpointReply::Name(_)) => true,
            (CheckpointPhase::Exists, CheckpointReply::Flag(_)) => true,
            (CheckpointPhase::IsLink, CheckpointReply::Flag(_)) => true,
            (CheckpointPhase::Directory, CheckpointReply::Done) => true,
            (CheckpointPhase::Graph, CheckpointReply::Done) => true,
            (CheckpointPhase::Save, CheckpointReply::Done) => true,
            (CheckpointPhase::Remove, CheckpointReply::Done) => true,
            (CheckpointPhase::Link, CheckpointReply::Done) => true,
            (CheckpointPhase::Copy, CheckpointReply::Done) => true,
            _ => false,
        }
    }

    /// Begins a save whether or not it is due.
    pub fn save(&mut self) -> (result: CheckpointAction)
        ensures
            final(self).wf(),
            decided(*old(self), *final(self), result, begun(old(self).state@)),
    {
        self.phase = CheckpointPhase::Directory;
        CheckpointAction::CreateDirectory
    }

    fn save_if(&mut self, due: bool) -> (result: CheckpointAction)
        ensures
            final(self).wf(),
            decided(*old(self), *final(self), result, begun_if(due, old(self).state@)),
    {
        if due {
            self.save()
        } else {
            self.phase = CheckpointPhase::Idle;
            CheckpointAction::Finished
        }
    }

    fn iteration_due<M>(&mut self, trainer: &RlTrainerState<M>) -> (result: CheckpointAction)
        ensures
            final(self).wf(),
            decided(
                *old(self),
                *final(self),
                result,
                hooked(RlTrainerHook::IterEnd, old(self).config, old(self).state@, trainer@),
            ),
    {
        self.phase = CheckpointPhase::Idle;
        let mut due = false;
        if let Some(interval) = &self.config.every_n_iters {
            let next = match &trainer.current_iter {
                None => return CheckpointAction::Failed(
                    RlCheckpointCallbackError::MissingTrainerField("current_iter"),
                ),
                Some(iteration) => iteration.next(),
            };
            if interval.is_zero() {
                return CheckpointAction::Failed(RlCheckpointCallbackError::ZeroIterationInterval);
            }
            due = next.divisible_by(interval);
        }
        if self.config.time_interval.is_none() {
            self.save_if(due)
        } else if self.state.last_time.is_none() {
            self.save()
        } else {
            self.phase = CheckpointPhase::DueTime { due };
            CheckpointAction::Timestamp
        }
    }

    /// Says what a hook brings. A save under way is given up.
    pub fn on_hook<M>(&mut self, hook: RlTrainerHook, trainer: &RlTrainerState<M>) -> (result: CheckpointAction)
        ensures
            final(self).wf(),
            decided(*old(self), *final(self), result, hooked(hook, old(self).config, old(self).state@, trainer@)),
    {
        self.phase = CheckpointPhase::Idle;
        match hook {
            RlTrainerHook::FitEnd => {
                if !self.config.save_on_fit_end {
                    return CheckpointAction::Finished;
                }
                let due = match &trainer.current_iter {
                    None => return CheckpointAction::Failed(
                        RlCheckpointCallbackError::MissingTrainerField("current_iter"),
                    ),
                    Some(iteration) => match &self.state.last_iter {
                        Some(last) => !iteration.equals(last),
                        None => true,
                    },
                };
                self.save_if(due)
            },
            RlTrainerHook::IterEnd => self.iteration_due(trainer),
            _ => CheckpointAction::Finished,
        }
    }

    fn stage(phase: &CheckpointPhase) -> (result: &'static str)
        ensures
            result@ == stage_name(phase@),
    {
        match phase {
            CheckpointPhase::Directory => "mkdir",
            CheckpointPhase::LocalTime { .. } => "local_time",
            CheckpointPhase::Name => "format",
            CheckpointPhase::Graph => "graph",
            CheckpointPhase::Save => "save",
            CheckpointPhase::Exists => "exists",
            CheckpointPhase::IsLink => "is_link",
            CheckpointPhase::Remove => "remove",
            CheckpointPhase::Link => "link",
            CheckpointPhase::Copy => "copy",
            _ => "time",
        }
    }

    fn replace_latest(&mut self) -> (result: CheckpointAction)
        requires
            old(self).phase is Idle,
        ensures
            final(self).wf(),
            decided(*old(self), *final(self), result, replaced(old(self).config.save_latest, old(self).state@)),
    {
        match &self.config.save_latest {
            Some(mode) => if mode.is_text("link") {
                self.phase = CheckpointPhase::Link;
                CheckpointAction::LinkLatest
            } else if mode.is_text("copy") {
                self.phase = CheckpointPhase::Copy;
                CheckpointAction::CopyLatest
            } else {
                CheckpointAction::Finished
            },
            None => CheckpointAction::Finished,
        }
    }

    /// Goes on with a name once the local time is known: no metric may be named like one of the
    /// two fixed keywords.
    fn new_name<M>(&mut self, iteration: Integer, local_time: String, trainer: &RlTrainerState<M>) -> (result: CheckpointAction)
        requires
            old(self).phase is Idle,
        ensures
            final(self).wf(),
            decided(
                *old(self),
                *final(self),
                result,
                answered(
                    PhaseModel::LocalTime { iteration: iteration@ },
                    CheckpointReply::LocalTime(local_time),
                    old(self).config,
                    old(self).state@,
                    trainer@,
                ),
            ),
    {
        match &trainer.metrics {
            None => CheckpointAction::Failed(RlCheckpointCallbackError::MissingTrainerField("metrics")),
            Some(metrics) => if metrics.contains("iter") {
                CheckpointAction::Failed(RlCheckpointCallbackError::DuplicateKeyword("iter"))
            } else if metrics.contains("time") {
                CheckpointAction::Failed(RlCheckpointCallbackError::DuplicateKeyword("time"))
            } else {
                self.phase = CheckpointPhase::Name;
                CheckpointAction::Render { iteration, local_time }
            },
        }
    }

    /// Takes an answer and says what is done next.
    pub fn answer<M>(&mut self, reply: CheckpointReply<X, T>, trainer: &RlTrainerState<M>) -> (result: CheckpointAction)
        requires
            old(self).wf(),
            fits(old(self).phase@, reply),
        ensures
            final(self).wf(),
            decided(
                *old(self),
                *final(self),
                result,
                answered(old(self).phase@, reply, old(self).config, old(self).state@, trainer@),
            ),
    {
        let mut phase = CheckpointPhase::Idle;
        core::mem::swap(&mut self.phase, &mut phase);
        match reply {
            CheckpointReply::Failed(message) => CheckpointAction::Failed(
                RlCheckpointCallbackError::Plugin { stage: Self::stage(&phase), message },
            ),
            CheckpointReply::Time(now) => match phase {
                CheckpointPhase::DueTime { due } => {
                    let over = match (&self.config.time_interval, self.state.last_time) {
                        (Some(interval), Some(last)) => interval.elapsed(now.minus(last)),
                        _ => false,
                    };
                    self.save_if(due || over)
                },
                _ => {
                    self.state.last_time = Some(now);
                    self.phase = CheckpointPhase::Graph;
                    CheckpointAction::Collect
                },
            },
            CheckpointReply::LocalTime(local_time) => match phase {
                CheckpointPhase::LocalTime { iteration } => self.new_name(iteration, local_time, trainer),
                _ => CheckpointAction::Finished,
            },
            CheckpointReply::Name(name) => {
                self.state.last_name = Some(name);
                match &trainer.current_iter {
                    None => CheckpointAction::Failed(
                        RlCheckpointCallbackError::MissingTrainerField("current_iter"),
                    ),
                    Some(iteration) => {
                        self.state.last_iter = Some(iteration.copied());
                        self.phase = CheckpointPhase::SaveTime;
                        CheckpointAction::Timestamp
                    },
                }
            },
            CheckpointReply::Flag(found) => if found {
                self.phase = CheckpointPhase::Remove;
                CheckpointAction::RemoveLatest
            } else {
                match phase {
                    CheckpointPhase::Exists => {
                        self.phase = CheckpointPhase::IsLink;
                        CheckpointAction::LatestIsLink
                    },
                    _ => self.replace_latest(),
                }
            },
            CheckpointReply::Done => match phase {
                CheckpointPhase::Directory => match &trainer.current_iter {
                    None => CheckpointAction::Failed(
                        RlCheckpointCallbackError::MissingTrainerField("current_iter"),
                    ),
                    Some(iteration) => {
                        self.phase = CheckpointPhase::LocalTime { iteration: iteration.copied() };
                        CheckpointAction::LocalTime
                    },
                },
                CheckpointPhase::Graph => {
                    self.phase = CheckpointPhase::Save;
                    CheckpointAction::Save
                },
                CheckpointPhase::Save => {
                    let touched = match &self.config.save_latest {
                        Some(mode) => !mode.is_text(""),
                        None => false,
                    };
                    if touched {
                        self.phase = CheckpointPhase::Exists;
                        CheckpointAction::LatestExists
                    } else {
                        CheckpointAction::Finished
                    }
                },
                CheckpointPhase::Remove => self.replace_latest(),
                _ => CheckpointAction::Finished,
            },
        }
    }
}

// ---- laws -------------------------------------------------------------------------------------

/// An iteration that was saved is not saved again at the end of the fit.
pub proof fn saved_iterations_are_not_saved_again<X, T, M>(
    config: CheckpointConfig<X, T>,
    state: StateModel<X, T>,
    trainer: TrainerModel<M>,
)
    requires
        trainer.current_iter is Some,
        state.last_iter == trainer.current_iter,
    ensures
        hooked(RlTrainerHook::FitEnd, config, state, trainer) == over(ActionModel::Finished, state),
{
}

/// Only the ends of a fit and of an iteration can save.
pub proof fn other_hooks_do_nothing<X, T, M>(
    hook: RlTrainerHook,
    config: CheckpointConfig<X, T>,
    state: StateModel<X, T>,
    trainer: TrainerModel<M>,
)
    requires
        hook != RlTrainerHook::FitEnd,
        hook != RlTrainerHook::IterEnd,
    ensures
        hooked(hook, config, state, trainer) == over(ActionModel::Finished, state),
{
}

/// A failing plugin ends the save and changes nothing that is known of the last save.
pub proof fn failures_keep_the_state<X: NameText, T: WallSeconds, M>(
    phase: PhaseModel,
    message: String,
    config: CheckpointConfig<X, T>,
    state: StateModel<X, T>,
    trainer: TrainerModel<M>,
)
    ensures
        answered(phase, CheckpointReply::Failed(message), config, state, trainer) == over(
            ActionModel::Plugin { stage: stage_name(phase), message: message@ },
            state,
        ),
{
}

/// A saved file stays known even if the latest checkpoint cannot be replaced: behind the save
/// nothing of the state changes.
pub proof fn replacing_keeps_the_state<X: NameText, T: WallSeconds, M>(
    phase: PhaseModel,
    reply: CheckpointReply<X, T>,
    config: CheckpointConfig<X, T>,
    state: StateModel<X, T>,
    trainer: TrainerModel<M>,
)
    requires
        phase is Save || phase is Exists || phase is IsLink || phase is Remove || phase is Link || phase is Copy,
        fits(phase, reply),
    ensures
        answered(phase, reply, config, state, trainer).state == state,
{
}

/// Where checkpoints go by iterations alone, one is saved behind every iteration whose number, counted
/// from one, is a multiple of the interval, and behind no other.
pub proof fn every_multiple_is_saved<X: NameText, T: WallSeconds, M>(
    callback: &mut CheckpointCallback<X, T>,
    trainer: RlTrainerState<M>,
    result: CheckpointAction,
    interval: int,
    iteration: int,
    times: int,
)
    requires
        call_ensures(CheckpointCallback::<X, T>::on_hook::<M>, (callback, RlTrainerHook::IterEnd, &trainer), result),
        number_of(old(callback).config.every_n_iters) == Some(interval),
        old(callback).config.time_interval is None,
        trainer@.current_iter == Some(iteration),
        interval > 0,
        iteration >= 0,
    ensures
        result@ is CreateDirectory || result@ is Finished,
        iteration + 1 == times * interval ==> result@ is CreateDirectory,
        result@ is CreateDirectory ==> exists|whole: int| iteration + 1 == #[trigger] (whole * interval),
        final(callback).state@ == old(callback).state@,
{
    let count = iteration + 1;
    vstd::arithmetic::div_mod::lemma_fundamental_div_mod(count, interval);
    assert(interval * (count / interval) == (count / interval) * interval) by (nonlinear_arith);
    if count == times * interval {
        vstd::arithmetic::div_mod::lemma_mod_multiples_basic(times, interval);
    }
}

/// Where checkpoints go by time, one is saved once the interval has passed since the last, and not
/// before.
pub proof fn passed_intervals_are_saved<X: NameText, M>(
    callback: &mut CheckpointCallback<X, Ticks>,
    trainer: RlTrainerState<M>,
    result: CheckpointAction,
    now: i64,
    last: i64,
    length: int,
)
    requires
        call_ensures(
            CheckpointCallback::<X, Ticks>::answer::<M>,
            (callback, CheckpointReply::Time(Ticks(Some(now))), &trainer),
            result,
        ),
        old(callback).wf(),
        old(callback).phase@ == (PhaseModel::DueTime { due: false }),
        old(callback).state@.last_time == Some(Ticks(Some(last))),
        old(callback).config.time_interval matches Some(interval) && match interval {
            RlCheckpointTimeInterval::Integer(seconds) => seconds@ == length,
            RlCheckpointTimeInterval::Float(seconds) => seconds.0 is Some && seconds.0->Some_0 == length,
        },
        i64::MIN <= now - last <= i64::MAX,
    ensures
        now - last >= length ==> result@ is CreateDirectory,
        now - last < length ==> result@ is Finished,
        final(callback).state@ == old(callback).state@,
{
}

/// The end of a fit saves the last iteration where that is asked for, unless it is saved already.
pub proof fn fits_end_saved<X: NameText, T: WallSeconds, M>(
    callback: &mut CheckpointCallback<X, T>,
    trainer: RlTrainerState<M>,
    result: CheckpointAction,
    iteration: int,
)
    requires
        call_ensures(CheckpointCallback::<X, T>::on_hook::<M>, (callback, RlTrainerHook::FitEnd, &trainer), result),
        trainer@.current_iter == Some(iteration),
    ensures
        result@ is CreateDirectory <==> old(callback).config.save_on_fit_end && old(callback).state@.last_iter != Some(
            iteration,
        ),
        !(result@ is CreateDirectory) ==> result@ is Finished,
{
}

} // verus!
