//! Central aggregation of environment logs, and the buffer of numeric metrics over it.
use crate::integer::{decimal_digits, decimal_text, Integer};
use crate::number::{held, quotients_undo, sum_of, sum_push, sums_are_totals, total, Number, Ticks};
use crate::ordered::{
    distinct_entries_stand, distinct_names, find_name_finds, has_name, same_names_same_place, value_of, with_entries,
    with_entries_push, with_entry, IdMap, OrderedMap,
};
use crate::risk_analysis::Statistic;
use crate::text::{decimal_chars, from_chars, same_text, sentence};
use vstd::prelude::*;

verus! {

/// A number whose arrays have a sum of their own, which need not add from left to right.
pub trait LogNumber: Statistic {
    open spec fn array_sum_spec(values: Seq<Self>) -> Self {
        arbitrary()
    }

    /// The sum of an array that is not empty.
    fn array_sum(values: &Vec<Self>) -> (result: Self)
        requires
            values@.len() > 0,
        ensures
            result == Self::array_sum_spec(values@),
    ;
}

impl LogNumber for Ticks {
    open spec fn array_sum_spec(values: Seq<Self>) -> Self {
        sum_of(values)
    }

    fn array_sum(values: &Vec<Self>) -> (result: Self) {
        let mut total = Ticks::zero();
        let mut i: usize = 0;
        while i < values.len()
            invariant
                i <= values@.len(),
                total == sum_of(values@.take(i as int)),
            decreases values@.len() - i,
        {
            proof {
                sum_push(values@.take(i as int), values@[i as int]);
                assert(values@.take(i + 1) =~= values@.take(i as int).push(values@[i as int]));
            }
            total = total.plus(values[i]);
            i += 1;
        }
        assert(values@.take(i as int) =~= values@);
        total
    }
}

/// A logged value: a float, or anything else (integers and booleans too) as its owner keeps it.
#[derive(Clone, Copy, Debug, PartialEq)]
pub enum RlLogValue<N, V> {
    Float(N),
    Other(V),
}

/// A logged value and its level.
#[derive(Clone, Copy, Debug, PartialEq)]
pub struct RlLogEntry<N, V> {
    pub level: i64,
    pub value: RlLogValue<N, V>,
}

/// What one step logged, by name.
pub type RlLogContents<N, V> = OrderedMap<RlLogValue<N, V>>;

/// What one step offers to be logged, by name.
pub type RlLeveledLogs<N, V> = OrderedMap<RlLogEntry<N, V>>;

/// The part of an episode's history.
#[derive(Clone, Copy, Debug, PartialEq, Eq, Structural)]
pub enum RlEpisodeField {
    Length,
    Rewards,
    Logs,
}

/// What a buffer calls its owner back for.
#[derive(Clone, Copy, Debug, PartialEq, Eq, Structural)]
pub enum RlLogBufferEvent {
    Episode,
    Collect,
}

/// Why logging failed.
#[derive(Debug)]
pub enum RlLogError {
    /// The history of an environment was never started.
    Uninitialized { id: usize, field: RlEpisodeField },
    /// The environment sent no logs.
    MissingLog,
    /// The environment sent no reward.
    MissingReward,
    /// There is nothing to aggregate.
    EmptyAggregation,
    /// No episode has ended yet.
    NoEpisodeMetrics,
    /// The number of episodes is no finite number.
    EpisodeCountNotRepresentable(Integer),
    /// A hook failed.
    Hook(String),
    /// A callback failed.
    Callback { event: RlLogBufferEvent, message: String },
}

/// The name of a variant.
pub open spec fn field_name(value: RlEpisodeField) -> Seq<char> {
    match value {
        RlEpisodeField::Length => "Length"@,
        RlEpisodeField::Rewards => "Rewards"@,
        RlEpisodeField::Logs => "Logs"@,
    }
}

impl RlEpisodeField {
    /// The name of the variant.
    pub fn name(self) -> (result: &'static str)
        ensures
            result@ == field_name(self),
    {
        match self {
            RlEpisodeField::Length => "Length",
            RlEpisodeField::Rewards => "Rewards",
            RlEpisodeField::Logs => "Logs",
        }
    }
}

/// The name of a variant.
pub open spec fn event_name(value: RlLogBufferEvent) -> Seq<char> {
    match value {
        RlLogBufferEvent::Episode => "Episode"@,
        RlLogBufferEvent::Collect => "Collect"@,
    }
}

impl RlLogBufferEvent {
    /// The name of the variant.
    pub fn name(self) -> (result: &'static str)
        ensures
            result@ == event_name(self),
    {
        match self {
            RlLogBufferEvent::Episode => "Episode",
            RlLogBufferEvent::Collect => "Collect",
        }
    }
}

/// What is said of a failure.
pub open spec fn log_words(error: RlLogError) -> Seq<char> {
    match error {
        RlLogError::Uninitialized { id, field } => "episode "@ + field_name(field) + " is not initialized for environment "@ + decimal_digits(id as nat),
        RlLogError::MissingLog => "environment info has no log field"@,
        RlLogError::MissingReward => "finite environment supplied no reward"@,
        RlLogError::EmptyAggregation => "the aggregated array must not be empty"@,
        RlLogError::NoEpisodeMetrics => "no episode metrics available yet"@,
        RlLogError::EpisodeCountNotRepresentable(count) => "episode count cannot be represented as a finite float: "@ + decimal_text(count@),
        RlLogError::Hook(message) => "RL log hook failed: "@ + message@,
        RlLogError::Callback { event, message } => "RL log buffer "@ + event_name(event) + " callback failed: "@ + message@,
    }
}

impl RlLogError {
    /// What is said of the failure.
    pub fn message(&self) -> (result: String)
        ensures
            result@ == log_words(*self),
    {
        match self {
            RlLogError::Uninitialized { id, field } => {
                let number = from_chars(decimal_chars(*id).as_slice());
                sentence("episode ", field.name(), " is not initialized for environment ", number.as_str())
            },
            RlLogError::MissingLog => "environment info has no log field".to_owned(),
            RlLogError::MissingReward => "finite environment supplied no reward".to_owned(),
            RlLogError::EmptyAggregation => "the aggregated array must not be empty".to_owned(),
            RlLogError::NoEpisodeMetrics => "no episode metrics available yet".to_owned(),
            RlLogError::EpisodeCountNotRepresentable(count) => sentence("episode count cannot be represented as a finite float: ", count.text().as_str(), "", ""),
            RlLogError::Hook(message) => sentence("RL log hook failed: ", message.as_str(), "", ""),
            RlLogError::Callback { event, message } => sentence("RL log buffer ", event.name(), " callback failed: ", message.as_str()),
        }
    }
}

/// Hooks that do nothing.
#[derive(Clone, Copy, Debug, Default)]
pub struct NoopRlLogWriterHooks;

/// The state of a writer.
pub struct RlLogWriterState<N, V> {
    pub episode_count: Integer,
    pub step_count: Integer,
    pub global_step: Integer,
    pub global_episode: Integer,
    pub active_env_ids: IdMap<()>,
    pub episode_lengths: IdMap<Integer>,
    pub episode_rewards: IdMap<Vec<N>>,
    pub episode_logs: IdMap<Vec<RlLogContents<N, V>>>,
}

/// What one step logged.
pub type ContentsModel<N, V> = Seq<(Seq<char>, RlLogValue<N, V>)>;

/// What the state of a writer holds.
pub struct LogModel<N, V> {
    pub episode_count: int,
    pub step_count: int,
    pub global_step: int,
    pub global_episode: int,
    pub active: Seq<(usize, ())>,
    pub lengths: Seq<(usize, int)>,
    pub rewards: Seq<(usize, Seq<N>)>,
    pub logs: Seq<(usize, Seq<ContentsModel<N, V>>)>,
}

/// The lengths of the episodes under way.
pub open spec fn lengths_of(entries: Seq<(usize, Integer)>) -> Seq<(usize, int)> {
    Seq::new(entries.len(), |i: int| (entries[i].0, entries[i].1@))
}

/// The rewards of the episodes under way.
pub open spec fn rewards_of<N>(entries: Seq<(usize, Vec<N>)>) -> Seq<(usize, Seq<N>)> {
    Seq::new(entries.len(), |i: int| (entries[i].0, entries[i].1@))
}

/// What several steps logged.
pub open spec fn steps_of<N, V>(steps: Seq<RlLogContents<N, V>>) -> Seq<ContentsModel<N, V>> {
    Seq::new(steps.len(), |i: int| steps[i]@)
}

/// The logs of the episodes under way.
pub open spec fn logs_of<N, V>(entries: Seq<(usize, Vec<RlLogContents<N, V>>)>) -> Seq<
    (usize, Seq<ContentsModel<N, V>>),
> {
    Seq::new(entries.len(), |i: int| (entries[i].0, steps_of(entries[i].1@)))
}

impl<N, V> View for RlLogWriterState<N, V> {
    type V = LogModel<N, V>;

    open spec fn view(&self) -> LogModel<N, V> {
        LogModel {
            episode_count: self.episode_count@,
            step_count: self.step_count@,
            global_step: self.global_step@,
            global_episode: self.global_episode@,
            active: self.active_env_ids@,
            lengths: lengths_of(self.episode_lengths@),
            rewards: rewards_of(self.episode_rewards@),
            logs: logs_of(self.episode_logs@),
        }
    }
}

/// The state before anything happened.
pub open spec fn empty_log<N, V>() -> LogModel<N, V> {
    LogModel {
        episode_count: 0,
        step_count: 0,
        global_step: 0,
        global_episode: 0,
        active: Seq::empty(),
        lengths: Seq::empty(),
        rewards: Seq::empty(),
        logs: Seq::empty(),
    }
}

impl<N, V> Default for RlLogWriterState<N, V> {
    fn default() -> (result: Self)
        ensures
            result@ == empty_log::<N, V>(),
    {
        let result: RlLogWriterState<N, V> = RlLogWriterState {
            episode_count: Integer::zero(),
            step_count: Integer::zero(),
            global_step: Integer::zero(),
            global_episode: Integer::zero(),
            active_env_ids: IdMap::new(),
            episode_lengths: IdMap::new(),
            episode_rewards: IdMap::new(),
            episode_logs: IdMap::new(),
        };
        assert(result@.lengths =~= Seq::empty());
        assert(result@.rewards =~= Seq::empty());
        assert(result@.logs =~= Seq::empty());
        result
    }
}

/// A writer of logs.
pub struct RlLogWriter<N, V> {
    /// Values below this level are left out.
    pub loglevel: i64,
    pub state: RlLogWriterState<N, V>,
}

/// The state after a clear: the counters of the collection start over, the global counters and
/// the histories stay.
pub open spec fn cleared<N, V>(state: LogModel<N, V>) -> LogModel<N, V> {
    LogModel { episode_count: 0, step_count: 0, active: Seq::empty(), ..state }
}

/// The state after an environment was reset: its history starts over.
pub open spec fn after_reset<N, V>(state: LogModel<N, V>, id: usize) -> LogModel<N, V> {
    LogModel {
        lengths: with_entry(state.lengths, id, 0),
        rewards: with_entry(state.rewards, id, Seq::empty()),
        logs: with_entry(state.logs, id, Seq::empty()),
        ..state
    }
}

/// The entries of a level or above, without their levels.
pub open spec fn kept<N, V>(logs: Seq<(Seq<char>, RlLogEntry<N, V>)>, level: i64) -> ContentsModel<N, V>
    decreases logs.len(),
{
    if logs.len() == 0 {
        Seq::empty()
    } else if logs.last().1.level >= level {
        kept(logs.drop_last(), level).push((logs.last().0, logs.last().1.value))
    } else {
        kept(logs.drop_last(), level)
    }
}

/// The counters after a step.
pub open spec fn step_counted<N, V>(state: LogModel<N, V>, id: usize) -> LogModel<N, V> {
    LogModel {
        global_step: state.global_step + 1,
        step_count: state.step_count + 1,
        active: with_entry(state.active, id, ()),
        ..state
    }
}

/// The state after the length of an episode grew.
pub open spec fn length_grown<N, V>(state: LogModel<N, V>, id: usize) -> LogModel<N, V> {
    LogModel { lengths: with_entry(state.lengths, id, value_of(state.lengths, id)->Some_0 + 1), ..state }
}

/// The state after a reward joined an episode.
pub open spec fn reward_added<N, V>(state: LogModel<N, V>, id: usize, reward: N) -> LogModel<N, V> {
    LogModel { rewards: with_entry(state.rewards, id, value_of(state.rewards, id)->Some_0.push(reward)), ..state }
}

/// The state after the logs of a step joined an episode.
pub open spec fn logs_added<N, V>(state: LogModel<N, V>, id: usize, contents: ContentsModel<N, V>) -> LogModel<N, V> {
    LogModel { logs: with_entry(state.logs, id, value_of(state.logs, id)->Some_0.push(contents)), ..state }
}

/// Why a step cannot be recorded.
pub enum StepFailure {
    Uninitialized(RlEpisodeField),
    MissingLog,
}

/// Why a step cannot be recorded in a state.
pub open spec fn step_failure<N, V>(
    state: LogModel<N, V>,
    id: usize,
    logs: Option<Seq<(Seq<char>, RlLogEntry<N, V>)>>,
) -> Option<StepFailure> {
    if !has_name(state.lengths, id) {
        Some(StepFailure::Uninitialized(RlEpisodeField::Length))
    } else if !has_name(state.rewards, id) {
        Some(StepFailure::Uninitialized(RlEpisodeField::Rewards))
    } else if logs is None {
        Some(StepFailure::MissingLog)
    } else if !has_name(state.logs, id) {
        Some(StepFailure::Uninitialized(RlEpisodeField::Logs))
    } else {
        None
    }
}

/// The state after a step, which keeps what was recorded before a failure.
pub open spec fn after_step<N, V>(
    state: LogModel<N, V>,
    id: usize,
    reward: N,
    logs: Option<Seq<(Seq<char>, RlLogEntry<N, V>)>>,
    level: i64,
) -> LogModel<N, V> {
    let counted = step_counted(state, id);
    if !has_name(state.lengths, id) {
        counted
    } else {
        let grown = length_grown(counted, id);
        if !has_name(state.rewards, id) {
            grown
        } else {
            let rewarded = reward_added(grown, id, reward);
            match logs {
                None => rewarded,
                Some(offered) => if has_name(state.logs, id) {
                    logs_added(rewarded, id, kept(offered, level))
                } else {
                    rewarded
                },
            }
        }
    }
}

/// The state after an episode ended.
pub open spec fn after_episode<N, V>(state: LogModel<N, V>) -> LogModel<N, V> {
    LogModel {
        global_episode: state.global_episode + 1,
        episode_count: state.episode_count + 1,
        ..state
    }
}

/// Whether an error is the one of a failed step.
pub open spec fn is_step_failure(error: RlLogError, failure: StepFailure, id: usize) -> bool {
    match failure {
        StepFailure::Uninitialized(field) => error == (RlLogError::Uninitialized { id, field }),
        StepFailure::MissingLog => error == RlLogError::MissingLog,
    }
}

/// The entries of a level or above.
fn keep<N: Copy, V: Copy>(logs: &RlLeveledLogs<N, V>, level: i64) -> (result: RlLogContents<N, V>)
    ensures
        result@ == kept(logs@, level),
{
    let mut contents: RlLogContents<N, V> = OrderedMap::new();
    let length: usize = logs.len();
    let mut i: usize = 0;
    proof {
        assert(logs@.take(0) =~= Seq::empty());
    }
    while i < length
        invariant
            i <= length,
            length == logs@.len(),
            distinct_names(logs@),
            contents@ == kept(logs@.take(i as int), level),
            forall|name: Seq<char>|
                (forall|j: int| 0 <= j < i ==> (#[trigger] logs@[j]).0 != name) ==> !has_name(contents@, name),
        decreases length - i,
    {
        let entry: RlLogEntry<N, V> = *logs.value_at(i);
        proof {
            assert(logs@.take(i + 1).drop_last() =~= logs@.take(i as int));
            assert(logs@.take(i + 1).last() == logs@[i as int]);
        }
        let ghost before = contents@;
        let ghost name = logs@[i as int].0;
        if entry.level >= level {
            proof {
                assert(!has_name(before, name));
            }
            contents.insert(logs.name_at(i).clone(), entry.value);
            proof {
                assert forall|other: Seq<char>|
                    (forall|j: int| 0 <= j < i + 1 ==> (#[trigger] logs@[j]).0 != other) implies !has_name(
                    contents@,
                    other,
                ) by {
                    assert(logs@[i as int].0 != other);
                    assert(!has_name(before, other));
                    crate::ordered::write_keeps_others(before, name, entry.value, other);
                    assert(value_of(contents@, other) is None);
                }
            }
        }
        i += 1;
    }
    assert(logs@.take(i as int) =~= logs@);
    contents
}

/// Puts a length in the place of the one that stands at an id.
fn grow_length(lengths: &mut IdMap<Integer>, id: usize) -> (result: bool)
    ensures
        result == has_name(lengths_of(old(lengths)@), id),
        lengths_of(final(lengths)@) == if result {
            with_entry(lengths_of(old(lengths)@), id, value_of(lengths_of(old(lengths)@), id)->Some_0 + 1)
        } else {
            lengths_of(old(lengths)@)
        },
{
    let ghost before = lengths_of(lengths@);
    proof {
        same_names_same_place(lengths@, before, id);
        find_name_finds(before, id);
    }
    match lengths.position(id) {
        Some(position) => {
            let next = lengths.value_at(position).next();
            let _ = lengths.replace(position, next);
            assert(lengths_of(lengths@) =~= with_entry(before, id, value_of(before, id)->Some_0 + 1));
            true
        },
        None => false,
    }
}

/// Adds a reward to those under an id.
fn add_reward<N: Copy>(rewards: &mut IdMap<Vec<N>>, id: usize, reward: N) -> (result: bool)
    ensures
        result == has_name(rewards_of(old(rewards)@), id),
        rewards_of(final(rewards)@) == if result {
            with_entry(rewards_of(old(rewards)@), id, value_of(rewards_of(old(rewards)@), id)->Some_0.push(reward))
        } else {
            rewards_of(old(rewards)@)
        },
{
    let ghost before = rewards_of(rewards@);
    proof {
        same_names_same_place(rewards@, before, id);
        find_name_finds(before, id);
    }
    match rewards.position(id) {
        Some(position) => {
            let mut list = rewards.replace(position, Vec::new());
            list.push(reward);
            let _ = rewards.replace(position, list);
            assert(rewards_of(rewards@) =~= with_entry(before, id, value_of(before, id)->Some_0.push(reward)));
            true
        },
        None => false,
    }
}

/// Adds the logs of a step to those under an id.
fn add_logs<N, V>(logs: &mut IdMap<Vec<RlLogContents<N, V>>>, id: usize, contents: RlLogContents<N, V>) -> (result: bool)
    ensures
        result == has_name(logs_of(old(logs)@), id),
        logs_of(final(logs)@) == if result {
            with_entry(logs_of(old(logs)@), id, value_of(logs_of(old(logs)@), id)->Some_0.push(contents@))
        } else {
            logs_of(old(logs)@)
        },
{
    let ghost before = logs_of(logs@);
    let ghost said = contents@;
    proof {
        same_names_same_place(logs@, before, id);
        find_name_finds(before, id);
    }
    match logs.position(id) {
        Some(position) => {
            let mut list = logs.replace(position, Vec::new());
            let ghost earlier = steps_of(list@);
            list.push(contents);
            assert(steps_of(list@) =~= earlier.push(said));
            let _ = logs.replace(position, list);
            assert(logs_of(logs@) =~= with_entry(before, id, value_of(before, id)->Some_0.push(said)));
            true
        },
        None => false,
    }
}

impl<N: Copy, V: Copy> RlLogWriter<N, V> {
    /// What the state holds.
    pub open spec fn model(&self) -> LogModel<N, V> {
        self.state@
    }

    pub fn new(loglevel: i64) -> (result: Self)
        ensures
            result.loglevel == loglevel,
            result.model() == empty_log::<N, V>(),
    {
        RlLogWriter { loglevel, state: RlLogWriterState::default() }
    }

    /// Starts the counters of a collection over.
    pub fn clear(&mut self)
        ensures
            final(self).loglevel == old(self).loglevel,
            final(self).model() == cleared(old(self).model()),
    {
        self.state.episode_count = Integer::zero();
        self.state.step_count = Integer::zero();
        self.state.active_env_ids = IdMap::new();
    }

    pub fn state_dict(&self) -> (result: &RlLogWriterState<N, V>)
        ensures
            result@ == self.model(),
    {
        &self.state
    }

    /// Takes a state over as it is.
    pub fn load_state_dict(&mut self, state: RlLogWriterState<N, V>)
        ensures
            final(self).loglevel == old(self).loglevel,
            final(self).model() == state@,
    {
        self.state = state;
    }

    /// Starts the history of an environment over.
    pub fn on_env_reset(&mut self, id: usize)
        ensures
            final(self).loglevel == old(self).loglevel,
            final(self).model() == after_reset(old(self).model(), id),
    {
        let ghost before = self.state@;
        proof {
            same_names_same_place(self.state.episode_lengths@, before.lengths, id);
            same_names_same_place(self.state.episode_rewards@, before.rewards, id);
            same_names_same_place(self.state.episode_logs@, before.logs, id);
            find_name_finds(before.lengths, id);
            find_name_finds(before.rewards, id);
            find_name_finds(before.logs, id);
        }
        self.state.episode_lengths.insert(id, Integer::zero());
        self.state.episode_rewards.insert(id, Vec::new());
        self.state.episode_logs.insert(id, Vec::new());
        proof {
            assert(steps_of(Seq::<RlLogContents<N, V>>::empty()) =~= Seq::empty());
            assert(self.state@.lengths =~= with_entry(before.lengths, id, 0));
            assert(self.state@.rewards =~= with_entry(before.rewards, id, Seq::<N>::empty()));
            assert(self.state@.logs =~= with_entry(before.logs, id, Seq::empty()));
        }
    }

    /// Records a step. Once this succeeds the hooks are told of the step, and then
    /// [`Self::on_env_end`] is due if the episode is done. A failure keeps what was recorded
    /// before it.
    pub fn on_env_step(&mut self, id: usize, reward: N, logs: Option<&RlLeveledLogs<N, V>>) -> (result: Result<
        (),
        RlLogError,
    >)
        ensures
            final(self).loglevel == old(self).loglevel,
            final(self).model() == after_step(
                old(self).model(),
                id,
                reward,
                match logs {
                    Some(offered) => Some(offered@),
                    None => None,
                },
                old(self).loglevel,
            ),
            match step_failure(
                old(self).model(),
                id,
                match logs {
                    Some(offered) => Some(offered@),
                    None => None,
                },
            ) {
                Some(failure) => result is Err && is_step_failure(result->Err_0, failure, id),
                None => result is Ok,
            },
    {
        self.state.global_step = self.state.global_step.next();
        self.state.step_count = self.state.step_count.next();
        self.state.active_env_ids.insert(id, ());
        if !grow_length(&mut self.state.episode_lengths, id) {
            return Err(RlLogError::Uninitialized { id, field: RlEpisodeField::Length });
        }
        if !add_reward(&mut self.state.episode_rewards, id, reward) {
            return Err(RlLogError::Uninitialized { id, field: RlEpisodeField::Rewards });
        }
        let contents = match logs {
            Some(offered) => keep(offered, self.loglevel),
            None => return Err(RlLogError::MissingLog),
        };
        if !add_logs(&mut self.state.episode_logs, id, contents) {
            return Err(RlLogError::Uninitialized { id, field: RlEpisodeField::Logs });
        }
        Ok(())
    }

    /// Counts an episode that ended. The hooks are told of it next.
    pub fn on_env_end(&mut self)
        ensures
            final(self).loglevel == old(self).loglevel,
            final(self).model() == after_episode(old(self).model()),
    {
        self.state.global_episode = self.state.global_episode.next();
        self.state.episode_count = self.state.episode_count.next();
    }

    /// Records what a backend sent of a step: the reward must be there before anything is
    /// recorded.
    pub fn on_step(&mut self, id: usize, reward: Option<N>, logs: Option<&RlLeveledLogs<N, V>>) -> (result: Result<
        (),
        RlLogError,
    >)
        ensures
            final(self).loglevel == old(self).loglevel,
            match reward {
                None => final(self).model() == old(self).model() && result == Err::<(), _>(RlLogError::MissingReward),
                Some(value) => {
                    let offered = match logs {
                        Some(offered) => Some(offered@),
                        None => None,
                    };
                    &&& final(self).model() == after_step(old(self).model(), id, value, offered, old(self).loglevel)
                    &&& match step_failure(old(self).model(), id, offered) {
                        Some(failure) => result is Err && is_step_failure(result->Err_0, failure, id),
                        None => result is Ok,
                    }
                },
            },
    {
        match reward {
            Some(value) => self.on_env_step(id, value, logs),
            None => Err(RlLogError::MissingReward),
        }
    }
}

// ---- aggregation ------------------------------------------------------------------------------

/// What a series of floats aggregates to: their sum under the name `reward`, else their mean.
pub open spec fn aggregated<N: LogNumber>(values: Seq<N>, rewards: bool) -> N {
    if rewards {
        N::array_sum_spec(values)
    } else {
        N::array_sum_spec(values).over_spec(N::count_spec(values.len()))
    }
}

fn aggregate_floats<N: LogNumber>(values: &Vec<N>, name: Option<&str>) -> (result: N)
    requires
        values@.len() > 0,
    ensures
        result == aggregated(values@, name is Some && name->Some_0@ == "reward"@),
{
    let total: N = N::array_sum(values);
    let rewards = match name {
        Some(text) => same_text(text, "reward"),
        None => false,
    };
    if rewards {
        total
    } else {
        total.over(N::count(values.len()))
    }
}

/// Whether all values are floats.
pub open spec fn all_floats<N, V>(values: Seq<RlLogValue<N, V>>) -> bool {
    forall|i: int| 0 <= i < values.len() ==> (#[trigger] values[i]) is Float
}

/// The floats of a series that holds only floats.
pub open spec fn floats_in<N, V>(values: Seq<RlLogValue<N, V>>) -> Seq<N> {
    values.map_values(|value: RlLogValue<N, V>| value->Float_0)
}

/// Aggregates a series: floats to their mean (or their sum under the name `reward`), a series with
/// anything else in it to its first value.
pub fn aggregate_rl_logs<N: LogNumber, V: Copy>(values: &[RlLogValue<N, V>], name: Option<&str>) -> (result: Result<
    RlLogValue<N, V>,
    RlLogError,
>)
    ensures
        if values@.len() == 0 {
            result == Err::<RlLogValue<N, V>, _>(RlLogError::EmptyAggregation)
        } else if all_floats(values@) {
            result == Ok::<_, RlLogError>(
                RlLogValue::<N, V>::Float(
                    aggregated(floats_in(values@), name is Some && name->Some_0@ == "reward"@),
                ),
            )
        } else {
            result == Ok::<_, RlLogError>(values@[0])
        },
{
    if values.len() == 0 {
        return Err(RlLogError::EmptyAggregation);
    }
    let mut floats: Vec<N> = Vec::new();
    let mut i: usize = 0;
    while i < values.len()
        invariant
            i <= values@.len(),
            values@.len() > 0,
            floats@ == floats_in(values@).take(i as int),
            forall|j: int| 0 <= j < i ==> (#[trigger] values@[j]) is Float,
        decreases values@.len() - i,
    {
        match values[i] {
            RlLogValue::Float(value) => {
                floats.push(value);
                assert(floats@ =~= floats_in(values@).take(i + 1));
            },
            RlLogValue::Other(_) => {
                assert(!(values@[i as int] is Float));
                return Ok(values[0]);
            },
        }
        i += 1;
    }
    assert(floats@ =~= floats_in(values@));
    Ok(RlLogValue::Float(aggregate_floats(&floats, name)))
}

/// The state of a buffer of metrics.
pub struct RlLogBufferState<N> {
    /// The metrics of the episode that ended last.
    pub latest_metrics: Option<OrderedMap<N>>,
    /// The sums of the metrics of all episodes.
    pub aggregated_metrics: OrderedMap<N>,
}

/// What a buffer holds.
pub struct BufferModel<N> {
    pub latest: Option<Seq<(Seq<char>, N)>>,
    pub totals: Seq<(Seq<char>, N)>,
}

impl<N> View for RlLogBufferState<N> {
    type V = BufferModel<N>;

    open spec fn view(&self) -> BufferModel<N> {
        BufferModel {
            latest: match self.latest_metrics {
                Some(metrics) => Some(metrics@),
                None => None,
            },
            totals: self.aggregated_metrics@,
        }
    }
}

/// A buffer that holds nothing.
pub open spec fn empty_buffer<N>() -> BufferModel<N> {
    BufferModel { latest: None, totals: Seq::empty() }
}

/// The floats that one step logged, by name.
pub open spec fn step_floats<N, V>(contents: ContentsModel<N, V>) -> Seq<(Seq<char>, N)>
    decreases contents.len(),
{
    if contents.len() == 0 {
        Seq::empty()
    } else {
        match contents.last().1 {
            RlLogValue::Float(value) => step_floats(contents.drop_last()).push((contents.last().0, value)),
            RlLogValue::Other(_) => step_floats(contents.drop_last()),
        }
    }
}

/// The floats that an episode logged, in order.
pub open spec fn episode_floats<N, V>(steps: Seq<ContentsModel<N, V>>) -> Seq<(Seq<char>, N)>
    decreases steps.len(),
{
    if steps.len() == 0 {
        Seq::empty()
    } else {
        episode_floats(steps.drop_last()) + step_floats(steps.last())
    }
}

/// Groups with one value more.
pub open spec fn group_joined<N>(groups: Seq<(Seq<char>, Seq<N>)>, name: Seq<char>, value: N) -> Seq<
    (Seq<char>, Seq<N>),
> {
    with_entry(
        groups,
        name,
        match value_of(groups, name) {
            Some(values) => values.push(value),
            None => seq![value],
        },
    )
}

/// Values grouped by name, the names in the order in which they first came up.
pub open spec fn grouped<N>(values: Seq<(Seq<char>, N)>) -> Seq<(Seq<char>, Seq<N>)>
    decreases values.len(),
{
    if values.len() == 0 {
        Seq::empty()
    } else {
        group_joined(grouped(values.drop_last()), values.last().0, values.last().1)
    }
}

/// What the groups aggregate to.
pub open spec fn group_metrics<N: LogNumber>(groups: Seq<(Seq<char>, Seq<N>)>) -> Seq<(Seq<char>, N)> {
    Seq::new(groups.len(), |i: int| (groups[i].0, aggregated(groups[i].1, groups[i].0 == "reward"@)))
}

/// The metrics of an episode.
pub open spec fn episode_totals<N: LogNumber, V>(steps: Seq<ContentsModel<N, V>>) -> Seq<(Seq<char>, N)> {
    group_metrics(grouped(episode_floats(steps)))
}

/// Totals with a value added under a name.
pub open spec fn total_raised<N: LogNumber>(totals: Seq<(Seq<char>, N)>, name: Seq<char>, value: N) -> Seq<
    (Seq<char>, N),
> {
    with_entry(
        totals,
        name,
        match value_of(totals, name) {
            Some(total) => total.plus_spec(value),
            None => N::zero_spec().plus_spec(value),
        },
    )
}

/// Totals with several values added.
pub open spec fn totals_raised<N: LogNumber>(totals: Seq<(Seq<char>, N)>, metrics: Seq<(Seq<char>, N)>) -> Seq<
    (Seq<char>, N),
>
    decreases metrics.len(),
{
    if metrics.len() == 0 {
        totals
    } else {
        total_raised(totals_raised(totals, metrics.drop_last()), metrics.last().0, metrics.last().1)
    }
}

/// A buffer after an episode.
pub open spec fn episode_buffered<N: LogNumber, V>(buffer: BufferModel<N>, steps: Seq<ContentsModel<N, V>>) -> BufferModel<N> {
    BufferModel {
        latest: Some(episode_totals(steps)),
        totals: totals_raised(buffer.totals, episode_totals(steps)),
    }
}

/// Groups of values by the contents of their lists.
pub open spec fn groups_of<N>(entries: Seq<(Seq<char>, Vec<N>)>) -> Seq<(Seq<char>, Seq<N>)> {
    Seq::new(entries.len(), |i: int| (entries[i].0, entries[i].1@))
}

fn join_group<N: Copy>(groups: &mut OrderedMap<Vec<N>>, name: &String, value: N)
    ensures
        groups_of(final(groups)@) == group_joined(groups_of(old(groups)@), name@, value),
{
    let ghost before = groups_of(groups@);
    proof {
        same_names_same_place(groups@, before, name@);
        find_name_finds(before, name@);
    }
    match groups.position(name.as_str()) {
        Some(position) => {
            let mut list = groups.replace(position, Vec::new());
            list.push(value);
            let _ = groups.replace(position, list);
        },
        None => {
            let mut list: Vec<N> = Vec::new();
            list.push(value);
            assert(list@ =~= seq![value]);
            groups.insert(name.clone(), list);
        },
    }
    assert(groups_of(groups@) =~= group_joined(before, name@, value));
}

proof fn grouped_joins<N>(values: Seq<(Seq<char>, N)>, name: Seq<char>, value: N)
    ensures
        grouped(values.push((name, value))) == group_joined(grouped(values), name, value),
{
    assert(values.push((name, value)).drop_last() =~= values);
}

fn join_step<N: Copy, V: Copy>(groups: &mut OrderedMap<Vec<N>>, step: &RlLogContents<N, V>, Ghost(before): Ghost<Seq<(Seq<char>, N)>>)
    requires
        groups_of(old(groups)@) == grouped(before),
    ensures
        groups_of(final(groups)@) == grouped(before + step_floats(step@)),
{
    let length: usize = step.len();
    let mut i: usize = 0;
    proof {
        assert(step@.take(0) =~= Seq::empty());
        assert(before + step_floats(step@.take(0)) =~= before);
    }
    while i < length
        invariant
            i <= length,
            length == step@.len(),
            groups_of(groups@) == grouped(before + step_floats(step@.take(i as int))),
        decreases length - i,
    {
        let ghost floats = step_floats(step@.take(i as int));
        proof {
            assert(step@.take(i + 1).drop_last() =~= step@.take(i as int));
            assert(step@.take(i + 1).last() == step@[i as int]);
        }
        match step.value_at(i) {
            RlLogValue::Float(value) => {
                join_group(groups, step.name_at(i), *value);
                proof {
                    let name = step@[i as int].0;
                    grouped_joins(before + floats, name, *value);
                    assert((before + floats).push((name, *value)) =~= before + floats.push((name, *value)));
                }
            },
            RlLogValue::Other(_) => {},
        }
        i += 1;
    }
    assert(step@.take(i as int) =~= step@);
}

/// No group is empty, and no name has two groups.
proof fn groups_are_sound<N>(values: Seq<(Seq<char>, N)>)
    ensures
        distinct_names(grouped(values)),
        forall|i: int| 0 <= i < grouped(values).len() ==> (#[trigger] grouped(values)[i]).1.len() > 0,
    decreases values.len(),
{
    if values.len() > 0 {
        groups_are_sound(values.drop_last());
        let shorter = grouped(values.drop_last());
        let name = values.last().0;
        find_name_finds(shorter, name);
        crate::ordered::with_entry_distinct(
            shorter,
            name,
            match value_of(shorter, name) {
                Some(list) => list.push(values.last().1),
                None => seq![values.last().1],
            },
        );
    }
}

fn raise_total<N: LogNumber>(totals: &mut OrderedMap<N>, name: &String, value: N)
    ensures
        final(totals)@ == total_raised(old(totals)@, name@, value),
{
    let raised: N = match totals.get(name.as_str()) {
        Some(total) => total.plus(value),
        None => N::zero().plus(value),
    };
    totals.insert(name.clone(), raised);
}

impl<N: LogNumber> RlLogBufferState<N> {
    /// A buffer that holds nothing.
    pub fn new() -> (result: Self)
        ensures
            result@ == empty_buffer::<N>(),
    {
        RlLogBufferState { latest_metrics: None, aggregated_metrics: OrderedMap::new() }
    }

    /// The metrics of the episode that ended last.
    pub fn episode_metrics(&self) -> (result: Result<&OrderedMap<N>, RlLogError>)
        ensures
            match self@.latest {
                Some(metrics) => result matches Ok(found) && found@ == metrics,
                None => result == Err::<&OrderedMap<N>, _>(RlLogError::NoEpisodeMetrics),
            },
    {
        match &self.latest_metrics {
            Some(metrics) => Ok(metrics),
            None => Err(RlLogError::NoEpisodeMetrics),
        }
    }

    /// The means of the metrics over all episodes, also those that did not log a metric.
    pub fn collect_metrics(&self, episode_count: &Integer) -> (result: Result<OrderedMap<N>, RlLogError>)
        ensures
            if self@.totals.len() == 0 {
                result matches Ok(metrics) && metrics@ == Seq::<(Seq<char>, N)>::empty()
            } else {
                match N::of_integer_spec(episode_count@) {
                    Some(count) => if count.finite() {
                        result matches Ok(metrics) && metrics@ == means_of(self@.totals, count)
                    } else {
                        result matches Err(RlLogError::EpisodeCountNotRepresentable(number)) && number@ == episode_count@
                    },
                    None => result matches Err(RlLogError::EpisodeCountNotRepresentable(number)) && number@
                        == episode_count@,
                }
            },
    {
        let mut metrics: OrderedMap<N> = OrderedMap::new();
        let length: usize = self.aggregated_metrics.len();
        if length == 0 {
            return Ok(metrics);
        }
        let count: N = match N::of_integer(episode_count) {
            Some(count) => if count.is_finite() {
                count
            } else {
                return Err(RlLogError::EpisodeCountNotRepresentable(episode_count.copied()));
            },
            None => return Err(RlLogError::EpisodeCountNotRepresentable(episode_count.copied())),
        };
        let ghost means = means_of(self@.totals, count);
        let mut i: usize = 0;
        assert(means.take(0) =~= Seq::<(Seq<char>, N)>::empty());
        while i < length
            invariant
                i <= length,
                length == self.aggregated_metrics@.len(),
                means == means_of(self@.totals, count),
                metrics@ == with_entries(Seq::empty(), means.take(i as int)),
            decreases length - i,
        {
            let name = self.aggregated_metrics.name_at(i).clone();
            let value: N = self.aggregated_metrics.value_at(i).over(count);
            proof {
                with_entries_push(Seq::empty(), means.take(i as int), name@, value);
                assert(means.take(i + 1) =~= means.take(i as int).push((name@, value)));
            }
            metrics.insert(name, value);
            i += 1;
        }
        proof {
            assert(means.take(i as int) =~= means);
            distinct_entries_stand(means);
        }
        Ok(metrics)
    }

    /// Takes in an episode: floats grouped by name, each group aggregated. The callback for the
    /// episode is due next.
    pub fn log_episode<V: Copy>(&mut self, contents: &Vec<RlLogContents<N, V>>)
        ensures
            final(self)@ == episode_buffered(old(self)@, steps_of(contents@)),
    {
        let mut groups: OrderedMap<Vec<N>> = OrderedMap::new();
        let mut i: usize = 0;
        let ghost steps = steps_of(contents@);
        proof {
            assert(steps.take(0) =~= Seq::empty());
            assert(groups_of(groups@) =~= Seq::empty());
        }
        while i < contents.len()
            invariant
                i <= contents@.len(),
                steps == steps_of(contents@),
                groups_of(groups@) == grouped(episode_floats(steps.take(i as int))),
            decreases contents@.len() - i,
        {
            proof {
                assert(steps.take(i + 1).drop_last() =~= steps.take(i as int));
                assert(steps.take(i + 1).last() == contents@[i as int]@);
            }
            join_step(&mut groups, &contents[i], Ghost(episode_floats(steps.take(i as int))));
            i += 1;
        }
        assert(steps.take(i as int) =~= steps);
        let ghost totals = self.aggregated_metrics@;
        let ghost metrics = episode_totals(steps);
        let mut latest: OrderedMap<N> = OrderedMap::new();
        let length: usize = groups.len();
        let mut k: usize = 0;
        proof {
            groups_are_sound(episode_floats(steps));
            assert(metrics.take(0) =~= Seq::<(Seq<char>, N)>::empty());
        }
        while k < length
            invariant
                k <= length,
                length == groups@.len(),
                groups_of(groups@) == grouped(episode_floats(steps)),
                forall|i: int| 0 <= i < length ==> (#[trigger] groups_of(groups@)[i]).1.len() > 0,
                metrics == group_metrics(groups_of(groups@)),
                latest@ == with_entries(Seq::empty(), metrics.take(k as int)),
                self.aggregated_metrics@ == totals_raised(totals, metrics.take(k as int)),
            decreases length - k,
        {
            let name = groups.name_at(k).clone();
            assert(groups_of(groups@)[k as int].1.len() > 0);
            let value: N = aggregate_floats(groups.value_at(k), Some(name.as_str()));
            raise_total(&mut self.aggregated_metrics, &name, value);
            proof {
                assert(metrics[k as int] == (name@, value));
                with_entries_push(Seq::empty(), metrics.take(k as int), name@, value);
                assert(metrics.take(k + 1) =~= metrics.take(k as int).push((name@, value)));
                assert(metrics.take(k + 1).drop_last() =~= metrics.take(k as int));
            }
            latest.insert(name, value);
            k += 1;
        }
        proof {
            assert(metrics.take(k as int) =~= metrics);
            assert(distinct_names(metrics)) by {
                assert forall|i: int, j: int| 0 <= i < j < metrics.len() implies metrics[i].0 != metrics[j].0 by {
                    assert(groups_of(groups@)[i].0 != groups_of(groups@)[j].0);
                }
            }
            distinct_entries_stand(metrics);
        }
        self.latest_metrics = Some(latest);
    }
}

/// Totals divided by a count.
pub open spec fn means_of<N: LogNumber>(totals: Seq<(Seq<char>, N)>, count: N) -> Seq<(Seq<char>, N)> {
    Seq::new(totals.len(), |i: int| (totals[i].0, totals[i].1.over_spec(count)))
}

/// A writer with a buffer of metrics behind it. Where a method gives an event, its owner is called
/// back for it next.
pub struct RlLogBuffer<N, V> {
    writer: RlLogWriter<N, V>,
    buffer: RlLogBufferState<N>,
}

impl<N: LogNumber, V: Copy> RlLogBuffer<N, V> {
    /// What the writer holds.
    pub closed spec fn model(&self) -> LogModel<N, V> {
        self.writer.model()
    }

    /// What the buffer holds.
    pub closed spec fn metrics(&self) -> BufferModel<N> {
        self.buffer@
    }

    pub closed spec fn level(&self) -> i64 {
        self.writer.loglevel
    }

    pub fn new_buffer(loglevel: i64) -> (result: Self)
        ensures
            result.level() == loglevel,
            result.model() == empty_log::<N, V>(),
            result.metrics() == empty_buffer::<N>(),
    {
        RlLogBuffer { writer: RlLogWriter::new(loglevel), buffer: RlLogBufferState::new() }
    }

    pub fn buffer_state(&self) -> (result: &RlLogBufferState<N>)
        ensures
            result@ == self.metrics(),
    {
        &self.buffer
    }

    pub fn state_dict(&self) -> (result: &RlLogWriterState<N, V>)
        ensures
            result@ == self.model(),
    {
        self.writer.state_dict()
    }

    /// Takes both states over as they are.
    pub fn load_buffer_state(&mut self, buffer: RlLogBufferState<N>, writer: RlLogWriterState<N, V>)
        ensures
            final(self).level() == old(self).level(),
            final(self).model() == writer@,
            final(self).metrics() == buffer@,
    {
        self.buffer = buffer;
        self.writer.load_state_dict(writer);
    }

    /// Starts a collection over: the metrics go too.
    pub fn clear(&mut self)
        ensures
            final(self).level() == old(self).level(),
            final(self).model() == cleared(old(self).model()),
            final(self).metrics() == empty_buffer::<N>(),
    {
        self.writer.clear();
        self.buffer = RlLogBufferState::new();
    }

    pub fn on_env_reset(&mut self, id: usize)
        ensures
            final(self).level() == old(self).level(),
            final(self).model() == after_reset(old(self).model(), id),
            final(self).metrics() == old(self).metrics(),
    {
        self.writer.on_env_reset(id);
    }

    /// Records a step, and the episode if it is done.
    pub fn on_env_step(&mut self, id: usize, reward: N, done: bool, logs: Option<&RlLeveledLogs<N, V>>) -> (result: Result<
        Option<RlLogBufferEvent>,
        RlLogError,
    >)
        ensures
            final(self).level() == old(self).level(),
            ({
                let offered = match logs {
                    Some(offered) => Some(offered@),
                    None => None,
                };
                let stepped = after_step(old(self).model(), id, reward, offered, old(self).level());
                match step_failure(old(self).model(), id, offered) {
                    Some(failure) => {
                        &&& result is Err && is_step_failure(result->Err_0, failure, id)
                        &&& final(self).model() == stepped
                        &&& final(self).metrics() == old(self).metrics()
                    },
                    None => if done {
                        &&& result == Ok::<_, RlLogError>(Some(RlLogBufferEvent::Episode))
                        &&& final(self).model() == after_episode(stepped)
                        &&& final(self).metrics() == episode_buffered(
                            old(self).metrics(),
                            value_of(stepped.logs, id)->Some_0,
                        )
                    } else {
                        &&& result == Ok::<_, RlLogError>(None::<RlLogBufferEvent>)
                        &&& final(self).model() == stepped
                        &&& final(self).metrics() == old(self).metrics()
                    },
                }
            }),
    {
        let ghost offered = match logs {
            Some(offered) => Some(offered@),
            None => None,
        };
        let ghost before = self.writer.model();
        match self.writer.on_env_step(id, reward, logs) {
            Ok(()) => {},
            Err(error) => return Err(error),
        }
        if !done {
            return Ok(None);
        }
        let ghost stepped = self.writer.model();
        self.writer.on_env_end();
        proof {
            let rewarded = reward_added(length_grown(step_counted(before, id), id), id, reward);
            let said = kept(offered->Some_0, self.writer.loglevel);
            crate::ordered::read_after_write(rewarded.logs, id, value_of(rewarded.logs, id)->Some_0.push(said));
            same_names_same_place(self.writer.state.episode_logs@, stepped.logs, id);
            find_name_finds(stepped.logs, id);
        }
        match self.writer.state.episode_logs.get(id) {
            Some(contents) => {
                self.buffer.log_episode(contents);
            },
            None => {},
        }
        Ok(Some(RlLogBufferEvent::Episode))
    }

    /// The event at the end of a collection.
    pub fn on_env_all_done(&self) -> (result: RlLogBufferEvent)
        ensures
            result == RlLogBufferEvent::Collect,
    {
        RlLogBufferEvent::Collect
    }
}

/// The error of a callback that failed.
pub fn callback_failure(event: RlLogBufferEvent, message: String) -> (result: RlLogError)
    ensures
        result == (RlLogError::Callback { event, message }),
{
    RlLogError::Callback { event, message }
}

/// An environment that was reset takes a step with logs, whatever was recorded before.
pub proof fn reset_environments_take_steps<N, V>(
    state: LogModel<N, V>,
    id: usize,
    logs: Seq<(Seq<char>, RlLogEntry<N, V>)>,
)
    ensures
        step_failure(after_reset(state, id), id, Some(logs)) is None,
{
    crate::ordered::read_after_write(state.lengths, id, 0int);
    crate::ordered::read_after_write(state.rewards, id, Seq::<N>::empty());
    crate::ordered::read_after_write(state.logs, id, Seq::<ContentsModel<N, V>>::empty());
}

/// A clear keeps the global counters and the histories of the episodes under way.
pub proof fn clear_keeps_histories<N, V>(state: LogModel<N, V>)
    ensures
        cleared(state).global_step == state.global_step,
        cleared(state).global_episode == state.global_episode,
        cleared(state).lengths == state.lengths,
        cleared(state).rewards == state.rewards,
        cleared(state).logs == state.logs,
        cleared(cleared(state)) == cleared(state),
{
}

/// A step counts and keeps the other environments' histories, whether it is recorded or fails.
pub proof fn steps_touch_one_environment<N, V>(
    state: LogModel<N, V>,
    id: usize,
    reward: N,
    logs: Option<Seq<(Seq<char>, RlLogEntry<N, V>)>>,
    level: i64,
    other: usize,
)
    requires
        other != id,
    ensures
        ({
            let after = after_step(state, id, reward, logs, level);
            &&& after.global_step == state.global_step + 1
            &&& after.step_count == state.step_count + 1
            &&& value_of(after.lengths, other) == value_of(state.lengths, other)
            &&& value_of(after.rewards, other) == value_of(state.rewards, other)
            &&& value_of(after.logs, other) == value_of(state.logs, other)
        }),
{
    let counted = step_counted(state, id);
    let grown = length_grown(counted, id);
    let rewarded = reward_added(grown, id, reward);
    crate::ordered::write_keeps_others(
        counted.lengths,
        id,
        value_of(counted.lengths, id)->Some_0 + 1,
        other,
    );
    crate::ordered::write_keeps_others(
        grown.rewards,
        id,
        value_of(grown.rewards, id)->Some_0.push(reward),
        other,
    );
    if logs is Some {
        crate::ordered::write_keeps_others(
            rewarded.logs,
            id,
            value_of(rewarded.logs, id)->Some_0.push(kept(logs->Some_0, level)),
            other,
        );
    }
}

/// Logged floats add up under the name `reward`; under any other name they come to their mean, which
/// times their number is what they add up to.
pub proof fn rewards_add_up_and_others_average<V: Copy>(
    values: &[RlLogValue<Ticks, V>],
    name: Option<&str>,
    result: Result<RlLogValue<Ticks, V>, RlLogError>,
    floats: Seq<Ticks>,
)
    requires
        call_ensures(aggregate_rl_logs::<Ticks, V>, (values, name), result),
        values@.len() > 0,
        floats.len() == values@.len(),
        forall|i: int| 0 <= i < values@.len() ==> #[trigger] values@[i] == RlLogValue::<Ticks, V>::Float(floats[i]),
    ensures
        result matches Ok(RlLogValue::Float(float)) && (float.0 is Some ==> if name is Some && name->Some_0@ == "reward"@ {
            held(float) == total(floats)
        } else {
            held(float) * floats.len() == total(floats)
        }),
{
    assert(floats_in(values@) =~= floats);
    assert(all_floats(values@));
    let sum = sum_of(floats);
    if result->Ok_0->Float_0.0 is Some {
        if !(name is Some && name->Some_0@ == "reward"@) {
            quotients_undo(sum, Ticks::count_spec(floats.len()));
        }
        sums_are_totals(floats);
    }
}

/// A series with anything but floats in it comes to its first value.
pub proof fn mixed_series_keep_their_first<N: LogNumber, V: Copy>(
    values: &[RlLogValue<N, V>],
    name: Option<&str>,
    result: Result<RlLogValue<N, V>, RlLogError>,
    place: int,
)
    requires
        call_ensures(aggregate_rl_logs::<N, V>, (values, name), result),
        0 <= place < values@.len(),
        values@[place] is Other,
    ensures
        result == Ok::<RlLogValue<N, V>, RlLogError>(values@[0]),
{
    assert(!all_floats(values@));
}

/// What an episode logged under a name.
pub open spec fn logged<N, V>(steps: Seq<ContentsModel<N, V>>, name: Seq<char>) -> Seq<N>
    decreases steps.len(),
{
    if steps.len() == 0 {
        Seq::empty()
    } else {
        match value_of(steps.last(), name) {
            Some(RlLogValue::Float(value)) => logged(steps.drop_last(), name).push(value),
            _ => logged(steps.drop_last(), name),
        }
    }
}

spec fn under<N>(values: Seq<(Seq<char>, N)>, name: Seq<char>) -> Seq<N>
    decreases values.len(),
{
    if values.len() == 0 {
        Seq::empty()
    } else if values.last().0 == name {
        under(values.drop_last(), name).push(values.last().1)
    } else {
        under(values.drop_last(), name)
    }
}

proof fn under_joins<N>(left: Seq<(Seq<char>, N)>, right: Seq<(Seq<char>, N)>, name: Seq<char>)
    ensures
        under(left + right, name) == under(left, name) + under(right, name),
    decreases right.len(),
{
    if right.len() == 0 {
        assert(left + right =~= left);
        assert(under(left, name) + under(right, name) =~= under(left, name));
    } else {
        under_joins(left, right.drop_last(), name);
        assert((left + right).drop_last() =~= left + right.drop_last());
        assert(under(left + right, name) =~= under(left, name) + under(right, name));
    }
}

proof fn steps_log_a_name_once<N, V>(contents: ContentsModel<N, V>, name: Seq<char>)
    requires
        distinct_names(contents),
    ensures
        under(step_floats(contents), name) == match value_of(contents, name) {
            Some(RlLogValue::Float(value)) => seq![value],
            _ => Seq::empty(),
        },
    decreases contents.len(),
{
    find_name_finds(contents, name);
    if contents.len() > 0 {
        let fewer = contents.drop_last();
        assert(distinct_names(fewer)) by {
            assert forall|i: int, j: int| 0 <= i < j < fewer.len() implies fewer[i].0 != fewer[j].0 by {
                assert(contents[i].0 != contents[j].0);
            }
        }
        steps_log_a_name_once(fewer, name);
        find_name_finds(fewer, name);
        let last = contents.len() - 1;
        if contents[last].0 == name {
            if value_of(fewer, name) is Some {
                let k = crate::ordered::find_name(fewer, name)->Some_0;
                assert(contents[k].0 != contents[last].0);
            }
            match contents[last].1 {
                RlLogValue::Float(value) => {
                    let floats = step_floats(fewer).push((contents.last().0, value));
                    assert(floats.drop_last() =~= step_floats(fewer));
                    assert(under(floats, name) =~= seq![value]);
                },
                RlLogValue::Other(_) => {},
            }
        } else {
            match contents[last].1 {
                RlLogValue::Float(value) => {
                    let floats = step_floats(fewer).push((contents.last().0, value));
                    assert(floats.drop_last() =~= step_floats(fewer));
                },
                RlLogValue::Other(_) => {},
            }
        }
    }
}

proof fn episodes_log_step_by_step<N, V>(steps: Seq<ContentsModel<N, V>>, name: Seq<char>)
    requires
        forall|i: int| 0 <= i < steps.len() ==> distinct_names(#[trigger] steps[i]),
    ensures
        under(episode_floats(steps), name) == logged(steps, name),
    decreases steps.len(),
{
    if steps.len() > 0 {
        let fewer = steps.drop_last();
        assert forall|i: int| 0 <= i < fewer.len() implies distinct_names(#[trigger] fewer[i]) by {
            assert(distinct_names(steps[i]));
        }
        episodes_log_step_by_step(fewer, name);
        under_joins(episode_floats(fewer), step_floats(steps.last()), name);
        assert(distinct_names(steps[steps.len() - 1]));
        steps_log_a_name_once(steps.last(), name);
        assert(under(episode_floats(steps), name) =~= logged(steps, name));
    }
}

proof fn groups_hold_their_values<N>(values: Seq<(Seq<char>, N)>, name: Seq<char>)
    ensures
        value_of(grouped(values), name) == if under(values, name).len() == 0 {
            None
        } else {
            Some(under(values, name))
        },
    decreases values.len(),
{
    if values.len() > 0 {
        let fewer = values.drop_last();
        let (last, value) = values.last();
        groups_hold_their_values(fewer, name);
        let list = match value_of(grouped(fewer), last) {
            Some(list) => list.push(value),
            None => seq![value],
        };
        if last == name {
            crate::ordered::read_after_write(grouped(fewer), last, list);
            assert(list =~= under(values, name));
        } else {
            crate::ordered::write_keeps_others(grouped(fewer), last, list, name);
        }
    }
}

/// The metrics of an episode are those of the floats that it logged: under the name `reward` what they
/// add up to, under any other name their mean. A name under which no float was logged has none.
pub proof fn episodes_are_summed_up<V: Copy>(
    buffer: &mut RlLogBufferState<Ticks>,
    contents: Vec<RlLogContents<Ticks, V>>,
    name: Seq<char>,
)
    requires
        call_ensures(RlLogBufferState::<Ticks>::log_episode::<V>, (buffer, &contents), ()),
        forall|i: int| 0 <= i < contents@.len() ==> distinct_names((#[trigger] contents@[i])@),
        distinct_names(old(buffer)@.totals),
    ensures
        final(buffer)@.latest is Some,
        ({
            let floats = logged(steps_of(contents@), name);
            let metric = value_of(final(buffer)@.latest->Some_0, name);
            let before = value_of(old(buffer)@.totals, name);
            let after = value_of(final(buffer)@.totals, name);
            &&& metric is None <==> floats.len() == 0
            &&& metric is Some && metric->Some_0.0 is Some ==> if name == "reward"@ {
                held(metric->Some_0) == total(floats)
            } else {
                held(metric->Some_0) * floats.len() == total(floats)
            }
            &&& metric is None ==> after == before
            &&& metric is Some && before is None ==> after == metric
            &&& metric is Some && before is Some && after->Some_0.0 is Some ==> after is Some && held(after->Some_0)
                == held(before->Some_0) + held(metric->Some_0)
        }),
{
    let steps = steps_of(contents@);
    let floats = logged(steps, name);
    assert forall|i: int| 0 <= i < steps.len() implies distinct_names(#[trigger] steps[i]) by {
        assert(distinct_names(contents@[i]@));
    }
    episodes_log_step_by_step(steps, name);
    let groups = grouped(episode_floats(steps));
    let metrics = group_metrics(groups);
    groups_hold_their_values(episode_floats(steps), name);
    groups_are_sound(episode_floats(steps));
    find_name_finds(groups, name);
    crate::ordered::same_names_same_place(groups, metrics, name);
    assert forall|i: int, j: int| 0 <= i < j < metrics.len() implies metrics[i].0 != metrics[j].0 by {
        assert(groups[i].0 != groups[j].0);
    }
    totals_rise_by_metrics(old(buffer)@.totals, metrics, name);
    if floats.len() > 0 {
        let metric = value_of(metrics, name)->Some_0;
        assert(metric == aggregated(floats, name == "reward"@));
        let sum = sum_of(floats);
        if metric.0 is Some {
            if name != "reward"@ {
                quotients_undo(sum, Ticks::count_spec(floats.len()));
            }
            sums_are_totals(floats);
        }
    }
}

proof fn totals_rise_by_metrics(totals: Seq<(Seq<char>, Ticks)>, metrics: Seq<(Seq<char>, Ticks)>, name: Seq<char>)
    requires
        distinct_names(metrics),
    ensures
        value_of(totals_raised(totals, metrics), name) == match (value_of(totals, name), value_of(metrics, name)) {
            (before, None) => before,
            (None, Some(metric)) => Some(Ticks(Some(0)).plus_spec(metric)),
            (Some(before), Some(metric)) => Some(before.plus_spec(metric)),
        },
    decreases metrics.len(),
{
    find_name_finds(metrics, name);
    if metrics.len() > 0 {
        let fewer = metrics.drop_last();
        assert(distinct_names(fewer)) by {
            assert forall|i: int, j: int| 0 <= i < j < fewer.len() implies fewer[i].0 != fewer[j].0 by {
                assert(metrics[i].0 != metrics[j].0);
            }
        }
        totals_rise_by_metrics(totals, fewer, name);
        find_name_finds(fewer, name);
        let (last, metric) = metrics.last();
        let raised = totals_raised(totals, fewer);
        let value = match value_of(raised, last) {
            Some(total) => total.plus_spec(metric),
            None => Ticks(Some(0)).plus_spec(metric),
        };
        if last == name {
            if value_of(fewer, name) is Some {
                let k = crate::ordered::find_name(fewer, name)->Some_0;
                assert(metrics[k].0 != metrics[metrics.len() - 1].0);
            }
            crate::ordered::read_after_write(raised, last, value);
        } else {
            crate::ordered::write_keeps_others(raised, last, value, name);
        }
    }
}

/// What is collected over several episodes is the mean of each metric: times the number of episodes it
/// is the total.
pub proof fn collected_metrics_are_means(
    buffer: RlLogBufferState<Ticks>,
    episode_count: Integer,
    result: Result<OrderedMap<Ticks>, RlLogError>,
    place: int,
)
    requires
        call_ensures(RlLogBufferState::<Ticks>::collect_metrics, (&buffer, &episode_count), result),
        result is Ok,
    ensures
        result->Ok_0@.len() == buffer@.totals.len(),
        0 <= place < buffer@.totals.len() ==> result->Ok_0@[place].0 == buffer@.totals[place].0,
        0 <= place < buffer@.totals.len() && result->Ok_0@[place].1.0 is Some ==> held(result->Ok_0@[place].1)
            * episode_count@ == held(buffer@.totals[place].1),
{
    if buffer@.totals.len() > 0 {
        let count = Ticks::of_integer_spec(episode_count@)->Some_0;
        if 0 <= place < buffer@.totals.len() && result->Ok_0@[place].1.0 is Some {
            quotients_undo(buffer@.totals[place].1, count);
        }
    }
}

/// What a step keeps of what it is offered: the entries of the level of the writer or above, as they
/// are.
pub proof fn entries_below_the_level_are_dropped<N, V>(
    logs: Seq<(Seq<char>, RlLogEntry<N, V>)>,
    level: i64,
    name: Seq<char>,
)
    requires
        distinct_names(logs),
    ensures
        value_of(kept(logs, level), name) == match value_of(logs, name) {
            Some(entry) => if entry.level < level {
                None
            } else {
                Some(entry.value)
            },
            None => None,
        },
    decreases logs.len(),
{
    find_name_finds(logs, name);
    find_name_finds(kept(logs, level), name);
    if logs.len() > 0 {
        let fewer = logs.drop_last();
        assert(distinct_names(fewer)) by {
            assert forall|i: int, j: int| 0 <= i < j < fewer.len() implies fewer[i].0 != fewer[j].0 by {
                assert(logs[i].0 != logs[j].0);
            }
        }
        entries_below_the_level_are_dropped(fewer, level, name);
        find_name_finds(fewer, name);
        let before = kept(fewer, level);
        find_name_finds(before, name);
        let last = logs.len() - 1;
        if logs[last].0 == name && value_of(fewer, name) is Some {
            let k = crate::ordered::find_name(fewer, name)->Some_0;
            assert(logs[k].0 != logs[last].0);
        }
        if logs.last().1.level >= level {
            let after = before.push((logs.last().0, logs.last().1.value));
            assert(after == kept(logs, level));
            assert(after.drop_last() =~= before);
        }
    }
}

/// A step of an environment that was reset counts one step, lengthens the episode by one, adds the
/// reward and what is kept of the logs, and leaves the episodes alone.
pub proof fn steps_lengthen_their_episode<N: Copy, V: Copy>(
    writer: &mut RlLogWriter<N, V>,
    id: usize,
    reward: N,
    logs: Option<&RlLeveledLogs<N, V>>,
    result: Result<(), RlLogError>,
    other: usize,
)
    requires
        call_ensures(RlLogWriter::<N, V>::on_env_step, (writer, id, reward, logs), result),
        result is Ok,
    ensures
        ({
            let (before, after) = (old(writer).model(), final(writer).model());
            &&& logs is Some
            &&& after.global_step == before.global_step + 1 && after.step_count == before.step_count + 1
            &&& after.global_episode == before.global_episode && after.episode_count == before.episode_count
            &&& value_of(before.lengths, id) is Some && value_of(after.lengths, id) == Some(
                value_of(before.lengths, id)->Some_0 + 1,
            )
            &&& value_of(before.rewards, id) is Some && value_of(after.rewards, id) == Some(
                value_of(before.rewards, id)->Some_0.push(reward),
            )
            &&& value_of(before.logs, id) is Some && value_of(after.logs, id) == Some(
                value_of(before.logs, id)->Some_0.push(kept(logs->Some_0@, old(writer).loglevel)),
            )
            &&& value_of(after.active, id) is Some
            &&& other != id ==> value_of(after.lengths, other) == value_of(before.lengths, other) && value_of(
                after.rewards,
                other,
            ) == value_of(before.rewards, other) && value_of(after.logs, other) == value_of(before.logs, other)
        }),
{
    let before = old(writer).model();
    let offered = logs->Some_0@;
    let length = value_of(before.lengths, id)->Some_0 + 1;
    let rewards = value_of(before.rewards, id)->Some_0.push(reward);
    let contents = value_of(before.logs, id)->Some_0.push(kept(offered, old(writer).loglevel));
    crate::ordered::read_after_write(before.active, id, ());
    crate::ordered::read_after_write(before.lengths, id, length);
    crate::ordered::read_after_write(before.rewards, id, rewards);
    crate::ordered::read_after_write(before.logs, id, contents);
    if other != id {
        crate::ordered::write_keeps_others(before.lengths, id, length, other);
        crate::ordered::write_keeps_others(before.rewards, id, rewards, other);
        crate::ordered::write_keeps_others(before.logs, id, contents, other);
    }
}

} // verus!
