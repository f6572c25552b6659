//! The live state of a trainer and the metrics that flow into it.
use crate::integer::Integer;
use crate::number::Ticks;
use crate::ordered::{
    distinct_names, find_name, find_name_finds, last_entries_are_read_back, value_of, with_entries, with_entries_push,
    OrderedMap,
};
use crate::rl_checkpoint_format::TrainingMetricScalar;
use crate::rl_log_writer::{means_of, BufferModel, LogModel, LogNumber, RlLogBufferEvent, RlLogBufferState, RlLogError, RlLogWriterState};
use crate::text::{append_chars, from_chars, same_text, sentence, to_chars};
use std::sync::Arc;
use vstd::prelude::*;

verus! {

/// Metrics by name.
pub type RlTrainerMetrics<M> = OrderedMap<M>;

/// A value of a metric, of which there can be several that are the same.
pub trait Duplicate: Sized {
    fn duplicate(&self) -> (result: Self)
        ensures
            result == *self,
    ;
}

impl Duplicate for Ticks {
    fn duplicate(&self) -> (result: Self) {
        *self
    }
}

impl<T: Copy> Duplicate for Option<T> {
    fn duplicate(&self) -> (result: Self) {
        *self
    }
}

/// A value that cannot be copied is shared.
impl<T> Duplicate for Arc<T> {
    fn duplicate(&self) -> (result: Self) {
        self.clone()
    }
}

/// What a trainer knows of its run. What is none was not initialized yet.
pub struct RlTrainerState<M> {
    pub should_stop: Option<bool>,
    pub current_iter: Option<Integer>,
    pub current_episode: Option<Integer>,
    pub current_stage: String,
    pub metrics: Option<RlTrainerMetrics<M>>,
}

/// What the state of a trainer holds.
pub struct TrainerModel<M> {
    pub should_stop: Option<bool>,
    pub current_iter: Option<int>,
    pub current_episode: Option<int>,
    pub current_stage: Seq<char>,
    pub metrics: Option<Seq<(Seq<char>, M)>>,
}

/// The number that an integer is, where there is one.
pub open spec fn number_of(value: Option<Integer>) -> Option<int> {
    match value {
        Some(number) => Some(number@),
        None => None,
    }
}

/// The entries of a map, where there is one.
pub open spec fn entries_in<M>(value: Option<OrderedMap<M>>) -> Option<Seq<(Seq<char>, M)>> {
    match value {
        Some(map) => Some(map@),
        None => None,
    }
}

impl<M> View for RlTrainerState<M> {
    type V = TrainerModel<M>;

    open spec fn view(&self) -> TrainerModel<M> {
        TrainerModel {
            should_stop: self.should_stop,
            current_iter: number_of(self.current_iter),
            current_episode: number_of(self.current_episode),
            current_stage: self.current_stage@,
            metrics: entries_in(self.metrics),
        }
    }
}

/// The state of a trainer that did nothing yet.
pub open spec fn fresh_trainer<M>() -> TrainerModel<M> {
    TrainerModel {
        should_stop: None,
        current_iter: None,
        current_episode: None,
        current_stage: "train"@,
        metrics: None,
    }
}

/// The state at the start of a fit: the metrics stay.
pub open spec fn initialized<M>(state: TrainerModel<M>) -> TrainerModel<M> {
    TrainerModel {
        should_stop: Some(false),
        current_iter: Some(0int),
        current_episode: Some(0int),
        current_stage: "train"@,
        ..state
    }
}

/// The state at the start of an iteration.
pub open spec fn iteration_initialized<M>(state: TrainerModel<M>) -> TrainerModel<M> {
    TrainerModel { metrics: Some(Seq::empty()), ..state }
}

/// A part of the state that was needed too early.
#[derive(Clone, Copy, Debug, PartialEq, Eq, Structural)]
pub enum RlTrainerStateField {
    CurrentIteration,
    Metrics,
}

/// Why a trainer's state could not be used.
#[derive(Debug)]
pub enum RlTrainerStateError {
    Uninitialized(RlTrainerStateField),
    /// A callback came for neither an episode nor a collection.
    NoMetricEvent,
    /// The provider of metrics failed.
    Provider { field: String, message: String },
    /// The buffer of metrics failed.
    Buffer(RlLogError),
    /// The state was left behind by a panic.
    Poisoned,
}

/// The name of a variant.
pub open spec fn state_field_name(value: RlTrainerStateField) -> Seq<char> {
    match value {
        RlTrainerStateField::CurrentIteration => "CurrentIteration"@,
        RlTrainerStateField::Metrics => "Metrics"@,
    }
}

impl RlTrainerStateField {
    /// The name of the variant.
    pub fn name(self) -> (result: &'static str)
        ensures
            result@ == state_field_name(self),
    {
        match self {
            RlTrainerStateField::CurrentIteration => "CurrentIteration",
            RlTrainerStateField::Metrics => "Metrics",
        }
    }
}

/// What is said of a failure.
pub open spec fn state_words(error: RlTrainerStateError) -> Seq<char> {
    match error {
        RlTrainerStateError::Uninitialized(field) => "trainer "@ + state_field_name(field) + " has not been initialized"@,
        RlTrainerStateError::NoMetricEvent => "metric callback selected neither episode nor collect metrics"@,
        RlTrainerStateError::Provider { field, message } => "trainer metric provider failed at "@ + field@ + ": "@ + message@,
        RlTrainerStateError::Buffer(error) => crate::rl_log_writer::log_words(error),
        RlTrainerStateError::Poisoned => "trainer runtime state mutex is poisoned"@,
    }
}

impl RlTrainerStateError {
    /// What is said of the failure.
    pub fn message(&self) -> (result: String)
        ensures
            result@ == state_words(*self),
    {
        match self {
            RlTrainerStateError::Uninitialized(field) => sentence("trainer ", field.name(), " has not been initialized", ""),
            RlTrainerStateError::NoMetricEvent => "metric callback selected neither episode nor collect metrics".to_owned(),
            RlTrainerStateError::Provider { field, message } => sentence("trainer metric provider failed at ", field.as_str(), ": ", message.as_str()),
            RlTrainerStateError::Buffer(error) => error.message(),
            RlTrainerStateError::Poisoned => "trainer runtime state mutex is poisoned".to_owned(),
        }
    }
}

impl<M> Default for RlTrainerState<M> {
    fn default() -> (result: Self)
        ensures
            result@ == fresh_trainer::<M>(),
    {
        RlTrainerState {
            should_stop: None,
            current_iter: None,
            current_episode: None,
            current_stage: "train".to_owned(),
            metrics: None,
        }
    }
}

/// What a provider of metrics answered. A provider is asked for the metrics of an episode only
/// once it gave the number of the episode; what stands there otherwise is not looked at.
pub enum MetricReport<M> {
    Episode {
        global_episode: Result<Integer, RlTrainerStateError>,
        metrics: Result<RlTrainerMetrics<M>, RlTrainerStateError>,
    },
    Collect { metrics: Result<RlTrainerMetrics<M>, RlTrainerStateError> },
    /// Nothing was asked.
    Nothing,
}

/// What a provider is asked for: an episode comes before a collection.
pub fn metric_event(on_episode: bool, on_collect: bool) -> (result: Option<RlLogBufferEvent>)
    ensures
        result == if on_episode {
            Some(RlLogBufferEvent::Episode)
        } else if on_collect {
            Some(RlLogBufferEvent::Collect)
        } else {
            None
        },
{
    if on_episode {
        Some(RlLogBufferEvent::Episode)
    } else if on_collect {
        Some(RlLogBufferEvent::Collect)
    } else {
        None
    }
}

/// Metrics under the names of the validation stage.
pub open spec fn validation_entries<M>(entries: Seq<(Seq<char>, M)>) -> Seq<(Seq<char>, M)> {
    entries.map_values(|entry: (Seq<char>, M)| ("val/"@ + entry.0, entry.1))
}

/// Metrics as the stage names them.
pub open spec fn staged<M>(stage: Seq<char>, entries: Seq<(Seq<char>, M)>) -> Seq<(Seq<char>, M)> {
    if stage == "val"@ {
        with_entries(Seq::empty(), validation_entries(entries))
    } else {
        entries
    }
}

/// The state after metrics joined it.
pub open spec fn metrics_joined<M>(state: TrainerModel<M>, entries: Seq<(Seq<char>, M)>) -> TrainerModel<M> {
    TrainerModel { metrics: Some(with_entries(state.metrics->Some_0, staged(state.current_stage, entries))), ..state }
}

/// The state after the report of a provider.
pub open spec fn reported<M>(state: TrainerModel<M>, report: MetricReport<M>) -> TrainerModel<M> {
    match report {
        MetricReport::Episode { global_episode, metrics } => match global_episode {
            Err(_) => state,
            Ok(number) => {
                let counted = TrainerModel { current_episode: Some(number@), ..state };
                match metrics {
                    Ok(entries) => if state.metrics is Some {
                        metrics_joined(counted, entries@)
                    } else {
                        counted
                    },
                    Err(_) => counted,
                }
            },
        },
        MetricReport::Collect { metrics } => match metrics {
            Ok(entries) => if state.metrics is Some {
                metrics_joined(state, entries@)
            } else {
                state
            },
            Err(_) => state,
        },
        MetricReport::Nothing => state,
    }
}

/// Why the report of a provider is not taken in. Without a report the stage decides which of two
/// failures comes first.
pub open spec fn report_failure<M>(state: TrainerModel<M>, report: MetricReport<M>) -> Option<RlTrainerStateError> {
    let missing = if state.metrics is None {
        Some(RlTrainerStateError::Uninitialized(RlTrainerStateField::Metrics))
    } else {
        None
    };
    match report {
        MetricReport::Episode { global_episode: Err(error), .. } => Some(error),
        MetricReport::Episode { metrics: Err(error), .. } => Some(error),
        MetricReport::Collect { metrics: Err(error) } => Some(error),
        MetricReport::Nothing => if state.current_stage == "val"@ || state.metrics is Some {
            Some(RlTrainerStateError::NoMetricEvent)
        } else {
            missing
        },
        _ => missing,
    }
}

fn validation_name(name: &str) -> (result: String)
    ensures
        result@ == "val/"@ + name@,
{
    let mut text = to_chars("val/");
    append_chars(&mut text, to_chars(name).as_slice());
    from_chars(text.as_slice())
}

/// Stores metrics one after another.
fn store_all<M: Duplicate>(target: &mut RlTrainerMetrics<M>, metrics: &RlTrainerMetrics<M>)
    ensures
        final(target)@ == with_entries(old(target)@, metrics@),
{
    let ghost before = target@;
    let length: usize = metrics.len();
    let mut i: usize = 0;
    assert(metrics@.take(0) =~= Seq::empty());
    while i < length
        invariant
            i <= length,
            length == metrics@.len(),
            target@ == with_entries(before, metrics@.take(i as int)),
        decreases length - i,
    {
        let name = metrics.name_at(i).clone();
        let value: M = metrics.value_at(i).duplicate();
        proof {
            with_entries_push(before, metrics@.take(i as int), name@, value);
            assert(metrics@.take(i + 1) =~= metrics@.take(i as int).push((name@, value)));
        }
        target.insert(name, value);
        i += 1;
    }
    assert(metrics@.take(i as int) =~= metrics@);
}

/// Metrics under the names of the validation stage.
fn validation_metrics<M: Duplicate>(metrics: &RlTrainerMetrics<M>) -> (result: RlTrainerMetrics<M>)
    ensures
        result@ == with_entries(Seq::empty(), validation_entries(metrics@)),
{
    let ghost renamed = validation_entries(metrics@);
    let mut result: RlTrainerMetrics<M> = OrderedMap::new();
    let length: usize = metrics.len();
    let mut i: usize = 0;
    assert(renamed.take(0) =~= Seq::empty());
    while i < length
        invariant
            i <= length,
            length == metrics@.len(),
            renamed == validation_entries(metrics@),
            result@ == with_entries(Seq::empty(), renamed.take(i as int)),
        decreases length - i,
    {
        let name = validation_name(metrics.name_at(i).as_str());
        let value: M = metrics.value_at(i).duplicate();
        proof {
            with_entries_push(Seq::empty(), renamed.take(i as int), name@, value);
            assert(renamed.take(i + 1) =~= renamed.take(i as int).push((name@, value)));
        }
        result.insert(name, value);
        i += 1;
    }
    assert(renamed.take(i as int) =~= renamed);
    result
}

impl<M> RlTrainerState<M> {
    /// Starts a fit.
    pub fn initialize(&mut self)
        ensures
            final(self)@ == initialized(old(self)@),
    {
        self.should_stop = Some(false);
        self.current_iter = Some(Integer::zero());
        self.current_episode = Some(Integer::zero());
        self.current_stage = "train".to_owned();
    }

    /// Starts an iteration.
    pub fn initialize_iter(&mut self)
        ensures
            final(self)@ == iteration_initialized(old(self)@),
    {
        self.metrics = Some(OrderedMap::new());
    }

    /// The current iteration.
    pub fn current_iteration(&self) -> (result: Result<Integer, RlTrainerStateError>)
        ensures
            match self@.current_iter {
                Some(number) => result matches Ok(found) && found@ == number,
                None => result == Err::<Integer, _>(
                    RlTrainerStateError::Uninitialized(RlTrainerStateField::CurrentIteration),
                ),
            },
    {
        match &self.current_iter {
            Some(number) => Ok(number.copied()),
            None => Err(RlTrainerStateError::Uninitialized(RlTrainerStateField::CurrentIteration)),
        }
    }
}

impl<M: Duplicate> RlTrainerState<M> {
    fn join(&mut self, metrics: &RlTrainerMetrics<M>) -> (result: Result<(), RlTrainerStateError>)
        ensures
            final(self)@ == if old(self)@.metrics is Some {
                metrics_joined(old(self)@, metrics@)
            } else {
                old(self)@
            },
            match result {
                Ok(()) => old(self)@.metrics is Some,
                Err(error) => old(self)@.metrics is None && error == RlTrainerStateError::Uninitialized(
                    RlTrainerStateField::Metrics,
                ),
            },
    {
        let validation = same_text(self.current_stage.as_str(), "val");
        match &mut self.metrics {
            Some(target) => {
                if validation {
                    store_all(target, &validation_metrics(metrics));
                } else {
                    store_all(target, metrics);
                }
                Ok(())
            },
            None => Err(RlTrainerStateError::Uninitialized(RlTrainerStateField::Metrics)),
        }
    }

    /// Takes in the report of a provider. An episode counts before its metrics are looked at; the
    /// stage `val`, and no other, puts `val/` in front of every name; known names keep their places.
    pub fn metrics_callback(&mut self, report: MetricReport<M>) -> (result: Result<(), RlTrainerStateError>)
        ensures
            final(self)@ == reported(old(self)@, report),
            match report_failure(old(self)@, report) {
                Some(error) => result == Err::<(), _>(error),
                None => result is Ok,
            },
    {
        match report {
            MetricReport::Episode { global_episode, metrics } => {
                match global_episode {
                    Ok(number) => {
                        self.current_episode = Some(number);
                    },
                    Err(error) => return Err(error),
                }
                match metrics {
                    Ok(entries) => self.join(&entries),
                    Err(error) => Err(error),
                }
            },
            MetricReport::Collect { metrics } => match metrics {
                Ok(entries) => self.join(&entries),
                Err(error) => Err(error),
            },
            MetricReport::Nothing => {
                if same_text(self.current_stage.as_str(), "val") || self.metrics.is_some() {
                    Err(RlTrainerStateError::NoMetricEvent)
                } else {
                    Err(RlTrainerStateError::Uninitialized(RlTrainerStateField::Metrics))
                }
            },
        }
    }

}

/// The level that stands for a log at every period.
pub open spec fn periodic_level() -> i64 {
    20
}

/// The lowest level of several writers; that of periodic logs if there is none.
pub fn minimum_rl_log_level(levels: &[i64]) -> (result: i64)
    ensures
        levels@.len() == 0 ==> result == periodic_level(),
        levels@.len() > 0 ==> levels@.contains(result),
        forall|i: int| 0 <= i < levels@.len() ==> result <= #[trigger] levels@[i],
{
    if levels.len() == 0 {
        return 20;
    }
    let mut lowest: i64 = levels[0];
    let mut i: usize = 1;
    while i < levels.len()
        invariant
            1 <= i <= levels@.len(),
            levels@.contains(lowest),
            forall|j: int| 0 <= j < i ==> lowest <= #[trigger] levels@[j],
        decreases levels@.len() - i,
    {
        if levels[i] < lowest {
            lowest = levels[i];
            assert(levels@[i as int] == lowest);
        }
        i += 1;
    }
    lowest
}

/// What stands for a logged number among the metrics of a trainer.
pub trait RecordsNumber<N>: Sized {
    open spec fn recorded_spec(value: N) -> Self {
        arbitrary()
    }

    fn recorded(value: N) -> (result: Self)
        ensures
            result == Self::recorded_spec(value),
    ;
}

/// A number stands for itself.
impl<N: LogNumber> RecordsNumber<N> for N {
    open spec fn recorded_spec(value: N) -> Self {
        value
    }

    fn recorded(value: N) -> (result: Self) {
        value
    }
}

/// A number stands among metrics that may be missing.
impl<N> RecordsNumber<N> for Option<N> {
    open spec fn recorded_spec(value: N) -> Self {
        Some(value)
    }

    fn recorded(value: N) -> (result: Self) {
        Some(value)
    }
}

/// A number stands among shared metrics of any kind.
impl<N> RecordsNumber<N> for Arc<TrainingMetricScalar<N>> {
    open spec fn recorded_spec(value: N) -> Self {
        Arc::new(TrainingMetricScalar::Float(value))
    }

    fn recorded(value: N) -> (result: Self) {
        Arc::new(TrainingMetricScalar::Float(value))
    }
}

/// Logged metrics as a trainer keeps them.
pub open spec fn recorded_entries<N, M: RecordsNumber<N>>(entries: Seq<(Seq<char>, N)>) -> Seq<(Seq<char>, M)> {
    with_entries(Seq::empty(), entries.map_values(|entry: (Seq<char>, N)| (entry.0, M::recorded_spec(entry.1))))
}

fn recorded_metrics<N: Copy, M: RecordsNumber<N>>(metrics: &OrderedMap<N>) -> (result: RlTrainerMetrics<M>)
    ensures
        result@ == recorded_entries::<N, M>(metrics@),
{
    let ghost kept = metrics@.map_values(|entry: (Seq<char>, N)| (entry.0, M::recorded_spec(entry.1)));
    let mut result: RlTrainerMetrics<M> = OrderedMap::new();
    let length: usize = metrics.len();
    let mut i: usize = 0;
    assert(kept.take(0) =~= Seq::empty());
    while i < length
        invariant
            i <= length,
            length == metrics@.len(),
            kept == metrics@.map_values(|entry: (Seq<char>, N)| (entry.0, M::recorded_spec(entry.1))),
            result@ == with_entries(Seq::empty(), kept.take(i as int)),
        decreases length - i,
    {
        let name = metrics.name_at(i).clone();
        let value: M = M::recorded(*metrics.value_at(i));
        proof {
            with_entries_push(Seq::empty(), kept.take(i as int), name@, value);
            assert(kept.take(i + 1) =~= kept.take(i as int).push((name@, value)));
        }
        result.insert(name, value);
        i += 1;
    }
    assert(kept.take(i as int) =~= kept);
    result
}

/// The metrics that a buffer has of all episodes, or why it has none.
pub open spec fn is_collect_report<N: LogNumber, V, M: RecordsNumber<N>>(
    writer: LogModel<N, V>,
    buffer: BufferModel<N>,
    metrics: Result<RlTrainerMetrics<M>, RlTrainerStateError>,
) -> bool {
    let count = N::of_integer_spec(writer.episode_count);
    if buffer.totals.len() == 0 {
        metrics matches Ok(found) && found@ == Seq::<(Seq<char>, M)>::empty()
    } else if count is Some && count->Some_0.finite() {
        metrics matches Ok(found) && found@ == recorded_entries::<N, M>(means_of(buffer.totals, count->Some_0))
    } else {
        metrics matches Err(RlTrainerStateError::Buffer(RlLogError::EpisodeCountNotRepresentable(number))) && number@
            == writer.episode_count
    }
}

/// What a buffer of metrics reports on an event.
pub open spec fn is_buffer_report<N: LogNumber, V, M: RecordsNumber<N>>(
    event: RlLogBufferEvent,
    writer: LogModel<N, V>,
    buffer: BufferModel<N>,
    report: MetricReport<M>,
) -> bool {
    match event {
        RlLogBufferEvent::Episode => report matches MetricReport::Episode { global_episode: Ok(number), metrics }
            && number@ == writer.global_episode && match buffer.latest {
            Some(latest) => metrics matches Ok(found) && found@ == recorded_entries::<N, M>(latest),
            None => metrics == Err::<RlTrainerMetrics<M>, _>(
                RlTrainerStateError::Buffer(RlLogError::NoEpisodeMetrics),
            ),
        },
        RlLogBufferEvent::Collect => report matches MetricReport::Collect { metrics } && is_collect_report(
            writer,
            buffer,
            metrics,
        ),
    }
}

/// What a buffer of metrics reports.
pub fn buffer_report<N: LogNumber, V: Copy, M: RecordsNumber<N>>(
    event: RlLogBufferEvent,
    writer: &RlLogWriterState<N, V>,
    buffer: &RlLogBufferState<N>,
) -> (result: MetricReport<M>)
    ensures
        is_buffer_report(event, writer@, buffer@, result),
{
    match event {
        RlLogBufferEvent::Episode => {
            let metrics = match buffer.episode_metrics() {
                Ok(found) => Ok(recorded_metrics(found)),
                Err(error) => Err(RlTrainerStateError::Buffer(error)),
            };
            MetricReport::Episode { global_episode: Ok(writer.global_episode.copied()), metrics }
        },
        RlLogBufferEvent::Collect => {
            let metrics = match buffer.collect_metrics(&writer.episode_count) {
                Ok(found) => Ok(recorded_metrics(&found)),
                Err(error) => Err(RlTrainerStateError::Buffer(error)),
            };
            MetricReport::Collect { metrics }
        },
    }
}

/// The state of a trainer with the fast development run that its owner asked for.
pub struct RlTrainerRuntime<M> {
    pub state: RlTrainerState<M>,
    pub fast_dev_run: Option<i64>,
}

impl<M> RlTrainerRuntime<M> {
    pub fn new(fast_dev_run: Option<i64>) -> (result: Self)
        ensures
            result.fast_dev_run == fast_dev_run,
            result.state@ == fresh_trainer::<M>(),
    {
        RlTrainerRuntime { state: RlTrainerState::default(), fast_dev_run }
    }

    pub fn set_fast_dev_run(&mut self, value: Option<i64>)
        ensures
            final(self).fast_dev_run == value,
            final(self).state == old(self).state,
    {
        self.fast_dev_run = value;
    }

    /// Takes in what a buffer of metrics reports. An episode counts also where its metrics fail.
    pub fn on_buffer_event<N: LogNumber, V: Copy>(
        &mut self,
        event: RlLogBufferEvent,
        writer: &RlLogWriterState<N, V>,
        buffer: &RlLogBufferState<N>,
    ) -> (result: Result<(), RlTrainerStateError>) where M: RecordsNumber<N> + Duplicate
        ensures
            final(self).fast_dev_run == old(self).fast_dev_run,
            exists|report: MetricReport<M>| #[trigger]
                is_buffer_report(event, writer@, buffer@, report) && final(self).state@ == reported(
                    old(self).state@,
                    report,
                ) && match report_failure(old(self).state@, report) {
                    Some(error) => result == Err::<(), _>(error),
                    None => result is Ok,
                },
    {
        let report = buffer_report(event, writer, buffer);
        self.state.metrics_callback(report)
    }
}

/// The metrics of a validation never take the place of a metric without the prefix.
pub proof fn validation_keeps_plain_names<M>(entries: Seq<(Seq<char>, M)>, added: Seq<(Seq<char>, M)>, name: Seq<char>)
    requires
        !("val/"@).is_prefix_of(name),
    ensures
        crate::ordered::value_of(with_entries(entries, staged("val"@, added)), name) == crate::ordered::value_of(
            entries,
            name,
        ),
{
    let renamed = validation_entries(added);
    let stored = staged("val"@, added);
    assert forall|i: int| 0 <= i < renamed.len() implies (#[trigger] renamed[i]).0 != name by {
        assert(("val/"@).is_prefix_of(renamed[i].0));
    }
    stored_names_come_from(Seq::empty(), renamed, name);
    crate::ordered::find_name_finds(stored, name);
    unnamed_entries_keep(entries, stored, name);
}

/// Storing entries of other names brings no name in.
proof fn stored_names_come_from<M>(entries: Seq<(Seq<char>, M)>, added: Seq<(Seq<char>, M)>, name: Seq<char>)
    requires
        forall|i: int| 0 <= i < entries.len() ==> (#[trigger] entries[i]).0 != name,
        forall|i: int| 0 <= i < added.len() ==> (#[trigger] added[i]).0 != name,
    ensures
        forall|i: int|
            0 <= i < with_entries(entries, added).len() ==> (#[trigger] with_entries(entries, added)[i]).0 != name,
    decreases added.len(),
{
    if added.len() > 0 {
        assert(added.last() == added[added.len() - 1]);
        stored_names_come_from(entries, added.drop_last(), name);
        crate::ordered::find_name_finds(with_entries(entries, added.drop_last()), added.last().0);
    }
}

/// Storing entries of other names keeps the value under a name.
proof fn unnamed_entries_keep<M>(entries: Seq<(Seq<char>, M)>, added: Seq<(Seq<char>, M)>, name: Seq<char>)
    requires
        forall|i: int| 0 <= i < added.len() ==> (#[trigger] added[i]).0 != name,
    ensures
        crate::ordered::value_of(with_entries(entries, added), name) == crate::ordered::value_of(entries, name),
    decreases added.len(),
{
    if added.len() > 0 {
        assert(added.last() == added[added.len() - 1]);
        unnamed_entries_keep(entries, added.drop_last(), name);
        crate::ordered::write_keeps_others(
            with_entries(entries, added.drop_last()),
            added.last().0,
            added.last().1,
            name,
        );
    }
}

/// The metrics of an episode join those of the trainer: in a validation under `val/` and their names, in
/// every other stage under their names alone. The episode is the one that is told.
pub proof fn episode_metrics_join<M: Duplicate>(
    trainer: &mut RlTrainerState<M>,
    number: Integer,
    metrics: RlTrainerMetrics<M>,
    result: Result<(), RlTrainerStateError>,
    name: Seq<char>,
)
    requires
        call_ensures(
            RlTrainerState::<M>::metrics_callback,
            (trainer, MetricReport::Episode { global_episode: Ok(number), metrics: Ok(metrics) }),
            result,
        ),
        old(trainer)@.metrics is Some,
        distinct_names(metrics@),
        value_of(metrics@, name) is Some,
    ensures
        result is Ok,
        final(trainer)@.current_episode == Some(number@),
        final(trainer)@.current_iter == old(trainer)@.current_iter && final(trainer)@.should_stop == old(trainer)@.should_stop,
        final(trainer)@.metrics is Some,
        old(trainer)@.current_stage == "val"@ ==> value_of(final(trainer)@.metrics->Some_0, "val/"@ + name) == value_of(
            metrics@,
            name,
        ),
        old(trainer)@.current_stage != "val"@ ==> value_of(final(trainer)@.metrics->Some_0, name) == value_of(metrics@, name),
{
    let before = old(trainer)@.metrics->Some_0;
    let stage = old(trainer)@.current_stage;
    find_name_finds(metrics@, name);
    let place = find_name(metrics@, name)->Some_0;
    if stage == "val"@ {
        let marked = validation_entries(metrics@);
        let front = "val/"@;
        assert forall|i: int, j: int| 0 <= i < j < marked.len() implies marked[i].0 != marked[j].0 by {
            assert(metrics@[i].0 != metrics@[j].0);
            if marked[i].0 == marked[j].0 {
                assert((front + metrics@[i].0).skip(front.len() as int) =~= metrics@[i].0);
                assert((front + metrics@[j].0).skip(front.len() as int) =~= metrics@[j].0);
            }
        }
        crate::ordered::distinct_entries_stand(marked);
        assert(marked[place].0 == front + name);
        last_entries_are_read_back(before, marked, front + name);
    } else {
        assert forall|later: int| place < later < metrics@.len() implies (#[trigger] metrics@[later]).0 != name by {
            assert(metrics@[place].0 != metrics@[later].0);
        }
        last_entries_are_read_back(before, metrics@, name);
    }
}

} // verus!
