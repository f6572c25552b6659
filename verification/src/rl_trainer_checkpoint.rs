//! The order in which a trainer's components are saved and restored, independent of any file.
use crate::integer::{decimal_digits, Integer};
use crate::ordered::{
    distinct_entries_stand, distinct_names, find_name_finds, has_name, read_after_write, value_of, with_entries,
    with_entries_push, write_keeps_others, OrderedMap,
};
use crate::rl_log_writer::{RlLogBufferState, RlLogWriterState};
use crate::rl_trainer_state::{Duplicate, RlTrainerState, RlTrainerStateError, TrainerModel};
use crate::text::{append_chars, decimal_chars, from_chars, sentence, to_chars};
use vstd::prelude::*;

verus! {

/// What is done to a component.
#[derive(Clone, Copy, Debug, PartialEq, Eq, Structural)]
pub enum RlCheckpointOperation {
    Save,
    Load,
}

/// Why a checkpoint could not be made or restored.
#[derive(Debug)]
pub enum RlTrainerCheckpointError {
    /// The state of the trainer could not be used.
    Runtime(RlTrainerStateError),
    /// The checkpoint lacks a field.
    MissingField(String),
    /// The trainer lacks a field.
    Uninitialized(&'static str),
    /// A component failed.
    Component { operation: RlCheckpointOperation, component: String, message: String },
}

/// The name of a variant.
pub open spec fn operation_name(value: RlCheckpointOperation) -> Seq<char> {
    match value {
        RlCheckpointOperation::Save => "Save"@,
        RlCheckpointOperation::Load => "Load"@,
    }
}

impl RlCheckpointOperation {
    /// The name of the variant.
    pub fn name(self) -> (result: &'static str)
        ensures
            result@ == operation_name(self),
    {
        match self {
            RlCheckpointOperation::Save => "Save",
            RlCheckpointOperation::Load => "Load",
        }
    }
}

/// What is said of a failure.
pub open spec fn checkpoint_words(error: RlTrainerCheckpointError) -> Seq<char> {
    match error {
        RlTrainerCheckpointError::Runtime(error) => crate::rl_trainer_state::state_words(error),
        RlTrainerCheckpointError::MissingField(path) => "checkpoint field is missing: "@ + path@,
        RlTrainerCheckpointError::Uninitialized(field) => "trainer "@ + field@ + " has not been initialized"@,
        RlTrainerCheckpointError::Component { operation, component, message } => operation_name(operation)
            + " checkpoint component "@ + component@ + " failed: "@ + message@,
    }
}

impl RlTrainerCheckpointError {
    /// What is said of the failure.
    pub fn message(&self) -> (result: String)
        ensures
            result@ == checkpoint_words(*self),
    {
        match self {
            RlTrainerCheckpointError::Runtime(error) => error.message(),
            RlTrainerCheckpointError::MissingField(path) => {
                sentence("checkpoint field is missing: ", path.as_str(), "", "")
            },
            RlTrainerCheckpointError::Uninitialized(field) => sentence("trainer ", field, " has not been initialized", ""),
            RlTrainerCheckpointError::Component { operation, component, message } => {
                let start = sentence(operation.name(), " checkpoint component ", component.as_str(), " failed: ");
                sentence(start.as_str(), message.as_str(), "", "")
            },
        }
    }
}

/// A field of a checkpoint. That it is missing differs from a present empty value.
#[derive(Clone, Debug, PartialEq)]
pub enum RlCheckpointField<T> {
    Missing,
    Present(T),
}

impl<T> Default for RlCheckpointField<T> {
    fn default() -> (result: Self)
        ensures
            result is Missing,
    {
        RlCheckpointField::Missing
    }
}

impl<T> RlCheckpointField<T> {
    pub fn is_missing(&self) -> (result: bool)
        ensures
            result == (self is Missing),
    {
        match self {
            RlCheckpointField::Missing => true,
            RlCheckpointField::Present(_) => false,
        }
    }

    /// The value of a present field.
    pub fn require(&self, path: &str) -> (result: Result<&T, RlTrainerCheckpointError>)
        ensures
            match self {
                RlCheckpointField::Missing => result matches Err(RlTrainerCheckpointError::MissingField(field)) && field@
                    == path@,
                RlCheckpointField::Present(value) => result matches Ok(found) && *found == value,
            },
    {
        match self {
            RlCheckpointField::Missing => Err(RlTrainerCheckpointError::MissingField(path.to_owned())),
            RlCheckpointField::Present(value) => Ok(value),
        }
    }
}

/// A checkpoint of a trainer and its components.
pub struct RlTrainerCheckpoint<V, C, L, M> {
    pub vessel: RlCheckpointField<V>,
    pub callbacks: RlCheckpointField<OrderedMap<C>>,
    pub loggers: RlCheckpointField<OrderedMap<L>>,
    pub should_stop: RlCheckpointField<bool>,
    pub current_iter: RlCheckpointField<Integer>,
    pub current_episode: RlCheckpointField<Integer>,
    pub current_stage: RlCheckpointField<String>,
    pub metrics: RlCheckpointField<OrderedMap<M>>,
}

impl<V, C, L, M> Default for RlTrainerCheckpoint<V, C, L, M> {
    fn default() -> (result: Self)
        ensures
            result.vessel is Missing,
            result.callbacks is Missing,
            result.loggers is Missing,
            result.should_stop is Missing,
            result.current_iter is Missing,
            result.current_episode is Missing,
            result.current_stage is Missing,
            result.metrics is Missing,
    {
        RlTrainerCheckpoint {
            vessel: RlCheckpointField::Missing,
            callbacks: RlCheckpointField::Missing,
            loggers: RlCheckpointField::Missing,
            should_stop: RlCheckpointField::Missing,
            current_iter: RlCheckpointField::Missing,
            current_episode: RlCheckpointField::Missing,
            current_stage: RlCheckpointField::Missing,
            metrics: RlCheckpointField::Missing,
        }
    }
}

/// The checkpoint of a log buffer: its writer and its metrics.
pub struct RlLogBufferCheckpoint<N, V> {
    pub writer: RlLogWriterState<N, V>,
    pub buffer: RlLogBufferState<N>,
}

// ---- names ------------------------------------------------------------------------------------

/// What `str::to_lowercase` makes of a text.
pub uninterp spec fn lowercase(text: Seq<char>) -> Seq<char>;

/// `str::to_lowercase`: the lowercase equivalent of a text.
#[verifier::external_body]
fn to_lowercase(text: &str) -> (result: String)
    ensures
        result@ == lowercase(text@),
{
    text.to_lowercase()
}

/// How often a name occurs.
pub open spec fn occurrences(names: Seq<Seq<char>>, name: Seq<char>) -> nat
    decreases names.len(),
{
    if names.len() == 0 {
        0
    } else {
        occurrences(names.drop_last(), name) + if names.last() == name {
            1nat
        } else {
            0nat
        }
    }
}

/// The key of a component: its name, with the number of earlier components of that name behind
/// it if there are any.
pub open spec fn component_key(names: Seq<Seq<char>>, position: int) -> Seq<char> {
    let name = names[position];
    let earlier = occurrences(names.take(position), name);
    if earlier == 0 {
        name
    } else {
        name + decimal_digits(earlier)
    }
}

/// The keys of components in order, each with its position.
pub open spec fn keyed(names: Seq<Seq<char>>) -> Seq<(Seq<char>, usize)> {
    Seq::new(names.len(), |i: int| (component_key(names, i), i as usize))
}

/// Names in lowercase.
pub open spec fn lowercased(names: Seq<String>) -> Seq<Seq<char>> {
    Seq::new(names.len(), |i: int| lowercase(names[i]@))
}

/// The keys of a group of components: of two components with one key the later stands, in the
/// place of the earlier.
pub open spec fn component_places(names: Seq<String>) -> Seq<(Seq<char>, usize)> {
    with_entries(Seq::empty(), keyed(lowercased(names)))
}

/// The keys of a group of components. A number behind a name can collide with the name of another
/// component: then the later component stands in the place of the earlier.
pub fn named_rl_checkpoint_indices(names: &Vec<String>) -> (result: OrderedMap<usize>)
    ensures
        result@ == component_places(names@),
{
    let mut counts: OrderedMap<usize> = OrderedMap::new();
    let mut result: OrderedMap<usize> = OrderedMap::new();
    let ghost lower = lowercased(names@);
    let ghost keys = keyed(lower);
    let mut i: usize = 0;
    proof {
        assert(keys.take(0) =~= Seq::empty());
        assert(lower.take(0) =~= Seq::empty());
    }
    while i < names.len()
        invariant
            i <= names@.len(),
            lower == lowercased(names@),
            keys == keyed(lower),
            result@ == with_entries(Seq::empty(), keys.take(i as int)),
            forall|name: Seq<char>|
                match #[trigger] value_of(counts@, name) {
                    Some(count) => count == occurrences(lower.take(i as int), name) && 0 < count <= i,
                    None => occurrences(lower.take(i as int), name) == 0,
                },
        decreases names@.len() - i,
    {
        let name = to_lowercase(names[i].as_str());
        let ghost text = name@;
        let ghost before = counts@;
        assert(lower[i as int] == text);
        let count: usize = match counts.get(name.as_str()) {
            Some(count) => *count,
            None => 0,
        };
        assert(value_of(before, text) is Some || value_of(before, text) is None);
        let key = if count == 0 {
            name.clone()
        } else {
            let mut chars = to_chars(name.as_str());
            append_chars(&mut chars, decimal_chars(count).as_slice());
            from_chars(chars.as_slice())
        };
        assert(key@ == component_key(lower, i as int));
        counts.insert(name, count + 1);
        proof {
            assert(lower.take(i + 1).drop_last() =~= lower.take(i as int));
            assert(lower.take(i + 1).last() == text);
            assert forall|other: Seq<char>|
                match #[trigger] value_of(counts@, other) {
                    Some(number) => number == occurrences(lower.take(i + 1), other) && 0 < number <= i + 1,
                    None => occurrences(lower.take(i + 1), other) == 0,
                } by {
                if other == text {
                    read_after_write(before, text, (count + 1) as usize);
                } else {
                    write_keeps_others(before, text, (count + 1) as usize, other);
                    assert(value_of(before, other) is Some || value_of(before, other) is None);
                }
            }
            with_entries_push(Seq::empty(), keys.take(i as int), key@, i);
            assert(keys.take(i + 1) =~= keys.take(i as int).push((key@, i)));
        }
        result.insert(key, i);
        i += 1;
    }
    assert(keys.take(i as int) =~= keys);
    result
}

/// Every key stands for one of the components.
pub proof fn places_are_components(names: Seq<String>)
    requires
        names.len() <= usize::MAX,
    ensures
        forall|i: int|
            0 <= i < component_places(names).len() ==> (#[trigger] component_places(names)[i]).1 < names.len()
                && component_key(lowercased(names), component_places(names)[i].1 as int) == component_places(names)[i].0,
        distinct_names(component_places(names)),
{
    places_hold(lowercased(names), names.len() as int);
    assert(keyed(lowercased(names)).take(names.len() as int) =~= keyed(lowercased(names)));
}

proof fn places_hold(names: Seq<Seq<char>>, count: int)
    requires
        names.len() <= usize::MAX,
        0 <= count <= names.len(),
    ensures
        forall|i: int|
            0 <= i < with_entries(Seq::empty(), keyed(names).take(count)).len() ==> (#[trigger] with_entries(
                Seq::empty(),
                keyed(names).take(count),
            )[i]).1 < names.len() && component_key(
                names,
                with_entries(Seq::empty(), keyed(names).take(count))[i].1 as int,
            ) == with_entries(Seq::empty(), keyed(names).take(count))[i].0,
        distinct_names(with_entries(Seq::empty(), keyed(names).take(count))),
    decreases count,
{
    let entries = keyed(names).take(count);
    if count > 0 {
        places_hold(names, count - 1);
        assert(entries.drop_last() =~= keyed(names).take(count - 1));
        let before = with_entries(Seq::empty(), entries.drop_last());
        find_name_finds(before, entries.last().0);
        crate::ordered::with_entry_distinct(before, entries.last().0, entries.last().1);
    }
}

/// The path of a component.
pub open spec fn component_path(group: Seq<char>, key: Seq<char>) -> Seq<char> {
    group + "."@ + key
}

fn path_of(group: &str, key: &str) -> (result: String)
    ensures
        result@ == component_path(group@, key@),
{
    let mut text = to_chars(group);
    append_chars(&mut text, to_chars(".").as_slice());
    append_chars(&mut text, to_chars(key).as_slice());
    from_chars(text.as_slice())
}

/// The error of a component that failed.
pub open spec fn is_component_failure(
    error: RlTrainerCheckpointError,
    operation: RlCheckpointOperation,
    component: Seq<char>,
    message: Seq<char>,
) -> bool {
    error matches RlTrainerCheckpointError::Component { operation: done, component: path, message: said } && done
        == operation && path@ == component && said@ == message
}

// ---- saving -----------------------------------------------------------------------------------

/// A component by its group and its position there.
#[derive(Clone, Copy, Debug, PartialEq, Eq, Structural)]
pub enum CheckpointComponent {
    Vessel,
    Callback(usize),
    Logger(usize),
}

/// A save under way: the vessel comes first, then the callbacks, then the loggers, and the state
/// of the trainer last.
pub struct RlTrainerSave<V, C, L> {
    callbacks: OrderedMap<usize>,
    loggers: OrderedMap<usize>,
    vessel: Option<V>,
    saved_callbacks: OrderedMap<C>,
    saved_loggers: OrderedMap<L>,
}

/// What a save under way holds.
pub struct SaveModel<V, C, L> {
    pub callbacks: Seq<(Seq<char>, usize)>,
    pub loggers: Seq<(Seq<char>, usize)>,
    pub vessel: Option<V>,
    pub saved_callbacks: Seq<(Seq<char>, C)>,
    pub saved_loggers: Seq<(Seq<char>, L)>,
}

impl<V, C, L> SaveModel<V, C, L> {
    /// The component that is saved next; none once the state of the trainer is due.
    pub open spec fn due(self) -> Option<CheckpointComponent> {
        if self.vessel is None {
            Some(CheckpointComponent::Vessel)
        } else if self.saved_callbacks.len() < self.callbacks.len() {
            Some(CheckpointComponent::Callback(self.callbacks[self.saved_callbacks.len() as int].1))
        } else if self.saved_loggers.len() < self.loggers.len() {
            Some(CheckpointComponent::Logger(self.loggers[self.saved_loggers.len() as int].1))
        } else {
            None
        }
    }
}

/// Whether states stand under the first keys of a group.
pub open spec fn saved_in_order<S>(saved: Seq<(Seq<char>, S)>, places: Seq<(Seq<char>, usize)>) -> bool {
    saved.len() <= places.len() && forall|i: int| 0 <= i < saved.len() ==> (#[trigger] saved[i]).0 == places[i].0
}

/// The first field that a trainer lacks for a checkpoint.
pub open spec fn lacking_field<M>(state: TrainerModel<M>) -> Option<Seq<char>> {
    if state.should_stop is None {
        Some("should_stop"@)
    } else if state.current_iter is None {
        Some("current_iter"@)
    } else if state.current_episode is None {
        Some("current_episode"@)
    } else if state.metrics is None {
        Some("metrics"@)
    } else {
        None
    }
}

/// The same entries in a map of their own.
fn copied_metrics<M: Duplicate>(metrics: &OrderedMap<M>) -> (result: OrderedMap<M>)
    ensures
        result@ == metrics@,
{
    let mut result: OrderedMap<M> = OrderedMap::new();
    let length: usize = metrics.len();
    let mut i: usize = 0;
    assert(metrics@.take(0) =~= Seq::empty());
    while i < length
        invariant
            i <= length,
            length == metrics@.len(),
            distinct_names(metrics@),
            result@ == with_entries(Seq::empty(), metrics@.take(i as int)),
        decreases length - i,
    {
        let name = metrics.name_at(i).clone();
        let value: M = metrics.value_at(i).duplicate();
        proof {
            with_entries_push(Seq::empty(), metrics@.take(i as int), name@, value);
            assert(metrics@.take(i + 1) =~= metrics@.take(i as int).push((name@, value)));
        }
        result.insert(name, value);
        i += 1;
    }
    proof {
        assert(metrics@.take(i as int) =~= metrics@);
        distinct_entries_stand(metrics@);
    }
    result
}

/// Adds a state under the next key.
fn add_state<S>(saved: &mut OrderedMap<S>, places: &OrderedMap<usize>, state: S)
    requires
        saved_in_order(old(saved)@, places@),
        old(saved)@.len() < places@.len(),
    ensures
        final(saved)@ == old(saved)@.push((places@[old(saved)@.len() as int].0, state)),
        saved_in_order(final(saved)@, places@),
{
    let next: usize = saved.len();
    let _count: usize = places.len();
    let name = places.name_at(next).clone();
    proof {
        find_name_finds(saved@, name@);
        if has_name(saved@, name@) {
            let position = crate::ordered::find_name(saved@, name@)->Some_0;
            assert(saved@[position].0 == places@[position].0);
        }
    }
    saved.insert(name, state);
}

/// Whether a checkpoint holds what a save gathered and what the trainer's state holds.
pub open spec fn checkpoint_holds<V, C, L, M>(
    checkpoint: RlTrainerCheckpoint<V, C, L, M>,
    save: SaveModel<V, C, L>,
    state: TrainerModel<M>,
) -> bool {
    &&& checkpoint.vessel == RlCheckpointField::Present(save.vessel->Some_0)
    &&& checkpoint.callbacks matches RlCheckpointField::Present(callbacks) && callbacks@ == save.saved_callbacks
    &&& checkpoint.loggers matches RlCheckpointField::Present(loggers) && loggers@ == save.saved_loggers
    &&& checkpoint.should_stop == RlCheckpointField::Present(state.should_stop->Some_0)
    &&& checkpoint.current_iter matches RlCheckpointField::Present(iteration) && Some(iteration@)
        == state.current_iter
    &&& checkpoint.current_episode matches RlCheckpointField::Present(episode) && Some(episode@)
        == state.current_episode
    &&& checkpoint.current_stage matches RlCheckpointField::Present(stage) && stage@ == state.current_stage
    &&& checkpoint.metrics matches RlCheckpointField::Present(metrics) && Some(metrics@) == state.metrics
}

impl<V, C, L> RlTrainerSave<V, C, L> {
    /// What the save holds.
    pub closed spec fn model(&self) -> SaveModel<V, C, L> {
        SaveModel {
            callbacks: self.callbacks@,
            loggers: self.loggers@,
            vessel: self.vessel,
            saved_callbacks: self.saved_callbacks@,
            saved_loggers: self.saved_loggers@,
        }
    }

    /// The states stand under the keys of the first components.
    pub open spec fn wf(&self) -> bool {
        &&& saved_in_order(self.model().saved_callbacks, self.model().callbacks)
        &&& saved_in_order(self.model().saved_loggers, self.model().loggers)
    }

    /// Begins a save of a vessel and of callbacks and loggers of given type names.
    pub fn begin(callback_names: &Vec<String>, logger_names: &Vec<String>) -> (result: Self)
        ensures
            result.wf(),
            result.model() == (SaveModel::<V, C, L> {
                callbacks: component_places(callback_names@),
                loggers: component_places(logger_names@),
                vessel: None,
                saved_callbacks: Seq::empty(),
                saved_loggers: Seq::empty(),
            }),
    {
        RlTrainerSave {
            callbacks: named_rl_checkpoint_indices(callback_names),
            loggers: named_rl_checkpoint_indices(logger_names),
            vessel: None,
            saved_callbacks: OrderedMap::new(),
            saved_loggers: OrderedMap::new(),
        }
    }

    /// The component that is saved next.
    pub fn due(&self) -> (result: Option<CheckpointComponent>)
        requires
            self.wf(),
        ensures
            result == self.model().due(),
    {
        let done_callbacks: usize = self.saved_callbacks.len();
        let done_loggers: usize = self.saved_loggers.len();
        if self.vessel.is_none() {
            Some(CheckpointComponent::Vessel)
        } else if done_callbacks < self.callbacks.len() {
            Some(CheckpointComponent::Callback(*self.callbacks.value_at(done_callbacks)))
        } else if done_loggers < self.loggers.len() {
            Some(CheckpointComponent::Logger(*self.loggers.value_at(done_loggers)))
        } else {
            None
        }
    }

    /// Takes the state of the vessel.
    pub fn vessel_saved(&mut self, reply: Result<V, String>) -> (result: Result<(), RlTrainerCheckpointError>)
        requires
            old(self).wf(),
            old(self).model().due() == Some(CheckpointComponent::Vessel),
        ensures
            final(self).wf(),
            match reply {
                Ok(state) => result is Ok && final(self).model() == (SaveModel { vessel: Some(state), ..old(self).model() }),
                Err(message) => final(self).model() == old(self).model() && result is Err && is_component_failure(
                    result->Err_0,
                    RlCheckpointOperation::Save,
                    "vessel"@,
                    message@,
                ),
            },
    {
        match reply {
            Ok(state) => {
                self.vessel = Some(state);
                Ok(())
            },
            Err(message) => Err(
                RlTrainerCheckpointError::Component {
                    operation: RlCheckpointOperation::Save,
                    component: "vessel".to_owned(),
                    message,
                },
            ),
        }
    }

    /// Takes the state of the callback that was due.
    pub fn callback_saved(&mut self, reply: Result<C, String>) -> (result: Result<(), RlTrainerCheckpointError>)
        requires
            old(self).wf(),
            old(self).model().due() is Some,
            old(self).model().due()->Some_0 is Callback,
        ensures
            final(self).wf(),
            match reply {
                Ok(state) => result is Ok && final(self).model() == (SaveModel {
                    saved_callbacks: old(self).model().saved_callbacks.push(
                        (old(self).model().callbacks[old(self).model().saved_callbacks.len() as int].0, state),
                    ),
                    ..old(self).model()
                }),
                Err(message) => final(self).model() == old(self).model() && result is Err && is_component_failure(
                    result->Err_0,
                    RlCheckpointOperation::Save,
                    component_path(
                        "callbacks"@,
                        old(self).model().callbacks[old(self).model().saved_callbacks.len() as int].0,
                    ),
                    message@,
                ),
            },
    {
        match reply {
            Ok(state) => {
                add_state(&mut self.saved_callbacks, &self.callbacks, state);
                Ok(())
            },
            Err(message) => {
                let component = path_of("callbacks", self.callbacks.name_at(self.saved_callbacks.len()).as_str());
                Err(
                    RlTrainerCheckpointError::Component { operation: RlCheckpointOperation::Save, component, message },
                )
            },
        }
    }

    /// Takes the state of the logger that was due.
    pub fn logger_saved(&mut self, reply: Result<L, String>) -> (result: Result<(), RlTrainerCheckpointError>)
        requires
            old(self).wf(),
            old(self).model().due() is Some,
            old(self).model().due()->Some_0 is Logger,
        ensures
            final(self).wf(),
            match reply {
                Ok(state) => result is Ok && final(self).model() == (SaveModel {
                    saved_loggers: old(self).model().saved_loggers.push(
                        (old(self).model().loggers[old(self).model().saved_loggers.len() as int].0, state),
                    ),
                    ..old(self).model()
                }),
                Err(message) => final(self).model() == old(self).model() && result is Err && is_component_failure(
                    result->Err_0,
                    RlCheckpointOperation::Save,
                    component_path(
                        "loggers"@,
                        old(self).model().loggers[old(self).model().saved_loggers.len() as int].0,
                    ),
                    message@,
                ),
            },
    {
        match reply {
            Ok(state) => {
                add_state(&mut self.saved_loggers, &self.loggers, state);
                Ok(())
            },
            Err(message) => {
                let component = path_of("loggers", self.loggers.name_at(self.saved_loggers.len()).as_str());
                Err(
                    RlTrainerCheckpointError::Component { operation: RlCheckpointOperation::Save, component, message },
                )
            },
        }
    }

    /// Adds the state of the trainer, once every component is saved.
    pub fn finish<M: Duplicate>(self, state: &RlTrainerState<M>) -> (result: Result<
        RlTrainerCheckpoint<V, C, L, M>,
        RlTrainerCheckpointError,
    >)
        requires
            self.wf(),
            self.model().due() is None,
        ensures
            match lacking_field(state@) {
                Some(field) => result matches Err(RlTrainerCheckpointError::Uninitialized(name)) && name@ == field,
                None => result is Ok && checkpoint_holds(result->Ok_0, self.model(), state@),
            },
    {
        let should_stop = match state.should_stop {
            Some(should_stop) => should_stop,
            None => return Err(RlTrainerCheckpointError::Uninitialized("should_stop")),
        };
        let current_iter = match &state.current_iter {
            Some(number) => number.copied(),
            None => return Err(RlTrainerCheckpointError::Uninitialized("current_iter")),
        };
        let current_episode = match &state.current_episode {
            Some(number) => number.copied(),
            None => return Err(RlTrainerCheckpointError::Uninitialized("current_episode")),
        };
        let metrics = match &state.metrics {
            Some(metrics) => copied_metrics(metrics),
            None => return Err(RlTrainerCheckpointError::Uninitialized("metrics")),
        };
        Ok(
            RlTrainerCheckpoint {
                vessel: RlCheckpointField::Present(self.vessel.unwrap()),
                callbacks: RlCheckpointField::Present(self.saved_callbacks),
                loggers: RlCheckpointField::Present(self.saved_loggers),
                should_stop: RlCheckpointField::Present(should_stop),
                current_iter: RlCheckpointField::Present(current_iter),
                current_episode: RlCheckpointField::Present(current_episode),
                current_stage: RlCheckpointField::Present(state.current_stage.clone()),
                metrics: RlCheckpointField::Present(metrics),
            },
        )
    }
}

// ---- restoring --------------------------------------------------------------------------------

/// What is restored at a position: the vessel comes first, then the callbacks, then the loggers,
/// and the state of the trainer last.
pub enum RestoreStep<'a, V, C, L> {
    Vessel(&'a V),
    Callback(usize, &'a C),
    Logger(usize, &'a L),
    Metadata,
}

/// Whether a lookup of a component's state gives a result: its state, or the path that is missing.
pub open spec fn is_lookup<S>(
    result: Result<S, RlTrainerCheckpointError>,
    field: RlCheckpointField<OrderedMap<S>>,
    group: Seq<char>,
    key: Seq<char>,
) -> bool {
    match field {
        RlCheckpointField::Missing => result matches Err(RlTrainerCheckpointError::MissingField(path)) && path@ == group,
        RlCheckpointField::Present(map) => match value_of(map@, key) {
            Some(state) => result == Ok::<S, RlTrainerCheckpointError>(state),
            None => result matches Err(RlTrainerCheckpointError::MissingField(path)) && path@ == component_path(
                group,
                key,
            ),
        },
    }
}

fn find_state<'a, S>(field: &'a RlCheckpointField<OrderedMap<S>>, group: &str, key: &str) -> (result: Result<
    &'a S,
    RlTrainerCheckpointError,
>)
    ensures
        is_lookup(
            match result {
                Ok(state) => Ok(*state),
                Err(error) => Err(error),
            },
            *field,
            group@,
            key@,
        ),
{
    match field.require(group) {
        Ok(map) => match map.get(key) {
            Some(state) => Ok(state),
            None => Err(RlTrainerCheckpointError::MissingField(path_of(group, key))),
        },
        Err(error) => Err(error),
    }
}

/// What is restored at a position of a checkpoint. A group is looked up only where there is a
/// component for it.
pub fn restore_step<'a, V, C, L, M>(
    checkpoint: &'a RlTrainerCheckpoint<V, C, L, M>,
    callbacks: &OrderedMap<usize>,
    loggers: &OrderedMap<usize>,
    position: usize,
) -> (result: Result<RestoreStep<'a, V, C, L>, RlTrainerCheckpointError>)
    ensures
        ({
            let first_logger = 1 + callbacks@.len();
            if position == 0 {
                match checkpoint.vessel {
                    RlCheckpointField::Missing => result matches Err(RlTrainerCheckpointError::MissingField(path)) && path@
                        == "vessel"@,
                    RlCheckpointField::Present(vessel) => result matches Ok(RestoreStep::Vessel(found)) && *found
                        == vessel,
                }
            } else if position < first_logger {
                let place = callbacks@[position - 1];
                match result {
                    Ok(RestoreStep::Callback(index, state)) => index == place.1 && is_lookup(
                        Ok(*state),
                        checkpoint.callbacks,
                        "callbacks"@,
                        place.0,
                    ),
                    Err(error) => is_lookup(Err(error), checkpoint.callbacks, "callbacks"@, place.0),
                    _ => false,
                }
            } else if position < first_logger + loggers@.len() {
                let place = loggers@[position - first_logger];
                match result {
                    Ok(RestoreStep::Logger(index, state)) => index == place.1 && is_lookup(
                        Ok(*state),
                        checkpoint.loggers,
                        "loggers"@,
                        place.0,
                    ),
                    Err(error) => is_lookup(Err(error), checkpoint.loggers, "loggers"@, place.0),
                    _ => false,
                }
            } else {
                result is Ok && result->Ok_0 is Metadata
            }
        }),
{
    if position == 0 {
        return match checkpoint.vessel.require("vessel") {
            Ok(vessel) => Ok(RestoreStep::Vessel(vessel)),
            Err(error) => Err(error),
        };
    }
    let behind: usize = position - 1;
    let callback_count: usize = callbacks.len();
    if behind < callback_count {
        let index: usize = *callbacks.value_at(behind);
        return match find_state(&checkpoint.callbacks, "callbacks", callbacks.name_at(behind).as_str()) {
            Ok(state) => Ok(RestoreStep::Callback(index, state)),
            Err(error) => Err(error),
        };
    }
    let place: usize = behind - callback_count;
    if place < loggers.len() {
        let index: usize = *loggers.value_at(place);
        return match find_state(&checkpoint.loggers, "loggers", loggers.name_at(place).as_str()) {
            Ok(state) => Ok(RestoreStep::Logger(index, state)),
            Err(error) => Err(error),
        };
    }
    Ok(RestoreStep::Metadata)
}

/// The error of a component that could not be restored at a position.
pub fn restore_failure(
    callbacks: &OrderedMap<usize>,
    loggers: &OrderedMap<usize>,
    position: usize,
    message: String,
) -> (result: RlTrainerCheckpointError)
    requires
        position < 1 + callbacks@.len() + loggers@.len(),
    ensures
        is_component_failure(
            result,
            RlCheckpointOperation::Load,
            if position == 0 {
                "vessel"@
            } else if position < 1 + callbacks@.len() {
                component_path("callbacks"@, callbacks@[position - 1].0)
            } else {
                component_path("loggers"@, loggers@[position - 1 - callbacks@.len()].0)
            },
            message@,
        ),
{
    let component = if position == 0 {
        "vessel".to_owned()
    } else {
        let behind: usize = position - 1;
        let callback_count: usize = callbacks.len();
        if behind < callback_count {
            path_of("callbacks", callbacks.name_at(behind).as_str())
        } else {
            path_of("loggers", loggers.name_at(behind - callback_count).as_str())
        }
    };
    RlTrainerCheckpointError::Component { operation: RlCheckpointOperation::Load, component, message }
}

/// The first field of a trainer's state that a checkpoint lacks.
pub open spec fn missing_metadata<V, C, L, M>(checkpoint: RlTrainerCheckpoint<V, C, L, M>) -> Option<Seq<char>> {
    if checkpoint.should_stop is Missing {
        Some("should_stop"@)
    } else if checkpoint.current_iter is Missing {
        Some("current_iter"@)
    } else if checkpoint.current_episode is Missing {
        Some("current_episode"@)
    } else if checkpoint.current_stage is Missing {
        Some("current_stage"@)
    } else if checkpoint.metrics is Missing {
        Some("metrics"@)
    } else {
        None
    }
}

/// A trainer's state after the metadata of a checkpoint was assigned, up to the first field that
/// is missing.
pub open spec fn with_metadata<V, C, L, M>(
    state: TrainerModel<M>,
    checkpoint: RlTrainerCheckpoint<V, C, L, M>,
) -> TrainerModel<M> {
    let stops = TrainerModel { should_stop: Some(checkpoint.should_stop->Present_0), ..state };
    if checkpoint.should_stop is Missing {
        state
    } else if checkpoint.current_iter is Missing {
        stops
    } else {
        let iterated = TrainerModel { current_iter: Some(checkpoint.current_iter->Present_0@), ..stops };
        if checkpoint.current_episode is Missing {
            iterated
        } else {
            let episode = TrainerModel { current_episode: Some(checkpoint.current_episode->Present_0@), ..iterated };
            if checkpoint.current_stage is Missing {
                episode
            } else {
                let stage = TrainerModel { current_stage: checkpoint.current_stage->Present_0@, ..episode };
                if checkpoint.metrics is Missing {
                    stage
                } else {
                    TrainerModel { metrics: Some(checkpoint.metrics->Present_0@), ..stage }
                }
            }
        }
    }
}

/// Assigns the metadata of a checkpoint field by field. What is missing stops the assignment and
/// keeps what was assigned before.
pub fn load_metadata<V, C, L, M: Duplicate>(
    state: &mut RlTrainerState<M>,
    checkpoint: &RlTrainerCheckpoint<V, C, L, M>,
) -> (result: Result<(), RlTrainerCheckpointError>)
    ensures
        final(state)@ == with_metadata(old(state)@, *checkpoint),
        match missing_metadata(*checkpoint) {
            Some(field) => result matches Err(RlTrainerCheckpointError::MissingField(path)) && path@ == field,
            None => result is Ok,
        },
{
    match checkpoint.should_stop.require("should_stop") {
        Ok(should_stop) => {
            state.should_stop = Some(*should_stop);
        },
        Err(error) => return Err(error),
    }
    match checkpoint.current_iter.require("current_iter") {
        Ok(number) => {
            state.current_iter = Some(number.copied());
        },
        Err(error) => return Err(error),
    }
    match checkpoint.current_episode.require("current_episode") {
        Ok(number) => {
            state.current_episode = Some(number.copied());
        },
        Err(error) => return Err(error),
    }
    match checkpoint.current_stage.require("current_stage") {
        Ok(stage) => {
            state.current_stage = stage.clone();
        },
        Err(error) => return Err(error),
    }
    match checkpoint.metrics.require("metrics") {
        Ok(metrics) => {
            state.metrics = Some(copied_metrics(metrics));
        },
        Err(error) => return Err(error),
    }
    Ok(())
}

/// Once every component of a group is saved, each key finds the state that was saved under it.
pub proof fn saved_components_are_found<S>(saved: Seq<(Seq<char>, S)>, names: Seq<String>, position: int)
    requires
        names.len() <= usize::MAX,
        saved_in_order(saved, component_places(names)),
        saved.len() == component_places(names).len(),
        0 <= position < saved.len(),
    ensures
        value_of(saved, component_places(names)[position].0) == Some(saved[position].1),
{
    let places = component_places(names);
    places_are_components(names);
    assert(saved[position].0 == places[position].0);
    assert forall|i: int| 0 <= i < position implies saved[i].0 != places[position].0 by {
        assert(saved[i].0 == places[i].0);
    }
    crate::ordered::find_name_is(saved, places[position].0, position);
}

/// A checkpoint restores the state of the trainer that it was made of, whatever the state was
/// before.
pub proof fn restore_undoes_change<V, C, L, M>(
    checkpoint: RlTrainerCheckpoint<V, C, L, M>,
    save: SaveModel<V, C, L>,
    saved: TrainerModel<M>,
    state: TrainerModel<M>,
)
    requires
        lacking_field(saved) is None,
        checkpoint_holds(checkpoint, save, saved),
    ensures
        missing_metadata(checkpoint) is None,
        with_metadata(state, checkpoint) == saved,
{
}

/// A component stands under its name in lowercase where it is the first of that name, and otherwise
/// under the name with the number of those before it, unless a later component has the same key.
pub proof fn components_stand_under_their_keys(
    names: Vec<String>,
    result: OrderedMap<usize>,
    position: usize,
    earlier: nat,
    key: Seq<char>,
)
    requires
        call_ensures(named_rl_checkpoint_indices, (&names,), result),
        position < names@.len(),
        names@.len() <= usize::MAX,
        earlier == names@.take(position as int).filter(
            |name: String| lowercase(name@) == lowercase(names@[position as int]@),
        ).len(),
        key == if earlier == 0 {
            lowercase(names@[position as int]@)
        } else {
            lowercase(names@[position as int]@) + decimal_digits(earlier)
        },
        forall|later: int|
            position < later < names@.len() ==> #[trigger] component_key(lowercased(names@), later) != key,
    ensures
        value_of(result@, key) == Some(position),
{
    let lower = lowercased(names@);
    let keys = keyed(lower);
    let place = position as int;
    assert(lower.take(place) =~= lowercased(names@.take(place)));
    occurrences_are_counted(names@.take(place), lower[place]);
    assert(names@.take(place).filter(|name: String| lowercase(name@) == lower[place]).len() == earlier) by {
        assert(lower[place] == lowercase(names@[place]@));
    }
    assert(component_key(lower, place) == key);
    assert(keys[place] == (key, position));
    assert forall|later: int| place < later < keys.len() implies (#[trigger] keys[later]).0 != key by {
        assert(component_key(lower, later) != key);
    }
    crate::ordered::last_entries_are_read_back(Seq::empty(), keys, key);
}

proof fn occurrences_are_counted(names: Seq<String>, name: Seq<char>)
    ensures
        occurrences(lowercased(names), name) == names.filter(|other: String| lowercase(other@) == name).len(),
    decreases names.len(),
{
    reveal(Seq::filter);
    if names.len() > 0 {
        let fewer = names.drop_last();
        occurrences_are_counted(fewer, name);
        assert(lowercased(names).drop_last() =~= lowercased(fewer));
    } else {
        assert(lowercased(names) =~= Seq::empty());
    }
}

} // verus!
