//! What policies of order execution see, and what their actions mean.
use crate::number::{fits, held, quotients_undo, Number, Ticks};
use crate::order::{OrderDir, Timestamp};
use crate::risk_analysis::Statistic;
use crate::saoe::{HistoryPositions, SaoeState};
use vstd::prelude::*;

verus! {

/// The arithmetic of order execution: a [`Statistic`] with a narrower form for observations.
pub trait ExecutionNumber: Statistic {
    type Narrow: Copy;

    open spec fn narrow_spec(self) -> Self::Narrow {
        arbitrary()
    }

    open spec fn narrow_zero_spec() -> Self::Narrow {
        arbitrary()
    }

    /// The value of a step.
    open spec fn of_step_spec(step: i64) -> Self {
        arbitrary()
    }

    fn narrow(self) -> (result: Self::Narrow)
        ensures
            result == self.narrow_spec(),
    ;

    fn narrow_zero() -> (result: Self::Narrow)
        ensures
            result == Self::narrow_zero_spec(),
    ;

    fn of_step(step: i64) -> (result: Self)
        ensures
            result == Self::of_step_spec(step),
    ;
}

impl ExecutionNumber for Ticks {
    type Narrow = Ticks;

    open spec fn narrow_spec(self) -> Ticks {
        self
    }

    open spec fn narrow_zero_spec() -> Ticks {
        Ticks(Some(0))
    }

    open spec fn of_step_spec(step: i64) -> Self {
        Ticks(Some(step))
    }

    fn narrow(self) -> (result: Ticks) {
        self
    }

    fn narrow_zero() -> (result: Ticks) {
        Ticks(Some(0))
    }

    fn of_step(step: i64) -> (result: Self) {
        Ticks(Some(step))
    }
}

/// What a policy sees of the current step.
#[derive(Clone, Copy, Debug, PartialEq)]
pub struct CurrentStepObservation<V> {
    pub acquiring: bool,
    pub cur_step: i64,
    pub num_step: i64,
    pub target: V,
    pub position: V,
}

/// A table of numbers, row by row.
#[derive(Debug)]
pub struct Grid<W> {
    pub rows: Vec<Vec<W>>,
    /// The number of columns, also where there are no rows.
    pub columns: usize,
}

/// The rows of a table.
pub open spec fn grid_rows<W>(grid: Grid<W>) -> Seq<Seq<W>> {
    Seq::new(grid.rows@.len(), |i: int| grid.rows@[i]@)
}

/// What a policy sees of the whole history, in a fixed shape.
#[derive(Debug)]
pub struct FullHistoryObservation<W> {
    pub data_processed: Grid<W>,
    pub data_processed_prev: Grid<W>,
    pub acquiring: i32,
    pub cur_tick: i32,
    pub cur_step: i32,
    pub num_step: i32,
    pub target: W,
    pub position: W,
    pub position_history: Vec<W>,
}

/// What a policy sees.
#[derive(Debug)]
pub enum SaoeObservation<V, W> {
    Dummy { dummy: i32 },
    CurrentStep(CurrentStepObservation<V>),
    FullHistory(FullHistoryObservation<W>),
}

/// Processed features of two days.
#[derive(Debug)]
pub struct ProcessedSaoeData<W> {
    pub today: Grid<W>,
    pub yesterday: Grid<W>,
    pub today_index: Vec<Timestamp>,
}

/// What a policy does.
#[derive(Clone, Copy, Debug, PartialEq)]
pub enum SaoePolicyAction<V> {
    Discrete(i64),
    Continuous(V),
}

/// An action and the volume that it means.
#[derive(Clone, Copy, Debug, PartialEq)]
pub struct SaoePolicyDecision<V> {
    pub action: SaoePolicyAction<V>,
    pub execution_volume: V,
}

/// Which actions there are.
#[derive(Clone, Copy, Debug, PartialEq, Eq, Structural)]
pub enum SaoeActionSpace {
    Discrete { size: usize },
    NonNegativeContinuous,
}

/// A dimension of an observation.
#[derive(Clone, Copy, Debug, PartialEq, Eq, Structural)]
pub enum ObservationDimension {
    MaxStep,
    DataTicks,
    DataDim,
}

/// The day of processed features.
#[derive(Clone, Copy, Debug, PartialEq, Eq, Structural)]
pub enum ProcessedDay {
    Today,
    Yesterday,
}

/// Why a state or an action could not be interpreted.
#[derive(Debug)]
pub enum SaoeInterpreterError {
    InvalidMaxStep(i64),
    EmptyCategoricalCount,
    EmptyCategoricalValues,
    ExpectedDiscrete,
    ExpectedContinuous,
    DiscreteOutOfRange { action: i64, size: usize },
    NegativeContinuous,
    ZeroTicksPerStep,
    NoRemainingSteps,
    InvalidObservationDimension { name: ObservationDimension, value: usize },
    ProcessedShape { dataset: ProcessedDay, expected: (usize, usize), actual: (usize, usize) },
    ProcessedIndexLength { expected: usize, actual: usize },
    MissingHistoryPosition,
    InvalidHistoryPositionType(String),
    NullHistoryPosition,
    HistoryTooLong { actual: usize, max_step: usize },
    MissingOrderStartTime,
    ProcessedDataPlugin(String),
    PolicyBatchLength { expected: usize, actual: usize },
    LiveState(String),
}

/// Makes observations of states. It keeps nothing between two states.
pub trait SaoeStateInterpreter<V: ExecutionNumber> {
    /// What is seen of a state.
    open spec fn observed(&self, state: SaoeState<V>) -> Result<SaoeObservation<V, V::Narrow>, SaoeInterpreterError> {
        arbitrary()
    }

    fn interpret(&self, state: &SaoeState<V>) -> (result: Result<
        SaoeObservation<V, V::Narrow>,
        SaoeInterpreterError,
    >)
        ensures
            result == self.observed(*state),
    ;
}

/// Makes volumes of actions. It keeps nothing between two actions.
pub trait SaoeActionInterpreter<V: ExecutionNumber> {
    /// Which actions are understood.
    open spec fn space(&self) -> SaoeActionSpace {
        arbitrary()
    }

    /// The volume that an action means in a state.
    open spec fn volume(&self, state: SaoeState<V>, action: SaoePolicyAction<V>) -> Result<V, SaoeInterpreterError> {
        arbitrary()
    }

    fn action_space(&self) -> (result: SaoeActionSpace)
        ensures
            result == self.space(),
    ;

    fn interpret(&self, state: &SaoeState<V>, action: SaoePolicyAction<V>) -> (result: Result<V, SaoeInterpreterError>)
        ensures
            result == self.volume(*state, action),
    ;
}

/// Chooses an action for each observation. What it chooses is its own affair, and it may give
/// more or fewer actions than there are observations.
pub trait SaoePolicy<V: ExecutionNumber>: Sized {
    /// Whether a policy that is asked with observations may give a reply and become another.
    open spec fn replies(
        before: Self,
        observations: Seq<SaoeObservation<V, V::Narrow>>,
        after: Self,
        reply: Result<Seq<SaoePolicyAction<V>>, SaoeInterpreterError>,
    ) -> bool {
        arbitrary()
    }

    fn actions(&mut self, observations: &Vec<SaoeObservation<V, V::Narrow>>) -> (result: Result<
        Vec<SaoePolicyAction<V>>,
        SaoeInterpreterError,
    >)
        ensures
            Self::replies(*old(self), observations@, *final(self), listed(result)),
    ;
}

// ---- state interpreters -----------------------------------------------------------------------

/// Sees nothing of a state.
#[derive(Clone, Copy, Debug, Default)]
pub struct DummyStateInterpreter;

impl<V: ExecutionNumber> SaoeStateInterpreter<V> for DummyStateInterpreter {
    open spec fn observed(&self, state: SaoeState<V>) -> Result<
        SaoeObservation<V, V::Narrow>,
        SaoeInterpreterError,
    > {
        Ok(SaoeObservation::Dummy { dummy: 1 })
    }

    fn interpret(&self, state: &SaoeState<V>) -> (result: Result<
        SaoeObservation<V, V::Narrow>,
        SaoeInterpreterError,
    >) {
        Ok(SaoeObservation::Dummy { dummy: 1 })
    }
}

/// Sees the current step of an episode of a fixed length.
#[derive(Clone, Copy, Debug)]
pub struct CurrentStepStateInterpreter {
    pub max_step: i64,
}

impl CurrentStepStateInterpreter {
    /// An episode has at least one step.
    pub fn new(max_step: i64) -> (result: Result<Self, SaoeInterpreterError>)
        ensures
            if max_step <= 0 {
                result == Err::<Self, _>(SaoeInterpreterError::InvalidMaxStep(max_step))
            } else {
                result matches Ok(interpreter) && interpreter.max_step == max_step
            },
    {
        if max_step <= 0 {
            return Err(SaoeInterpreterError::InvalidMaxStep(max_step));
        }
        Ok(CurrentStepStateInterpreter { max_step })
    }
}

impl<V: ExecutionNumber> SaoeStateInterpreter<V> for CurrentStepStateInterpreter {
    open spec fn observed(&self, state: SaoeState<V>) -> Result<
        SaoeObservation<V, V::Narrow>,
        SaoeInterpreterError,
    > {
        if state.parts.cur_step > self.max_step {
            Err(SaoeInterpreterError::InvalidMaxStep(self.max_step))
        } else {
            Ok(
                SaoeObservation::CurrentStep(
                    CurrentStepObservation {
                        acquiring: state.parts.order.direction == OrderDir::Buy,
                        cur_step: state.parts.cur_step,
                        num_step: self.max_step,
                        target: state.parts.order.amount,
                        position: state.parts.position,
                    },
                ),
            )
        }
    }

    fn interpret(&self, state: &SaoeState<V>) -> (result: Result<
        SaoeObservation<V, V::Narrow>,
        SaoeInterpreterError,
    >) {
        if state.parts.cur_step > self.max_step {
            return Err(SaoeInterpreterError::InvalidMaxStep(self.max_step));
        }
        Ok(
            SaoeObservation::CurrentStep(
                CurrentStepObservation {
                    acquiring: state.parts.order.direction == OrderDir::Buy,
                    cur_step: state.parts.cur_step,
                    num_step: self.max_step,
                    target: state.parts.order.amount,
                    position: state.parts.position,
                },
            ),
        )
    }
}

/// Sees the whole history in a fixed shape, with features that a provider processed.
#[derive(Clone, Copy, Debug)]
pub struct FullHistoryStateInterpreter {
    pub max_step: usize,
    pub data_ticks: usize,
    pub data_dim: usize,
}

/// What the provider of processed features is asked for.
pub struct ProcessedRequest<'a> {
    pub stock_id: &'a String,
    /// The day of the request is that of this time.
    pub start_time: Timestamp,
    pub feature_dim: usize,
    pub time_index: &'a Vec<Timestamp>,
}

/// Whether a dimension is one.
pub open spec fn is_dimension(value: usize) -> bool {
    0 < value <= i32::MAX
}

fn validate_observation_dimension(name: ObservationDimension, value: usize) -> (result: Option<SaoeInterpreterError>)
    ensures
        result == if is_dimension(value) {
            None
        } else {
            Some(SaoeInterpreterError::InvalidObservationDimension { name, value })
        },
{
    if value == 0 || value > 2147483647 {
        return Some(SaoeInterpreterError::InvalidObservationDimension { name, value });
    }
    None
}

/// The shape of a table.
pub open spec fn shape_of<W>(grid: Grid<W>) -> (usize, usize) {
    (grid.rows@.len() as usize, grid.columns)
}

fn validate_processed_shape<W>(dataset: ProcessedDay, grid: &Grid<W>, rows: usize, columns: usize) -> (result: Option<
    SaoeInterpreterError,
>)
    ensures
        result == if shape_of(*grid) == (rows, columns) {
            None
        } else {
            Some(
                SaoeInterpreterError::ProcessedShape {
                    dataset,
                    expected: (rows, columns),
                    actual: shape_of(*grid),
                },
            )
        },
{
    if grid.rows.len() == rows && grid.columns == columns {
        return None;
    }
    Some(
        SaoeInterpreterError::ProcessedShape {
            dataset,
            expected: (rows, columns),
            actual: (grid.rows.len(), grid.columns),
        },
    )
}

/// Why the positions of a history cannot be used.
pub open spec fn history_failure<V>(history: HistoryPositions<V>, max_step: usize) -> Option<SaoeInterpreterError> {
    match history {
        HistoryPositions::Missing => Some(SaoeInterpreterError::MissingHistoryPosition),
        HistoryPositions::WithNulls => Some(SaoeInterpreterError::NullHistoryPosition),
        HistoryPositions::OtherType(name) => Some(SaoeInterpreterError::InvalidHistoryPositionType(name)),
        HistoryPositions::Values(values) => if values@.len() > max_step {
            Some(SaoeInterpreterError::HistoryTooLong { actual: values@.len() as usize, max_step })
        } else {
            None
        },
    }
}

/// Whether a failure is the one of a history.
pub open spec fn is_history_failure(error: SaoeInterpreterError, expected: SaoeInterpreterError) -> bool {
    match expected {
        SaoeInterpreterError::InvalidHistoryPositionType(name) => error matches
            SaoeInterpreterError::InvalidHistoryPositionType(said) && said@ == name@,
        _ => error == expected,
    }
}

/// Features of a day with the rows that are not over yet set to zero.
pub open spec fn masked<V: ExecutionNumber>(
    rows: Seq<Seq<V::Narrow>>,
    index: Seq<Timestamp>,
    now: Timestamp,
    columns: usize,
) -> Seq<Seq<V::Narrow>> {
    Seq::new(
        rows.len(),
        |i: int|
            if now.at_or_before(index[i]) {
                Seq::new(columns as nat, |k: int| V::narrow_zero_spec())
            } else {
                rows[i]
            },
    )
}

/// The number of ticks before a time.
pub open spec fn ticks_before(ticks: Seq<Timestamp>, now: Timestamp) -> nat
    decreases ticks.len(),
{
    if ticks.len() == 0 {
        0
    } else {
        ticks_before(ticks.drop_last(), now) + if now.at_or_before(ticks.last()) {
            0nat
        } else {
            1nat
        }
    }
}

/// The first positions of an order: its amount, then what was left after each step, then zeros.
pub open spec fn padded_history<V: ExecutionNumber>(amount: V, positions: Seq<V>, length: usize) -> Seq<V::Narrow> {
    Seq::new(
        length as nat,
        |i: int|
            if i == 0 {
                amount.narrow_spec()
            } else if i <= positions.len() {
                positions[i - 1].narrow_spec()
            } else {
                V::narrow_zero_spec()
            },
    )
}

/// The lesser of two numbers.
pub open spec fn least(a: int, b: int) -> int {
    if a <= b {
        a
    } else {
        b
    }
}

fn count_before(ticks: &Vec<Timestamp>, now: Timestamp) -> (result: usize)
    ensures
        result == ticks_before(ticks@, now),
{
    let mut count: usize = 0;
    let mut i: usize = 0;
    assert(ticks@.take(0) =~= Seq::empty());
    while i < ticks.len()
        invariant
            i <= ticks@.len(),
            count <= i,
            count == ticks_before(ticks@.take(i as int), now),
        decreases ticks@.len() - i,
    {
        proof {
            assert(ticks@.take(i + 1).drop_last() =~= ticks@.take(i as int));
            assert(ticks@.take(i + 1).last() == ticks@[i as int]);
        }
        if !now.le(ticks[i]) {
            count += 1;
        }
        i += 1;
    }
    assert(ticks@.take(i as int) =~= ticks@);
    count
}

fn zero_row<V: ExecutionNumber>(columns: usize) -> (result: Vec<V::Narrow>)
    ensures
        result@ == Seq::new(columns as nat, |k: int| V::narrow_zero_spec()),
{
    let mut row: Vec<V::Narrow> = Vec::new();
    let mut k: usize = 0;
    while k < columns
        invariant
            k <= columns,
            row@ == Seq::new(k as nat, |k: int| V::narrow_zero_spec()),
        decreases columns - k,
    {
        row.push(V::narrow_zero());
        k += 1;
        assert(row@ =~= Seq::new(k as nat, |k: int| V::narrow_zero_spec()));
    }
    row
}

fn mask<V: ExecutionNumber>(grid: Grid<V::Narrow>, index: &Vec<Timestamp>, now: Timestamp) -> (result: Grid<V::Narrow>)
    requires
        index@.len() == grid.rows@.len(),
    ensures
        result.columns == grid.columns,
        grid_rows(result) == masked::<V>(grid_rows(grid), index@, now, grid.columns),
{
    let ghost before = grid_rows(grid);
    let columns: usize = grid.columns;
    let mut rows = grid.rows;
    let ghost original = rows@;
    let mut i: usize = 0;
    while i < index.len()
        invariant
            i <= index@.len(),
            rows@.len() == original.len(),
            index@.len() == original.len(),
            forall|j: int| i <= j < original.len() ==> (#[trigger] rows@[j]) == original[j],
            forall|j: int|
                0 <= j < i ==> (#[trigger] rows@[j])@ == if now.at_or_before(index@[j]) {
                    Seq::new(columns as nat, |k: int| V::narrow_zero_spec())
                } else {
                    original[j]@
                },
        decreases index@.len() - i,
    {
        if now.le(index[i]) {
            rows.set(i, zero_row::<V>(columns));
        }
        i += 1;
    }
    let result = Grid { rows, columns };
    assert(grid_rows(result) =~= masked::<V>(before, index@, now, columns));
    result
}

fn pad_history<V: ExecutionNumber>(amount: V, positions: &Vec<V>, length: usize) -> (result: Vec<V::Narrow>)
    ensures
        result@ == padded_history(amount, positions@, length),
{
    let mut history: Vec<V::Narrow> = Vec::new();
    let mut i: usize = 0;
    while i < length
        invariant
            i <= length,
            history@ == padded_history(amount, positions@, i),
        decreases length - i,
    {
        if i == 0 {
            history.push(amount.narrow());
        } else if i - 1 < positions.len() {
            history.push(positions[i - 1].narrow());
        } else {
            history.push(V::narrow_zero());
        }
        i += 1;
        assert(history@ =~= padded_history(amount, positions@, i));
    }
    history
}

impl FullHistoryStateInterpreter {
    /// The dimensions are positive and small enough for an observation.
    pub open spec fn wf(&self) -> bool {
        is_dimension(self.max_step) && is_dimension(self.data_ticks) && is_dimension(self.data_dim)
    }

    pub fn new(max_step: usize, data_ticks: usize, data_dim: usize) -> (result: Result<Self, SaoeInterpreterError>)
        ensures
            if !is_dimension(max_step) {
                result == Err::<Self, _>(
                    SaoeInterpreterError::InvalidObservationDimension {
                        name: ObservationDimension::MaxStep,
                        value: max_step,
                    },
                )
            } else if !is_dimension(data_ticks) {
                result == Err::<Self, _>(
                    SaoeInterpreterError::InvalidObservationDimension {
                        name: ObservationDimension::DataTicks,
                        value: data_ticks,
                    },
                )
            } else if !is_dimension(data_dim) {
                result == Err::<Self, _>(
                    SaoeInterpreterError::InvalidObservationDimension {
                        name: ObservationDimension::DataDim,
                        value: data_dim,
                    },
                )
            } else {
                result matches Ok(interpreter) && interpreter.wf() && interpreter.max_step == max_step
                    && interpreter.data_ticks == data_ticks && interpreter.data_dim == data_dim
            },
    {
        match validate_observation_dimension(ObservationDimension::MaxStep, max_step) {
            Some(error) => return Err(error),
            None => {},
        }
        match validate_observation_dimension(ObservationDimension::DataTicks, data_ticks) {
            Some(error) => return Err(error),
            None => {},
        }
        match validate_observation_dimension(ObservationDimension::DataDim, data_dim) {
            Some(error) => return Err(error),
            None => {},
        }
        Ok(FullHistoryStateInterpreter { max_step, data_ticks, data_dim })
    }

    /// What the provider of processed features is asked for.
    pub fn request<'a, V>(&self, state: &'a SaoeState<V>) -> (result: Result<ProcessedRequest<'a>, SaoeInterpreterError>)
        ensures
            match state.parts.order.start_time {
                None => result == Err::<ProcessedRequest<'a>, _>(SaoeInterpreterError::MissingOrderStartTime),
                Some(start_time) => result matches Ok(request) && request.stock_id@ == state.parts.order.stock_id@
                    && request.start_time == start_time && request.feature_dim == self.data_dim
                    && request.time_index@ == state.parts.ticks_index@,
            },
    {
        match state.parts.order.start_time {
            None => Err(SaoeInterpreterError::MissingOrderStartTime),
            Some(start_time) => Ok(
                ProcessedRequest {
                    stock_id: &state.parts.order.stock_id,
                    start_time,
                    feature_dim: self.data_dim,
                    time_index: &state.parts.ticks_index,
                },
            ),
        }
    }

    /// Why an observation of a state cannot be made with given features.
    pub open spec fn failure<V: ExecutionNumber>(
        &self,
        state: SaoeState<V>,
        processed: ProcessedSaoeData<V::Narrow>,
    ) -> Option<SaoeInterpreterError> {
        let expected = (self.data_ticks, self.data_dim);
        if shape_of(processed.today) != expected {
            Some(
                SaoeInterpreterError::ProcessedShape {
                    dataset: ProcessedDay::Today,
                    expected,
                    actual: shape_of(processed.today),
                },
            )
        } else if shape_of(processed.yesterday) != expected {
            Some(
                SaoeInterpreterError::ProcessedShape {
                    dataset: ProcessedDay::Yesterday,
                    expected,
                    actual: shape_of(processed.yesterday),
                },
            )
        } else if processed.today_index@.len() != self.data_ticks {
            Some(
                SaoeInterpreterError::ProcessedIndexLength {
                    expected: self.data_ticks,
                    actual: processed.today_index@.len() as usize,
                },
            )
        } else {
            history_failure(state.parts.history_steps, self.max_step)
        }
    }

    /// Whether an observation is the one of a state with given features. The ticks and the steps of
    /// a state beyond the shape are shown as the last ones.
    pub open spec fn shows<V: ExecutionNumber>(
        &self,
        observation: FullHistoryObservation<V::Narrow>,
        state: SaoeState<V>,
        processed: ProcessedSaoeData<V::Narrow>,
    ) -> bool {
        let parts = state.parts;
        &&& observation.data_processed.columns == self.data_dim
        &&& grid_rows(observation.data_processed) == masked::<V>(
            grid_rows(processed.today),
            processed.today_index@,
            parts.cur_time,
            self.data_dim,
        )
        &&& observation.data_processed_prev == processed.yesterday
        &&& observation.acquiring == if parts.order.direction == OrderDir::Buy {
            1i32
        } else {
            0i32
        }
        &&& observation.cur_tick == least(
            ticks_before(parts.ticks_index@, parts.cur_time) as int,
            self.data_ticks - 1,
        )
        &&& observation.cur_step == truncated_step(least(parts.cur_step as int, self.max_step - 1))
        &&& observation.num_step == self.max_step
        &&& observation.target == parts.order.amount.narrow_spec()
        &&& observation.position == parts.position.narrow_spec()
        &&& observation.position_history@ == padded_history(
            parts.order.amount,
            parts.history_steps->Values_0@,
            self.max_step,
        )
    }

    /// Makes the observation of a state with the features that the provider gave.
    pub fn observe<V: ExecutionNumber>(
        &self,
        state: &SaoeState<V>,
        processed: ProcessedSaoeData<V::Narrow>,
    ) -> (result: Result<FullHistoryObservation<V::Narrow>, SaoeInterpreterError>)
        requires
            self.wf(),
        ensures
            match self.failure(*state, processed) {
                Some(error) => result is Err && is_history_failure(result->Err_0, error),
                None => result is Ok && self.shows(result->Ok_0, *state, processed),
            },
    {
        match validate_processed_shape(ProcessedDay::Today, &processed.today, self.data_ticks, self.data_dim) {
            Some(error) => return Err(error),
            None => {},
        }
        match validate_processed_shape(ProcessedDay::Yesterday, &processed.yesterday, self.data_ticks, self.data_dim) {
            Some(error) => return Err(error),
            None => {},
        }
        if processed.today_index.len() != self.data_ticks {
            return Err(
                SaoeInterpreterError::ProcessedIndexLength {
                    expected: self.data_ticks,
                    actual: processed.today_index.len(),
                },
            );
        }
        let parts = &state.parts;
        let positions = match &parts.history_steps {
            HistoryPositions::Missing => return Err(SaoeInterpreterError::MissingHistoryPosition),
            HistoryPositions::WithNulls => return Err(SaoeInterpreterError::NullHistoryPosition),
            HistoryPositions::OtherType(name) => return Err(
                SaoeInterpreterError::InvalidHistoryPositionType(name.clone()),
            ),
            HistoryPositions::Values(values) => values,
        };
        if positions.len() > self.max_step {
            return Err(SaoeInterpreterError::HistoryTooLong { actual: positions.len(), max_step: self.max_step });
        }
        let row_count: usize = processed.today.rows.len();
        assert(row_count == processed.today.rows@.len());
        let ProcessedSaoeData { today, yesterday, today_index } = processed;
        let data_processed = mask::<V>(today, &today_index, parts.cur_time);
        let before: usize = count_before(&parts.ticks_index, parts.cur_time);
        let cur_tick: usize = if before <= self.data_ticks - 1 {
            before
        } else {
            self.data_ticks - 1
        };
        let last_step: i64 = (self.max_step - 1) as i64;
        let shown_step: i64 = if parts.cur_step <= last_step {
            parts.cur_step
        } else {
            last_step
        };
        Ok(
            FullHistoryObservation {
                data_processed,
                data_processed_prev: yesterday,
                acquiring: if parts.order.direction == OrderDir::Buy {
                    1
                } else {
                    0
                },
                cur_tick: cur_tick as i32,
                cur_step: truncate_step(shown_step),
                num_step: self.max_step as i32,
                target: parts.order.amount.narrow(),
                position: parts.position.narrow(),
                position_history: pad_history(parts.order.amount, positions, self.max_step),
            },
        )
    }
}

/// A step as thirty-two bits hold it.
pub open spec fn truncated_step(step: int) -> int {
    let low = step % 0x1_0000_0000;
    if low < 0x8000_0000 {
        low
    } else {
        low - 0x1_0000_0000
    }
}

/// A step as thirty-two bits hold it.
fn truncate_step(step: i64) -> (result: i32)
    ensures
        result == truncated_step(step as int),
{
    let low: i64 = if step >= 0 {
        step % 0x1_0000_0000
    } else {
        let above: i64 = -(step + 1);
        0xffff_ffff - above % 0x1_0000_0000
    };
    assert(low == step as int % 0x1_0000_0000);
    if low < 0x8000_0000 {
        low as i32
    } else {
        (low - 0x1_0000_0000) as i32
    }
}

// ---- action interpreters ----------------------------------------------------------------------

/// Reads actions as shares of an order.
#[derive(Clone, Debug)]
pub struct CategoricalActionInterpreter<V> {
    pub action_values: Vec<V>,
    pub max_step: Option<i64>,
}

/// The shares from zero to one in equal steps.
pub open spec fn share_grid<V: ExecutionNumber>(count: nat) -> Seq<V> {
    Seq::new(count + 1, |i: int| V::count_spec(i as nat).over_spec(V::count_spec(count)))
}

impl<V: ExecutionNumber> CategoricalActionInterpreter<V> {
    /// Shares from zero to one in a number of equal steps.
    pub fn from_count(count: usize, max_step: Option<i64>) -> (result: Result<Self, SaoeInterpreterError>)
        requires
            count < usize::MAX,
        ensures
            if count == 0 {
                result == Err::<Self, _>(SaoeInterpreterError::EmptyCategoricalCount)
            } else if max_step matches Some(step) && step <= 0 {
                result == Err::<Self, _>(SaoeInterpreterError::InvalidMaxStep(max_step->Some_0))
            } else {
                result matches Ok(interpreter) && interpreter.action_values@ == share_grid::<V>(count as nat)
                    && interpreter.action_values@.len() == count + 1 && interpreter.max_step == max_step && forall|i: int|
                    0 <= i <= count ==> #[trigger] interpreter.action_values@[i] == V::count_spec(i as nat).over_spec(
                        V::count_spec(count as nat),
                    )
            },
    {
        if count == 0 {
            return Err(SaoeInterpreterError::EmptyCategoricalCount);
        }
        let denominator = V::count(count);
        let mut values: Vec<V> = Vec::new();
        let mut i: usize = 0;
        while i <= count
            invariant
                i <= count + 1,
                count < usize::MAX,
                denominator == V::count_spec(count as nat),
                values@ == share_grid::<V>(count as nat).take(i as int),
            decreases count + 1 - i,
        {
            values.push(V::count(i).over(denominator));
            i += 1;
            assert(values@ =~= share_grid::<V>(count as nat).take(i as int));
        }
        assert(values@ =~= share_grid::<V>(count as nat));
        Self::from_values(values, max_step)
    }

    /// Given shares.
    pub fn from_values(action_values: Vec<V>, max_step: Option<i64>) -> (result: Result<Self, SaoeInterpreterError>)
        ensures
            if action_values@.len() == 0 {
                result == Err::<Self, _>(SaoeInterpreterError::EmptyCategoricalValues)
            } else if max_step matches Some(step) && step <= 0 {
                result == Err::<Self, _>(SaoeInterpreterError::InvalidMaxStep(max_step->Some_0))
            } else {
                result matches Ok(interpreter) && interpreter.action_values@ == action_values@
                    && interpreter.max_step == max_step
            },
    {
        if action_values.len() == 0 {
            return Err(SaoeInterpreterError::EmptyCategoricalValues);
        }
        if let Some(step) = max_step {
            if step <= 0 {
                return Err(SaoeInterpreterError::InvalidMaxStep(step));
            }
        }
        Ok(CategoricalActionInterpreter { action_values, max_step })
    }
}

impl<V: ExecutionNumber> SaoeActionInterpreter<V> for CategoricalActionInterpreter<V> {
    open spec fn space(&self) -> SaoeActionSpace {
        SaoeActionSpace::Discrete { size: self.action_values@.len() as usize }
    }

    /// The last step takes the whole position; other steps take the share of the order, but no
    /// more than the position.
    open spec fn volume(&self, state: SaoeState<V>, action: SaoePolicyAction<V>) -> Result<V, SaoeInterpreterError> {
        let size = self.action_values@.len() as usize;
        match action {
            SaoePolicyAction::Continuous(_) => Err(SaoeInterpreterError::ExpectedDiscrete),
            SaoePolicyAction::Discrete(index) => if 0 <= index < self.action_values@.len() {
                if self.max_step is Some && state.parts.cur_step >= self.max_step->Some_0 - 1 {
                    Ok(state.parts.position)
                } else {
                    Ok(
                        state.parts.position.lesser_spec(
                            state.parts.order.amount.times_spec(self.action_values@[index as int]),
                        ),
                    )
                }
            } else {
                Err(SaoeInterpreterError::DiscreteOutOfRange { action: index, size })
            },
        }
    }

    fn action_space(&self) -> (result: SaoeActionSpace) {
        SaoeActionSpace::Discrete { size: self.action_values.len() }
    }

    fn interpret(&self, state: &SaoeState<V>, action: SaoePolicyAction<V>) -> (result: Result<
        V,
        SaoeInterpreterError,
    >) {
        let size: usize = self.action_values.len();
        let index: i64 = match action {
            SaoePolicyAction::Discrete(index) => index,
            SaoePolicyAction::Continuous(_) => return Err(SaoeInterpreterError::ExpectedDiscrete),
        };
        if index < 0 || index as u64 >= size as u64 {
            return Err(SaoeInterpreterError::DiscreteOutOfRange { action: index, size });
        }
        let value: V = self.action_values[index as usize];
        if let Some(max_step) = self.max_step {
            if state.parts.cur_step == i64::MAX || state.parts.cur_step + 1 >= max_step {
                return Ok(state.parts.position);
            }
        }
        Ok(state.parts.position.lesser(state.parts.order.amount.times(value)))
    }
}

/// Reads actions as multiples of an even execution over the remaining steps.
#[derive(Clone, Copy, Debug, Default)]
pub struct TwapRelativeActionInterpreter;

/// A quotient rounded up.
pub open spec fn ceiling(count: nat, size: nat) -> int {
    if count == 0 {
        0
    } else {
        (count - 1) / size as int + 1
    }
}

impl<V: ExecutionNumber> SaoeActionInterpreter<V> for TwapRelativeActionInterpreter {
    open spec fn space(&self) -> SaoeActionSpace {
        SaoeActionSpace::NonNegativeContinuous
    }

    /// The steps of an order are its ticks over those of a step, rounded up.
    open spec fn volume(&self, state: SaoeState<V>, action: SaoePolicyAction<V>) -> Result<V, SaoeInterpreterError> {
        match action {
            SaoePolicyAction::Discrete(_) => Err(SaoeInterpreterError::ExpectedContinuous),
            SaoePolicyAction::Continuous(factor) => if factor.below_spec(V::zero_spec()) {
                Err(SaoeInterpreterError::NegativeContinuous)
            } else if state.parts.ticks_per_step == 0 {
                Err(SaoeInterpreterError::ZeroTicksPerStep)
            } else {
                let steps = ceiling(state.parts.ticks_for_order@.len(), state.parts.ticks_per_step as nat);
                let remaining = V::count_spec(steps as nat).minus_spec(V::of_step_spec(state.parts.cur_step));
                if remaining.equals_spec(V::zero_spec()) {
                    Err(SaoeInterpreterError::NoRemainingSteps)
                } else {
                    Ok(
                        state.parts.position.lesser_spec(
                            state.parts.position.over_spec(remaining).times_spec(factor),
                        ),
                    )
                }
            },
        }
    }

    fn action_space(&self) -> (result: SaoeActionSpace) {
        SaoeActionSpace::NonNegativeContinuous
    }

    fn interpret(&self, state: &SaoeState<V>, action: SaoePolicyAction<V>) -> (result: Result<
        V,
        SaoeInterpreterError,
    >) {
        let factor: V = match action {
            SaoePolicyAction::Continuous(factor) => factor,
            SaoePolicyAction::Discrete(_) => return Err(SaoeInterpreterError::ExpectedContinuous),
        };
        if factor.below(V::zero()) {
            return Err(SaoeInterpreterError::NegativeContinuous);
        }
        let size: usize = state.parts.ticks_per_step;
        if size == 0 {
            return Err(SaoeInterpreterError::ZeroTicksPerStep);
        }
        let count: usize = state.parts.ticks_for_order.len();
        let steps: usize = if count == 0 {
            0
        } else {
            proof {
                assert((count - 1) as int / size as int <= count - 1) by (nonlinear_arith)
                    requires
                        count >= 1,
                        size >= 1,
                ;
            }
            (count - 1) / size + 1
        };
        let remaining: V = V::count(steps).minus(V::of_step(state.parts.cur_step));
        if remaining.equals(V::zero()) {
            return Err(SaoeInterpreterError::NoRemainingSteps);
        }
        Ok(state.parts.position.lesser(state.parts.position.over(remaining).times(factor)))
    }
}

// ---- policies ---------------------------------------------------------------------------------

/// Chooses the same action for every observation.
#[derive(Clone, Copy, Debug)]
pub struct AllOnePolicy<V> {
    pub fill_value: SaoePolicyAction<V>,
}

impl<V: ExecutionNumber> AllOnePolicy<V> {
    pub fn new(fill_value: SaoePolicyAction<V>) -> (result: Self)
        ensures
            result.fill_value == fill_value,
    {
        AllOnePolicy { fill_value }
    }
}

impl<V: ExecutionNumber> Default for AllOnePolicy<V> {
    fn default() -> (result: Self)
        ensures
            result.fill_value == SaoePolicyAction::Continuous(V::one_spec()),
    {
        AllOnePolicy { fill_value: SaoePolicyAction::Continuous(V::one()) }
    }
}

impl<V: ExecutionNumber> SaoePolicy<V> for AllOnePolicy<V> {
    open spec fn replies(
        before: Self,
        observations: Seq<SaoeObservation<V, V::Narrow>>,
        after: Self,
        reply: Result<Seq<SaoePolicyAction<V>>, SaoeInterpreterError>,
    ) -> bool {
        after == before && reply == Ok::<Seq<SaoePolicyAction<V>>, SaoeInterpreterError>(
            Seq::new(observations.len(), |i: int| before.fill_value),
        )
    }

    fn actions(&mut self, observations: &Vec<SaoeObservation<V, V::Narrow>>) -> (result: Result<
        Vec<SaoePolicyAction<V>>,
        SaoeInterpreterError,
    >)
        ensures
            *final(self) == *old(self),
            result matches Ok(actions) && actions@ == Seq::new(observations@.len(), |i: int| old(self).fill_value),
    {
        let fill: SaoePolicyAction<V> = self.fill_value;
        let mut actions: Vec<SaoePolicyAction<V>> = Vec::new();
        while actions.len() < observations.len()
            invariant
                actions@.len() <= observations@.len(),
                actions@ == Seq::new(actions@.len(), |i: int| fill),
            decreases observations@.len() - actions@.len(),
        {
            let ghost before = actions@.len();
            actions.push(fill);
            assert(actions@ =~= Seq::new(before + 1, |i: int| fill));
        }
        Ok(actions)
    }
}

/// The observations of states up to the first that has none.
pub open spec fn observations_of<V: ExecutionNumber, I: SaoeStateInterpreter<V>>(
    interpreter: I,
    states: Seq<SaoeState<V>>,
) -> Result<Seq<SaoeObservation<V, V::Narrow>>, SaoeInterpreterError>
    decreases states.len(),
{
    if states.len() == 0 {
        Ok(Seq::empty())
    } else {
        match observations_of(interpreter, states.drop_last()) {
            Err(error) => Err(error),
            Ok(earlier) => match interpreter.observed(states.last()) {
                Ok(observation) => Ok(earlier.push(observation)),
                Err(error) => Err(error),
            },
        }
    }
}

/// The decisions of the first actions, each in the state of its place, up to the first that fails.
pub open spec fn decisions_of<V: ExecutionNumber, I: SaoeActionInterpreter<V>>(
    interpreter: I,
    states: Seq<SaoeState<V>>,
    actions: Seq<SaoePolicyAction<V>>,
    count: nat,
) -> Result<Seq<SaoePolicyDecision<V>>, SaoeInterpreterError>
    decreases count,
{
    if count == 0 {
        Ok(Seq::empty())
    } else {
        match decisions_of(interpreter, states, actions, (count - 1) as nat) {
            Err(error) => Err(error),
            Ok(earlier) => match interpreter.volume(states[count - 1], actions[count - 1]) {
                Ok(volume) => Ok(
                    earlier.push(SaoePolicyDecision { action: actions[count - 1], execution_volume: volume }),
                ),
                Err(error) => Err(error),
            },
        }
    }
}

/// How many states have an action.
pub open spec fn paired(states: nat, actions: nat) -> nat {
    if states <= actions {
        states
    } else {
        actions
    }
}

/// A list of decisions by its contents.
pub open spec fn listed<A, E>(result: Result<Vec<A>, E>) -> Result<Seq<A>, E> {
    match result {
        Ok(items) => Ok(items@),
        Err(error) => Err(error),
    }
}

proof fn observation_failure_stays<V: ExecutionNumber, I: SaoeStateInterpreter<V>>(
    interpreter: I,
    states: Seq<SaoeState<V>>,
    count: int,
)
    requires
        0 <= count <= states.len(),
        observations_of(interpreter, states.take(count)) is Err,
    ensures
        observations_of(interpreter, states) == observations_of(interpreter, states.take(count)),
    decreases states.len() - count,
{
    if count < states.len() {
        assert(states.take(count + 1).drop_last() =~= states.take(count));
        observation_failure_stays(interpreter, states, count + 1);
    } else {
        assert(states.take(count) =~= states);
    }
}

proof fn decision_failure_stays<V: ExecutionNumber, I: SaoeActionInterpreter<V>>(
    interpreter: I,
    states: Seq<SaoeState<V>>,
    actions: Seq<SaoePolicyAction<V>>,
    count: nat,
    later: nat,
)
    requires
        count <= later,
        decisions_of(interpreter, states, actions, count) is Err,
    ensures
        decisions_of(interpreter, states, actions, later) == decisions_of(interpreter, states, actions, count),
    decreases later - count,
{
    if count < later {
        decision_failure_stays(interpreter, states, actions, count, (later - 1) as nat);
    }
}

/// Makes the observations of states one after another.
pub fn observe_all<V: ExecutionNumber, I: SaoeStateInterpreter<V>>(
    interpreter: &I,
    states: &Vec<SaoeState<V>>,
) -> (result: Result<Vec<SaoeObservation<V, V::Narrow>>, SaoeInterpreterError>)
    ensures
        listed(result) == observations_of(*interpreter, states@),
{
    let mut observations: Vec<SaoeObservation<V, V::Narrow>> = Vec::new();
    let mut i: usize = 0;
    assert(states@.take(0) =~= Seq::empty());
    while i < states.len()
        invariant
            i <= states@.len(),
            observations_of(*interpreter, states@.take(i as int)) == Ok::<
                Seq<SaoeObservation<V, V::Narrow>>,
                SaoeInterpreterError,
            >(observations@),
        decreases states@.len() - i,
    {
        proof {
            assert(states@.take(i + 1).drop_last() =~= states@.take(i as int));
            assert(states@.take(i + 1).last() == states@[i as int]);
        }
        match interpreter.interpret(&states[i]) {
            Ok(observation) => {
                observations.push(observation);
            },
            Err(error) => {
                proof {
                    observation_failure_stays(*interpreter, states@, i + 1);
                }
                return Err(error);
            },
        }
        i += 1;
    }
    assert(states@.take(i as int) =~= states@);
    Ok(observations)
}

/// Reads actions in the states of their places. Surplus states and surplus actions are left out.
pub fn decide_all<V: ExecutionNumber, I: SaoeActionInterpreter<V>>(
    interpreter: &I,
    states: &Vec<SaoeState<V>>,
    actions: &Vec<SaoePolicyAction<V>>,
) -> (result: Result<Vec<SaoePolicyDecision<V>>, SaoeInterpreterError>)
    ensures
        listed(result) == decisions_of(*interpreter, states@, actions@, paired(states@.len(), actions@.len())),
{
    let mut decisions: Vec<SaoePolicyDecision<V>> = Vec::new();
    let ghost count = paired(states@.len(), actions@.len());
    let mut i: usize = 0;
    while i < states.len() && i < actions.len()
        invariant
            i <= count,
            count == paired(states@.len(), actions@.len()),
            decisions_of(*interpreter, states@, actions@, i as nat) == Ok::<
                Seq<SaoePolicyDecision<V>>,
                SaoeInterpreterError,
            >(decisions@),
        decreases count - i,
    {
        let action: SaoePolicyAction<V> = actions[i];
        match interpreter.interpret(&states[i], action) {
            Ok(execution_volume) => {
                decisions.push(SaoePolicyDecision { action, execution_volume });
            },
            Err(error) => {
                proof {
                    decision_failure_stays(*interpreter, states@, actions@, (i + 1) as nat, count);
                }
                return Err(error);
            },
        }
        i += 1;
    }
    Ok(decisions)
}

/// What a strict pipeline makes of the actions that its policy gave.
pub open spec fn strict_decisions<V: ExecutionNumber, I: SaoeActionInterpreter<V>>(
    interpreter: I,
    states: Seq<SaoeState<V>>,
    actions: Seq<SaoePolicyAction<V>>,
) -> Result<Seq<SaoePolicyDecision<V>>, SaoeInterpreterError> {
    if actions.len() != states.len() {
        Err(
            SaoeInterpreterError::PolicyBatchLength {
                expected: states.len() as usize,
                actual: actions.len() as usize,
            },
        )
    } else {
        decisions_of(interpreter, states, actions, states.len())
    }
}

/// What a strict pipeline makes of the answer of its policy.
pub open spec fn answered<V: ExecutionNumber, I: SaoeActionInterpreter<V>>(
    interpreter: I,
    states: Seq<SaoeState<V>>,
    reply: Result<Seq<SaoePolicyAction<V>>, SaoeInterpreterError>,
) -> Result<Seq<SaoePolicyDecision<V>>, SaoeInterpreterError> {
    match reply {
        Ok(actions) => strict_decisions(interpreter, states, actions),
        Err(error) => Err(error),
    }
}

/// Reads one action for each state.
pub fn decide_strictly<V: ExecutionNumber, I: SaoeActionInterpreter<V>>(
    interpreter: &I,
    states: &Vec<SaoeState<V>>,
    actions: &Vec<SaoePolicyAction<V>>,
) -> (result: Result<Vec<SaoePolicyDecision<V>>, SaoeInterpreterError>)
    ensures
        listed(result) == strict_decisions(*interpreter, states@, actions@),
{
    if actions.len() != states.len() {
        return Err(SaoeInterpreterError::PolicyBatchLength { expected: states.len(), actual: actions.len() });
    }
    decide_all(interpreter, states, actions)
}

/// States that were taken in one by one, with their observations.
pub struct PulledStates<V: ExecutionNumber> {
    pub states: Vec<SaoeState<V>>,
    pub observations: Vec<SaoeObservation<V, V::Narrow>>,
}

impl<V: ExecutionNumber> PulledStates<V> {
    /// Whether the observations are those that an interpreter makes of the states.
    pub open spec fn seen_by<I: SaoeStateInterpreter<V>>(&self, interpreter: I) -> bool {
        observations_of(interpreter, self.states@) == Ok::<Seq<SaoeObservation<V, V::Narrow>>, SaoeInterpreterError>(
            self.observations@,
        )
    }
}

/// What comes of the answer of a policy whose surplus actions are left out.
pub open spec fn loosely_answered<V: ExecutionNumber, A: SaoeActionInterpreter<V>>(
    interpreter: A,
    states: Seq<SaoeState<V>>,
    reply: Result<Seq<SaoePolicyAction<V>>, SaoeInterpreterError>,
) -> Result<Seq<SaoePolicyDecision<V>>, SaoeInterpreterError> {
    match reply {
        Err(error) => Err(error),
        Ok(actions) => decisions_of(interpreter, states, actions, paired(states.len(), actions.len())),
    }
}


/// States become observations, observations actions, and actions volumes.
pub struct SaoePolicyPipeline<S, P, A> {
    pub state_interpreter: S,
    pub policy: P,
    pub action_interpreter: A,
}

impl<S, P, A> SaoePolicyPipeline<S, P, A> {
    pub fn new(state_interpreter: S, policy: P, action_interpreter: A) -> (result: Self)
        ensures
            result.state_interpreter == state_interpreter,
            result.policy == policy,
            result.action_interpreter == action_interpreter,
    {
        SaoePolicyPipeline { state_interpreter, policy, action_interpreter }
    }

    /// Decides for every state of a batch. The policy is asked once, with all observations, and
    /// must give one action for each.
    pub fn decisions<V: ExecutionNumber>(&mut self, states: &Vec<SaoeState<V>>) -> (result: Result<
        Vec<SaoePolicyDecision<V>>,
        SaoeInterpreterError,
    >) where S: SaoeStateInterpreter<V>, P: SaoePolicy<V>, A: SaoeActionInterpreter<V>
        ensures
            final(self).state_interpreter == old(self).state_interpreter,
            final(self).action_interpreter == old(self).action_interpreter,
            match observations_of(old(self).state_interpreter, states@) {
                Err(error) => result == Err::<Vec<SaoePolicyDecision<V>>, _>(error) && final(self).policy
                    == old(self).policy,
                Ok(seen) => exists|reply: Result<Seq<SaoePolicyAction<V>>, SaoeInterpreterError>| #[trigger]
                    P::replies(old(self).policy, seen, final(self).policy, reply) && listed(result) == answered(
                        old(self).action_interpreter,
                        states@,
                        reply,
                    ),
            },
            result is Ok ==> result->Ok_0@.len() == states@.len(),
    {
        let observations = match observe_all(&self.state_interpreter, states) {
            Ok(observations) => observations,
            Err(error) => return Err(error),
        };
        let reply = self.policy.actions(&observations);
        let ghost said = listed(reply);
        assert(P::replies(old(self).policy, observations@, self.policy, said));
        assert(observations_of(old(self).state_interpreter, states@)->Ok_0 == observations@);
        let actions = match reply {
            Ok(actions) => actions,
            Err(error) => {
                assert(answered(self.action_interpreter, states@, said) is Err);
                return Err(error);
            },
        };
        let result = decide_strictly(&self.action_interpreter, states, &actions);
        proof {
            assert(listed(result) == answered(self.action_interpreter, states@, said));
            if result is Ok {
                decisions_are_counted(self.action_interpreter, states@, actions@, states@.len());
            }
        }
        result
    }

    /// Begins without any state.
    pub fn begin<V: ExecutionNumber>(&self) -> (result: PulledStates<V>) where S: SaoeStateInterpreter<V>
        ensures
            result.states@.len() == 0,
            result.seen_by(self.state_interpreter),
    {
        let pulled = PulledStates { states: Vec::new(), observations: Vec::new() };
        assert(pulled.observations@ =~= Seq::empty());
        pulled
    }

    /// Takes a state in: its observation is made at once, before the next state is looked for.
    pub fn pull<V: ExecutionNumber>(&self, pulled: &mut PulledStates<V>, state: SaoeState<V>) -> (result: Result<
        (),
        SaoeInterpreterError,
    >) where S: SaoeStateInterpreter<V>
        requires
            old(pulled).seen_by(self.state_interpreter),
        ensures
            final(pulled).seen_by(self.state_interpreter),
            match self.state_interpreter.observed(state) {
                Ok(_) => result is Ok && final(pulled).states@ == old(pulled).states@.push(state),
                Err(error) => result == Err::<(), _>(error) && final(pulled).states@ == old(pulled).states@,
            },
    {
        match self.state_interpreter.interpret(&state) {
            Ok(observation) => {
                let ghost before = pulled.states@;
                pulled.observations.push(observation);
                pulled.states.push(state);
                assert(pulled.states@.drop_last() =~= before);
                Ok(())
            },
            Err(error) => Err(error),
        }
    }

    /// Decides for the states that were taken in. The policy is asked once; surplus states and
    /// surplus actions are left out.
    pub fn decisions_from<V: ExecutionNumber>(&mut self, pulled: &PulledStates<V>) -> (result: Result<
        Vec<SaoePolicyDecision<V>>,
        SaoeInterpreterError,
    >) where P: SaoePolicy<V>, A: SaoeActionInterpreter<V>
        ensures
            final(self).state_interpreter == old(self).state_interpreter,
            final(self).action_interpreter == old(self).action_interpreter,
            exists|reply: Result<Seq<SaoePolicyAction<V>>, SaoeInterpreterError>| #[trigger]
                P::replies(old(self).policy, pulled.observations@, final(self).policy, reply) && listed(result)
                    == loosely_answered(old(self).action_interpreter, pulled.states@, reply),
            result is Ok ==> result->Ok_0@.len() <= pulled.states@.len(),
    {
        let reply = self.policy.actions(&pulled.observations);
        let ghost said = listed(reply);
        assert(P::replies(old(self).policy, pulled.observations@, self.policy, said));
        let actions = match reply {
            Ok(actions) => actions,
            Err(error) => {
                assert(loosely_answered(self.action_interpreter, pulled.states@, said) is Err);
                return Err(error);
            },
        };
        let result = decide_all(&self.action_interpreter, &pulled.states, &actions);
        proof {
            assert(listed(result) == loosely_answered(self.action_interpreter, pulled.states@, said));
            if result is Ok {
                decisions_are_counted(
                    self.action_interpreter,
                    pulled.states@,
                    actions@,
                    paired(pulled.states@.len(), actions@.len()),
                );
            }
        }
        result
    }

    /// The volumes of the decisions for every state of a batch.
    pub fn execution_volumes<V: ExecutionNumber>(&mut self, states: &Vec<SaoeState<V>>) -> (result: Result<
        Vec<V>,
        SaoeInterpreterError,
    >) where S: SaoeStateInterpreter<V>, P: SaoePolicy<V>, A: SaoeActionInterpreter<V>
        ensures
            final(self).state_interpreter == old(self).state_interpreter,
            final(self).action_interpreter == old(self).action_interpreter,
            match observations_of(old(self).state_interpreter, states@) {
                Err(error) => result == Err::<Vec<V>, _>(error) && final(self).policy == old(self).policy,
                Ok(seen) => exists|reply: Result<Seq<SaoePolicyAction<V>>, SaoeInterpreterError>| #[trigger]
                    P::replies(old(self).policy, seen, final(self).policy, reply) && match answered(
                        old(self).action_interpreter,
                        states@,
                        reply,
                    ) {
                        Ok(decisions) => result is Ok && result->Ok_0@ == volumes_of(decisions),
                        Err(error) => result == Err::<Vec<V>, _>(error),
                    },
            },
            result is Ok ==> result->Ok_0@.len() == states@.len(),
    {
        let decisions = match self.decisions(states) {
            Ok(decisions) => decisions,
            Err(error) => return Err(error),
        };
        let mut volumes: Vec<V> = Vec::new();
        let mut i: usize = 0;
        while i < decisions.len()
            invariant
                i <= decisions@.len(),
                volumes@ == volumes_of(decisions@).take(i as int),
            decreases decisions@.len() - i,
        {
            volumes.push(decisions[i].execution_volume);
            i += 1;
            assert(volumes@ =~= volumes_of(decisions@).take(i as int));
        }
        assert(volumes@ =~= volumes_of(decisions@));
        Ok(volumes)
    }
}

/// The volumes of decisions.
pub open spec fn volumes_of<V>(decisions: Seq<SaoePolicyDecision<V>>) -> Seq<V> {
    decisions.map_values(|decision: SaoePolicyDecision<V>| decision.execution_volume)
}

// ---- laws -------------------------------------------------------------------------------------

/// There is one decision for each action that was read, and it keeps the action.
pub proof fn decisions_are_counted<V: ExecutionNumber, I: SaoeActionInterpreter<V>>(
    interpreter: I,
    states: Seq<SaoeState<V>>,
    actions: Seq<SaoePolicyAction<V>>,
    count: nat,
)
    requires
        decisions_of(interpreter, states, actions, count) is Ok,
    ensures
        decisions_of(interpreter, states, actions, count)->Ok_0.len() == count,
        forall|i: int|
            0 <= i < count ==> (#[trigger] decisions_of(interpreter, states, actions, count)->Ok_0[i]).action
                == actions[i],
    decreases count,
{
    if count > 0 {
        decisions_are_counted(interpreter, states, actions, (count - 1) as nat);
    }
}

/// The last step of an episode executes the whole position, whatever the action.
pub proof fn last_step_takes_all<V: ExecutionNumber>(
    interpreter: CategoricalActionInterpreter<V>,
    state: SaoeState<V>,
    index: i64,
)
    requires
        0 <= index < interpreter.action_values@.len(),
        interpreter.max_step is Some,
        state.parts.cur_step >= interpreter.max_step->Some_0 - 1,
    ensures
        interpreter.volume(state, SaoePolicyAction::Discrete(index)) == Ok::<V, SaoeInterpreterError>(
            state.parts.position,
        ),
{
}

/// The shares of a number of equal steps lead from nothing to the whole: there is one more than there
/// are steps, the first is nothing, the last is one, and each, taken as often as there are steps, is its
/// place.
pub proof fn shares_lead_from_nothing_to_the_whole(
    count: usize,
    max_step: Option<i64>,
    result: Result<CategoricalActionInterpreter<Ticks>, SaoeInterpreterError>,
    place: int,
)
    requires
        call_ensures(CategoricalActionInterpreter::<Ticks>::from_count, (count, max_step), result),
        0 < count < i64::MAX,
        count < usize::MAX,
        max_step is None || max_step->Some_0 > 0,
        0 <= place <= count,
    ensures
        result is Ok,
        result->Ok_0.max_step == max_step,
        result->Ok_0.action_values@.len() == count + 1,
        result->Ok_0.action_values@[0] == Ticks(Some(0)),
        result->Ok_0.action_values@.last() == Ticks(Some(1)),
        result->Ok_0.action_values@[place].0 is Some ==> {
            let share = held(result->Ok_0.action_values@[place]);
            0 <= share <= 1 && share * count == place
        },
{
    let values = result->Ok_0.action_values@;
    let whole = Ticks::count_spec(count as nat);
    vstd::arithmetic::div_mod::lemma_fundamental_div_mod_converse(0, count as int, 0, 0);
    vstd::arithmetic::div_mod::lemma_fundamental_div_mod_converse(count as int, count as int, 1, 0);
    assert(values[0] == Ticks::count_spec(0).over_spec(whole));
    assert(values[count as int] == whole.over_spec(whole));
    if values[place].0 is Some {
        quotients_undo(Ticks::count_spec(place as nat), whole);
        let share = held(values[place]);
        assert(0 <= share <= 1) by (nonlinear_arith)
            requires
                share * count == place,
                0 <= place <= count,
                count > 0,
        ;
    }
}

/// Before the last step an action executes its share of the order, and never more than the position:
/// the volume is the lesser of both. At the last step it is the position.
pub proof fn volumes_are_shares_within_the_position(
    interpreter: CategoricalActionInterpreter<Ticks>,
    state: SaoeState<Ticks>,
    index: i64,
    amount: i64,
    share: i64,
    position: i64,
)
    requires
        0 <= index < interpreter.action_values@.len(),
        interpreter.action_values@[index as int] == Ticks(Some(share)),
        state.parts.order.amount == Ticks(Some(amount)),
        state.parts.position == Ticks(Some(position)),
        fits(amount * share),
    ensures
        ({
            let result = interpreter.volume(state, SaoePolicyAction::Discrete(index));
            let last = interpreter.max_step is Some && state.parts.cur_step + 1 >= interpreter.max_step->Some_0;
            &&& result is Ok && result->Ok_0.0 is Some
            &&& held(result->Ok_0) <= position
            &&& last ==> held(result->Ok_0) == position
            &&& !last ==> held(result->Ok_0) <= amount * share
            &&& !last && amount * share <= position ==> held(result->Ok_0) == amount * share
            &&& !last && position <= amount * share ==> held(result->Ok_0) == position
        }),
{
}

/// Only the numbers of the actions are actions: others are refused by their number, and what is no
/// number of an action at all is refused as well.
pub proof fn other_actions_are_refused(
    interpreter: CategoricalActionInterpreter<Ticks>,
    state: SaoeState<Ticks>,
    index: i64,
    factor: Ticks,
)
    requires
        interpreter.action_values@.len() <= usize::MAX,
    ensures
        interpreter.volume(state, SaoePolicyAction::Continuous(factor)) is Err,
        interpreter.volume(state, SaoePolicyAction::Discrete(index)) is Ok <==> 0 <= index < interpreter.action_values@.len(),
        interpreter.space() == (SaoeActionSpace::Discrete { size: interpreter.action_values@.len() as usize }),
{
}

/// An even execution spreads the position over the steps that remain: there are as many steps as cover
/// the ticks of the order and no more. A factor of one executes a whole step's part, a greater one as
/// many times as much, and none more than the position.
pub proof fn even_executions_spread_the_position(
    interpreter: TwapRelativeActionInterpreter,
    state: SaoeState<Ticks>,
    factor: i64,
    position: i64,
    steps: i64,
)
    requires
        state.parts.position == Ticks(Some(position)),
        state.parts.ticks_per_step > 0,
        // The steps cover the ticks, and one step fewer does not.
        steps >= 0,
        steps * state.parts.ticks_per_step >= state.parts.ticks_for_order@.len(),
        (steps - 1) * state.parts.ticks_per_step < state.parts.ticks_for_order@.len() || steps == 0,
        fits(steps - state.parts.cur_step),
    ensures
        ({
            let result = interpreter.volume(state, SaoePolicyAction::Continuous(Ticks(Some(factor))));
            let remaining = steps - state.parts.cur_step;
            &&& factor < 0 ==> result is Err
            &&& remaining == 0 ==> result is Err
            &&& factor >= 0 && remaining != 0 ==> result is Ok
            &&& factor >= 0 && remaining > 0 ==> forall|part: int| #[trigger]
                (part * remaining) == position && part >= 0 && fits(part * factor) ==> result->Ok_0.0 is Some && (held(
                    result->Ok_0,
                ) == part * factor || held(result->Ok_0) == position) && held(result->Ok_0) <= part * factor && held(
                    result->Ok_0,
                ) <= position
        }),
        interpreter.volume(state, SaoePolicyAction::Discrete(factor)) is Err,
{
    let size = state.parts.ticks_per_step as int;
    let count = state.parts.ticks_for_order@.len() as int;
    let found = ceiling(count as nat, size as nat);
    if count > 0 {
        vstd::arithmetic::div_mod::lemma_fundamental_div_mod(count - 1, size);
        let q = (count - 1) / size;
        let r = (count - 1) % size;
        assert(q == steps - 1) by (nonlinear_arith)
            requires
                count - 1 == size * q + r,
                0 <= r < size,
                steps * size >= count,
                (steps - 1) * size < count || steps == 0,
                steps >= 0,
                count > 0,
        ;
    } else {
        assert(steps == 0) by (nonlinear_arith)
            requires
                (steps - 1) * size < 0 || steps == 0,
                size > 0,
                steps >= 0,
        ;
    }
    assert(found == steps);
    let remaining = steps - state.parts.cur_step;
    if factor >= 0 && remaining > 0 {
        assert forall|part: int| #[trigger] (part * remaining) == position && part >= 0 && fits(part * factor) implies ({
            let result = interpreter.volume(state, SaoePolicyAction::Continuous(Ticks(Some(factor))));
            result->Ok_0.0 is Some && (held(result->Ok_0) == part * factor || held(result->Ok_0) == position) && held(
                result->Ok_0,
            ) <= part * factor && held(result->Ok_0) <= position
        }) by {
            assert(position >= 0 && part <= position) by (nonlinear_arith)
                requires
                    part * remaining == position,
                    part >= 0,
                    remaining > 0,
            ;
            assert(position == remaining * part) by (nonlinear_arith)
                requires
                    part * remaining == position,
            ;
            vstd::arithmetic::div_mod::lemma_fundamental_div_mod_converse(position as int, remaining, part, 0);
        }
    }
}

/// What is seen of a step: whether something is bought, how far the episode is, how much is to be
/// executed and how much of it is left. Behind its last step nothing is seen.
pub proof fn steps_are_seen_as_they_are<V: ExecutionNumber>(interpreter: CurrentStepStateInterpreter, state: SaoeState<V>)
    ensures
        SaoeStateInterpreter::<V>::observed(&interpreter, state) is Ok <==> state.parts.cur_step <= interpreter.max_step,
        SaoeStateInterpreter::<V>::observed(&interpreter, state) matches Ok(seen) ==> (seen matches
            SaoeObservation::CurrentStep(step) && (step.acquiring <==> state.parts.order.direction == OrderDir::Buy)
            && step.cur_step == state.parts.cur_step && step.num_step == interpreter.max_step && step.cur_step
            <= step.num_step && step.target == state.parts.order.amount && step.position == state.parts.position),
{
}

/// The number of ticks that lie before a time.
proof fn ticks_before_are_counted(ticks: Seq<Timestamp>, now: Timestamp)
    ensures
        ticks_before(ticks, now) == ticks.filter(|tick: Timestamp| !now.at_or_before(tick)).len(),
    decreases ticks.len(),
{
    reveal(Seq::filter);
    if ticks.len() > 0 {
        ticks_before_are_counted(ticks.drop_last(), now);
    }
}

/// Nothing of the future is seen: the features of every tick that is not over are zero, and those of
/// the ticks before and of the day before are as they were processed. The position began as the amount
/// and is then what each step left; the places behind are zero. Ticks and steps beyond the shape are
/// shown as its last.
pub proof fn observations_do_not_see_ahead<V: ExecutionNumber>(
    interpreter: FullHistoryStateInterpreter,
    state: SaoeState<V>,
    processed: ProcessedSaoeData<V::Narrow>,
    result: Result<FullHistoryObservation<V::Narrow>, SaoeInterpreterError>,
    row: int,
    column: int,
    step: int,
)
    requires
        call_ensures(FullHistoryStateInterpreter::observe::<V>, (&interpreter, &state, processed), result),
        interpreter.wf(),
        result is Ok,
        0 <= row < processed.today.rows@.len(),
        processed.today.rows@[row]@.len() == interpreter.data_dim,
        processed.today.rows@.len() <= usize::MAX,
        0 <= column < interpreter.data_dim,
        0 <= step < interpreter.max_step,
        state.parts.cur_step >= 0,
    ensures
        ({
            let seen = result->Ok_0;
            let parts = state.parts;
            let shown = seen.data_processed.rows@[row]@;
            &&& seen.data_processed.rows@.len() == interpreter.data_ticks && shown.len() == interpreter.data_dim
            &&& shown[column] == if parts.cur_time.at_or_before(processed.today_index@[row]) {
                V::narrow_zero_spec()
            } else {
                processed.today.rows@[row]@[column]
            }
            &&& seen.data_processed_prev == processed.yesterday
            &&& seen.acquiring == 1 <==> parts.order.direction == OrderDir::Buy
            &&& seen.acquiring == 0 <==> parts.order.direction == OrderDir::Sell
            &&& seen.num_step == interpreter.max_step
            &&& 0 <= seen.cur_step < seen.num_step
            &&& parts.cur_step < interpreter.max_step ==> seen.cur_step == parts.cur_step
            &&& parts.cur_step >= interpreter.max_step ==> seen.cur_step == interpreter.max_step - 1
            &&& seen.target == parts.order.amount.narrow_spec() && seen.position == parts.position.narrow_spec()
            &&& seen.position_history@.len() == interpreter.max_step
            &&& seen.position_history@[0] == parts.order.amount.narrow_spec()
            &&& parts.history_steps matches HistoryPositions::Values(left) && (step >= 1 ==> seen.position_history@[step]
                == if step <= left@.len() {
                left@[step - 1].narrow_spec()
            } else {
                V::narrow_zero_spec()
            })
            &&& ({
                let over = parts.ticks_index@.filter(|tick: Timestamp| !parts.cur_time.at_or_before(tick)).len();
                0 <= seen.cur_tick < interpreter.data_ticks && (over < interpreter.data_ticks ==> seen.cur_tick == over)
                    && (over >= interpreter.data_ticks ==> seen.cur_tick == interpreter.data_ticks - 1)
            })
        }),
{
    ticks_before_are_counted(state.parts.ticks_index@, state.parts.cur_time);
    let seen = result->Ok_0;
    assert(interpreter.shows(seen, state, processed));
    let shown = grid_rows(seen.data_processed);
    let rows = grid_rows(processed.today);
    assert(shown.len() == seen.data_processed.rows@.len());
    assert(rows.len() == processed.today.rows@.len());
    assert(shown[row] == seen.data_processed.rows@[row]@);
    assert(rows[row] == processed.today.rows@[row]@);
    let capped = least(state.parts.cur_step as int, interpreter.max_step - 1);
    assert(0 <= capped < 0x8000_0000);
    assert(capped % 0x1_0000_0000 == capped) by (nonlinear_arith)
        requires
            0 <= capped < 0x8000_0000,
    ;
}

/// Each decision is that of its place: the action of the place, and the volume that it means in the
/// state of the place.
pub proof fn decisions_belong_to_their_places<V: ExecutionNumber, I: SaoeActionInterpreter<V>>(
    interpreter: I,
    states: Vec<SaoeState<V>>,
    actions: Vec<SaoePolicyAction<V>>,
    result: Result<Vec<SaoePolicyDecision<V>>, SaoeInterpreterError>,
    strict: Result<Vec<SaoePolicyDecision<V>>, SaoeInterpreterError>,
    place: int,
)
    requires
        call_ensures(decide_all::<V, I>, (&interpreter, &states, &actions), result),
        call_ensures(decide_strictly::<V, I>, (&interpreter, &states, &actions), strict),
        0 <= place < states@.len(),
        place < actions@.len(),
    ensures
        result is Ok ==> result->Ok_0@.len() == paired(states@.len(), actions@.len()) && result->Ok_0@[place].action
            == actions@[place] && interpreter.volume(states@[place], actions@[place]) == Ok::<V, SaoeInterpreterError>(
            result->Ok_0@[place].execution_volume,
        ),
        interpreter.volume(states@[place], actions@[place]) is Err ==> result is Err && strict is Err,
        strict is Ok ==> states@.len() == actions@.len() && result is Ok && strict->Ok_0@ == result->Ok_0@,
        states@.len() != actions@.len() ==> strict is Err,
        states@.len() == actions@.len() && result is Ok ==> strict is Ok,
{
    let count = paired(states@.len(), actions@.len());
    volumes_belong_to_their_places(interpreter, states@, actions@, count, place);
}

proof fn volumes_belong_to_their_places<V: ExecutionNumber, I: SaoeActionInterpreter<V>>(
    interpreter: I,
    states: Seq<SaoeState<V>>,
    actions: Seq<SaoePolicyAction<V>>,
    count: nat,
    place: int,
)
    requires
        0 <= place < count,
    ensures
        ({
            let decisions = decisions_of(interpreter, states, actions, count);
            &&& interpreter.volume(states[place], actions[place]) is Err ==> decisions is Err
            &&& decisions is Ok ==> decisions->Ok_0.len() == count && decisions->Ok_0[place].action == actions[place]
                && interpreter.volume(states[place], actions[place]) == Ok::<V, SaoeInterpreterError>(
                decisions->Ok_0[place].execution_volume,
            )
        }),
    decreases count,
{
    if decisions_of(interpreter, states, actions, count) is Ok {
        decisions_are_counted(interpreter, states, actions, count);
    }
    if place < count - 1 {
        volumes_belong_to_their_places(interpreter, states, actions, (count - 1) as nat, place);
    }
    if count > 1 && decisions_of(interpreter, states, actions, (count - 1) as nat) is Ok {
        decisions_are_counted(interpreter, states, actions, (count - 1) as nat);
    }
}

/// Each observation is that of its state, in order; a state that cannot be seen fails the batch.
pub proof fn observations_belong_to_their_states<V: ExecutionNumber, I: SaoeStateInterpreter<V>>(
    interpreter: I,
    states: Vec<SaoeState<V>>,
    result: Result<Vec<SaoeObservation<V, V::Narrow>>, SaoeInterpreterError>,
    place: int,
)
    requires
        call_ensures(observe_all::<V, I>, (&interpreter, &states), result),
        0 <= place < states@.len(),
    ensures
        interpreter.observed(states@[place]) is Err ==> result is Err,
        result is Ok ==> result->Ok_0@.len() == states@.len() && interpreter.observed(states@[place]) == Ok::<
            SaoeObservation<V, V::Narrow>,
            SaoeInterpreterError,
        >(result->Ok_0@[place]),
{
    views_belong_to_their_states(interpreter, states@, place);
}

proof fn views_belong_to_their_states<V: ExecutionNumber, I: SaoeStateInterpreter<V>>(
    interpreter: I,
    states: Seq<SaoeState<V>>,
    place: int,
)
    ensures
        observations_of(interpreter, states) is Ok ==> observations_of(interpreter, states)->Ok_0.len() == states.len(),
        0 <= place < states.len() && interpreter.observed(states[place]) is Err ==> observations_of(interpreter, states) is Err,
        0 <= place < states.len() && observations_of(interpreter, states) is Ok ==> interpreter.observed(states[place])
            == Ok::<SaoeObservation<V, V::Narrow>, SaoeInterpreterError>(
            observations_of(interpreter, states)->Ok_0[place],
        ),
    decreases states.len(),
{
    if states.len() > 0 {
        views_belong_to_their_states(interpreter, states.drop_last(), place);
    }
}

} // verus!
