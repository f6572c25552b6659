//! Decisions over lists of orders that may change while they are read.
use crate::order::{OrderDir, Timestamp};
use crate::saoe::{ChildOrderRequest, SaoePluginError};
use crate::saoe_int_strategy::{detail_models, DetailModel, SaoeTradeDetail};
use crate::saoe_interpreter::{listed, ExecutionNumber, SaoeInterpreterError, SaoePolicyDecision};
use vstd::prelude::*;

verus! {

/// Why a list of orders could not be read.
#[derive(Clone, Copy, Debug, PartialEq, Eq, Structural)]
pub enum DecisionAccessError {
    ListPoisoned,
    OrderPoisoned(usize),
    InvalidOrder(usize),
}

/// Why a decision over live orders failed.
#[derive(Debug)]
pub enum LiveSaoeGenerationError {
    /// The outer decision could not be read.
    Decision(String),
    Orders(DecisionAccessError),
    Pipeline(SaoeInterpreterError),
    State(SaoePluginError),
    Factory(SaoePluginError),
    Calendar(SaoePluginError),
}

/// An item of a list of orders, as it is found when its turn comes.
#[derive(Debug)]
pub enum LiveItem {
    Order { stock_id: String, direction: OrderDir },
    /// An order that cannot be read.
    Poisoned,
    /// Something that is no order.
    Other,
}

/// A place in a list of orders.
#[derive(Clone, Copy, Debug)]
pub struct LiveCursor {
    pub index: usize,
}

impl LiveCursor {
    pub fn new() -> (result: Self)
        ensures
            result.index == 0,
    {
        LiveCursor { index: 0 }
    }

    /// The place that is read next in a list of a length, as the list is now. A list that became
    /// longer is read on.
    pub fn next(&mut self, length: usize) -> (result: Option<usize>)
        ensures
            if old(self).index < length {
                result == Some(old(self).index) && final(self).index == old(self).index + 1
            } else {
                result is None && final(self).index == old(self).index
            },
    {
        if self.index < length {
            let index: usize = self.index;
            self.index += 1;
            Some(index)
        } else {
            None
        }
    }
}

/// The order that an item is.
pub fn as_order(index: usize, item: &LiveItem) -> (result: Result<(), DecisionAccessError>)
    ensures
        match item {
            LiveItem::Other => result == Err::<(), _>(DecisionAccessError::InvalidOrder(index)),
            _ => result is Ok,
        },
{
    match item {
        LiveItem::Other => Err(DecisionAccessError::InvalidOrder(index)),
        _ => Ok(()),
    }
}

/// What is done about an item of the list of orders.
#[derive(Debug)]
pub enum ChildStep<V> {
    /// No decision is left.
    Stop,
    /// The volume is zero: the item is not looked at.
    Skip,
    Create(ChildOrderRequest<V>),
    Failed(DecisionAccessError),
}

/// What is done about an item, which was read before the next decision.
pub fn child_step<V: ExecutionNumber>(index: usize, item: &LiveItem, decision: Option<&SaoePolicyDecision<V>>) -> (result: ChildStep<
    V,
>)
    ensures
        match decision {
            None => result is Stop,
            Some(decided) => if decided.execution_volume.equals_spec(V::zero_spec()) {
                result is Skip
            } else {
                match item {
                    LiveItem::Order { stock_id, direction } => result matches ChildStep::Create(request)
                        && request.stock_id@ == stock_id@ && request.amount == Some(decided.execution_volume)
                        && request.direction == direction,
                    LiveItem::Poisoned => result == ChildStep::<V>::Failed(DecisionAccessError::OrderPoisoned(index)),
                    LiveItem::Other => result == ChildStep::<V>::Failed(DecisionAccessError::InvalidOrder(index)),
                }
            },
        },
{
    let decided = match decision {
        None => return ChildStep::Stop,
        Some(decided) => decided,
    };
    let volume: V = decided.execution_volume;
    if volume.equals(V::zero()) {
        return ChildStep::Skip;
    }
    match item {
        LiveItem::Order { stock_id, direction } => ChildStep::Create(
            ChildOrderRequest { stock_id: stock_id.clone(), amount: Some(volume), direction: *direction },
        ),
        LiveItem::Poisoned => ChildStep::Failed(DecisionAccessError::OrderPoisoned(index)),
        LiveItem::Other => ChildStep::Failed(DecisionAccessError::InvalidOrder(index)),
    }
}

/// The instrument of a row of the report: the item is looked at before the calendar is read.
pub fn detail_instrument(index: usize, item: &LiveItem) -> (result: Result<String, DecisionAccessError>)
    ensures
        match item {
            LiveItem::Order { stock_id, .. } => result matches Ok(instrument) && instrument@ == stock_id@,
            LiveItem::Poisoned => result == Err::<String, _>(DecisionAccessError::OrderPoisoned(index)),
            LiveItem::Other => result == Err::<String, _>(DecisionAccessError::InvalidOrder(index)),
        },
{
    match item {
        LiveItem::Order { stock_id, .. } => Ok(stock_id.clone()),
        LiveItem::Poisoned => Err(DecisionAccessError::OrderPoisoned(index)),
        LiveItem::Other => Err(DecisionAccessError::InvalidOrder(index)),
    }
}

/// A row of the report, once the calendar was read for it.
pub fn detail_row<V: ExecutionNumber>(
    instrument: String,
    datetime: Timestamp,
    frequency: String,
    decision: &SaoePolicyDecision<V>,
) -> (result: SaoeTradeDetail<V>)
    ensures
        result@ == (instrument@, datetime, frequency@, decision.execution_volume, Some(decision.action)),
{
    SaoeTradeDetail {
        instrument,
        datetime,
        frequency,
        execution_volume: decision.execution_volume,
        action: Some(decision.action),
    }
}

// ---- the generation ---------------------------------------------------------------------------

/// The loop that a generation is in. Each fetches the list of orders anew.
#[derive(Clone, Copy, Debug, PartialEq, Eq, Structural)]
pub enum LivePhase {
    /// States are looked up.
    States,
    /// Child orders are created.
    Children,
    /// Rows of the report are made.
    Details,
    Over,
}

/// What a generation waits for.
#[derive(Clone, Copy, Debug, PartialEq, Eq, Structural)]
pub enum LiveWait {
    Orders,
    Item,
    State,
    Decisions,
    Child,
    Calendar,
    Nothing,
}

/// What is asked for next.
#[derive(Debug)]
pub enum LiveAction<V> {
    /// Fetch the list of orders of the outer decision.
    FetchOrders,
    /// Read the item at a place of the list, as the list is now.
    ReadItem(usize),
    /// Look up the state of the order at a place, and take it into the pipeline.
    TakeState(usize),
    /// Decide for the states that were taken in.
    Decide,
    CreateChild(ChildOrderRequest<V>),
    /// Read the time of the step and then the frequency.
    ReadCalendar,
    Finished,
    Failed(LiveSaoeGenerationError),
}

/// Why a state was not taken in.
#[derive(Debug)]
pub enum TakeFailure {
    /// It could not be looked up.
    Lookup(SaoePluginError),
    /// The pipeline could not observe it.
    Observation(SaoeInterpreterError),
}

/// What a generation holds.
pub struct GenerationModel<V> {
    pub decisions: Seq<SaoePolicyDecision<V>>,
    pub phase: LivePhase,
    pub wait: LiveWait,
    pub index: nat,
    pub instrument: Option<Seq<char>>,
    pub details: Seq<DetailModel<V>>,
}

/// The generation of child orders and of a report: states are looked up for a pipeline, which
/// decides.
pub struct LiveGeneration<V> {
    decisions: Vec<SaoePolicyDecision<V>>,
    phase: LivePhase,
    wait: LiveWait,
    index: usize,
    instrument: Option<String>,
    details: Vec<SaoeTradeDetail<V>>,
}

/// Whether rows tell of the first decisions, in order.
pub open spec fn rows_follow<V>(details: Seq<DetailModel<V>>, decisions: Seq<SaoePolicyDecision<V>>) -> bool {
    details.len() <= decisions.len() && forall|i: int|
        0 <= i < details.len() ==> (#[trigger] details[i]).3 == decisions[i].execution_volume && details[i].4 == Some(
            decisions[i].action,
        )
}

/// A generation that waits for something of the outer world.
pub open spec fn waiting<V>(model: GenerationModel<V>, wait: LiveWait) -> GenerationModel<V> {
    GenerationModel { wait, ..model }
}

/// A generation that is over.
pub open spec fn ended<V>(model: GenerationModel<V>) -> GenerationModel<V> {
    GenerationModel { phase: LivePhase::Over, wait: LiveWait::Nothing, instrument: None, ..model }
}

/// A generation at the start of a loop.
pub open spec fn looping<V>(model: GenerationModel<V>, phase: LivePhase) -> GenerationModel<V> {
    GenerationModel { phase, wait: LiveWait::Orders, index: 0, ..model }
}

/// What comes of the list of orders that was fetched. The rows of the report read no item without
/// decisions.
pub open spec fn fetched<V>(model: GenerationModel<V>, reply: Result<(), String>) -> (GenerationModel<V>, LiveAction<V>) {
    match reply {
        Err(message) => (ended(model), LiveAction::Failed(LiveSaoeGenerationError::Decision(message))),
        Ok(_) => if model.phase == LivePhase::Details && model.decisions.len() == 0 {
            (ended(model), LiveAction::Finished)
        } else {
            (waiting(model, LiveWait::Item), LiveAction::ReadItem(model.index as usize))
        },
    }
}

/// What comes of a state that was looked up and taken in.
pub open spec fn state_handled<V>(model: GenerationModel<V>, reply: Result<(), TakeFailure>) -> (
    GenerationModel<V>,
    LiveAction<V>,
) {
    match reply {
        Ok(_) => (
            GenerationModel { wait: LiveWait::Item, index: model.index + 1, ..model },
            LiveAction::ReadItem((model.index + 1) as usize),
        ),
        Err(TakeFailure::Lookup(error)) => (ended(model), LiveAction::Failed(LiveSaoeGenerationError::State(error))),
        Err(TakeFailure::Observation(error)) => (
            ended(model),
            LiveAction::Failed(LiveSaoeGenerationError::Pipeline(error)),
        ),
    }
}

/// What comes of the decisions of the pipeline.
pub open spec fn decisions_handled<V>(
    model: GenerationModel<V>,
    reply: Result<Seq<SaoePolicyDecision<V>>, SaoeInterpreterError>,
) -> (GenerationModel<V>, LiveAction<V>) {
    match reply {
        Ok(decisions) => (
            looping(GenerationModel { decisions, ..model }, LivePhase::Children),
            LiveAction::FetchOrders,
        ),
        Err(error) => (ended(model), LiveAction::Failed(LiveSaoeGenerationError::Pipeline(error))),
    }
}

/// What comes of a child order.
pub open spec fn child_handled<V>(model: GenerationModel<V>, reply: Result<(), SaoePluginError>) -> (
    GenerationModel<V>,
    LiveAction<V>,
) {
    match reply {
        Ok(_) => (waiting(model, LiveWait::Item), LiveAction::ReadItem(model.index as usize)),
        Err(error) => (ended(model), LiveAction::Failed(LiveSaoeGenerationError::Factory(error))),
    }
}

/// What comes of what the calendar said for a row of the report.
pub open spec fn calendar_handled<V>(model: GenerationModel<V>, reply: Result<(Timestamp, String), SaoePluginError>) -> (
    GenerationModel<V>,
    LiveAction<V>,
) {
    match reply {
        Err(error) => (ended(model), LiveAction::Failed(LiveSaoeGenerationError::Calendar(error))),
        Ok((datetime, frequency)) => {
            let decision = model.decisions[model.index as int];
            let next = GenerationModel {
                index: model.index + 1,
                instrument: None,
                details: model.details.push(
                    (
                        model.instrument->Some_0,
                        datetime,
                        frequency@,
                        decision.execution_volume,
                        Some(decision.action),
                    ),
                ),
                ..model
            };
            if next.index == next.decisions.len() {
                (ended(next), LiveAction::Finished)
            } else {
                (waiting(next, LiveWait::Item), LiveAction::ReadItem(next.index as usize))
            }
        },
    }
}

/// What a failure of the list of orders leads to.
pub open spec fn list_failed<V>(model: GenerationModel<V>, error: DecisionAccessError) -> (
    GenerationModel<V>,
    LiveAction<V>,
) {
    (ended(model), LiveAction::Failed(LiveSaoeGenerationError::Orders(error)))
}

/// What comes of the end of the list of orders: the pipeline decides behind the states, the rows of
/// the report follow the child orders, and nothing follows them.
pub open spec fn list_ended<V>(model: GenerationModel<V>) -> (GenerationModel<V>, LiveAction<V>) {
    match model.phase {
        LivePhase::States => (waiting(model, LiveWait::Decisions), LiveAction::Decide),
        LivePhase::Children => (looping(model, LivePhase::Details), LiveAction::FetchOrders),
        _ => (ended(model), LiveAction::Finished),
    }
}

/// Whether an item is taken for its state: it has to be an order, which is not read yet.
pub open spec fn state_asked<V>(
    before: GenerationModel<V>,
    item: LiveItem,
    after: GenerationModel<V>,
    action: LiveAction<V>,
) -> bool {
    match item {
        LiveItem::Other => (after, action) == list_failed(
            before,
            DecisionAccessError::InvalidOrder(before.index as usize),
        ),
        _ => (after, action) == (waiting(before, LiveWait::State), LiveAction::<V>::TakeState(before.index as usize)),
    }
}

/// An item is taken for a child order. The list is read before the decisions: once none is left,
/// the rows of the report begin. A volume of zero does not look at the item.
pub open spec fn child_taken<V: ExecutionNumber>(
    before: GenerationModel<V>,
    item: LiveItem,
    after: GenerationModel<V>,
    action: LiveAction<V>,
) -> bool {
    if before.index >= before.decisions.len() {
        (after, action) == list_ended(before)
    } else {
        let decision = before.decisions[before.index as int];
        let next = GenerationModel { index: before.index + 1, ..before };
        if decision.execution_volume.equals_spec(V::zero_spec()) {
            (after, action) == (next, LiveAction::<V>::ReadItem(next.index as usize))
        } else {
            match item {
                LiveItem::Order { stock_id, direction } => after == waiting(next, LiveWait::Child) && (
                action matches LiveAction::CreateChild(request) && request.stock_id@ == stock_id@ && request.amount
                    == Some(decision.execution_volume) && request.direction == direction),
                LiveItem::Poisoned => (after, action) == list_failed(
                    before,
                    DecisionAccessError::OrderPoisoned(before.index as usize),
                ),
                LiveItem::Other => (after, action) == list_failed(
                    before,
                    DecisionAccessError::InvalidOrder(before.index as usize),
                ),
            }
        }
    }
}

/// An item is taken for a row of the report: it is looked at before the calendar is read.
pub open spec fn detail_taken<V>(
    before: GenerationModel<V>,
    item: LiveItem,
    after: GenerationModel<V>,
    action: LiveAction<V>,
) -> bool {
    match item {
        LiveItem::Order { stock_id, .. } => after == waiting(
            GenerationModel { instrument: Some(stock_id@), ..before },
            LiveWait::Calendar,
        ) && action is ReadCalendar,
        LiveItem::Poisoned => (after, action) == list_failed(
            before,
            DecisionAccessError::OrderPoisoned(before.index as usize),
        ),
        LiveItem::Other => (after, action) == list_failed(
            before,
            DecisionAccessError::InvalidOrder(before.index as usize),
        ),
    }
}

impl<V: ExecutionNumber> LiveGeneration<V> {
    /// What the generation holds.
    pub closed spec fn model(&self) -> GenerationModel<V> {
        GenerationModel {
            decisions: self.decisions@,
            phase: self.phase,
            wait: self.wait,
            index: self.index as nat,
            instrument: match self.instrument {
                Some(instrument) => Some(instrument@),
                None => None,
            },
            details: detail_models(self.details@),
        }
    }

    /// Every wait belongs to a loop, the rows of the report go with the first decisions, in order, and
    /// an instrument waits for the calendar.
    pub open spec fn wf(&self) -> bool {
        let model = self.model();
        &&& model.index <= usize::MAX
        &&& match model.wait {
            LiveWait::Orders => model.phase != LivePhase::Over && model.index == 0,
            LiveWait::Item => model.phase != LivePhase::Over,
            LiveWait::State | LiveWait::Decisions => model.phase == LivePhase::States,
            LiveWait::Child => model.phase == LivePhase::Children,
            LiveWait::Calendar => model.phase == LivePhase::Details,
            LiveWait::Nothing => model.phase == LivePhase::Over,
        }
        &&& model.phase == LivePhase::States ==> model.decisions.len() == 0
        &&& model.phase == LivePhase::Children ==> model.index <= model.decisions.len() && model.details.len() == 0
        &&& model.phase == LivePhase::Details ==> model.details.len() == model.index
        &&& model.phase == LivePhase::Details && model.wait != LiveWait::Orders ==> model.index < model.decisions.len()
        &&& rows_follow(model.details, model.decisions)
        &&& model.instrument is Some <==> model.wait == LiveWait::Calendar
    }

    /// Begins with the list of orders.
    pub fn begin() -> (result: (Self, LiveAction<V>))
        ensures
            result.0.wf(),
            result.0.model() == (GenerationModel::<V> {
                decisions: Seq::empty(),
                phase: LivePhase::States,
                wait: LiveWait::Orders,
                index: 0,
                instrument: None,
                details: Seq::empty(),
            }),
            result.1 is FetchOrders,
    {
        let generation = LiveGeneration {
            decisions: Vec::new(),
            phase: LivePhase::States,
            wait: LiveWait::Orders,
            index: 0,
            instrument: None,
            details: Vec::new(),
        };
        assert(generation.model().details =~= Seq::empty());
        (generation, LiveAction::FetchOrders)
    }

    fn fail(&mut self, error: LiveSaoeGenerationError) -> (result: LiveAction<V>)
        requires
            old(self).wf(),
        ensures
            final(self).wf(),
            (final(self).model(), result) == (ended(old(self).model()), LiveAction::<V>::Failed(error)),
    {
        self.phase = LivePhase::Over;
        self.wait = LiveWait::Nothing;
        self.instrument = None;
        LiveAction::Failed(error)
    }

    fn finished(&mut self) -> (result: LiveAction<V>)
        requires
            rows_follow(old(self).model().details, old(self).model().decisions),
        ensures
            final(self).wf(),
            (final(self).model(), result) == (ended(old(self).model()), LiveAction::<V>::Finished),
    {
        self.phase = LivePhase::Over;
        self.wait = LiveWait::Nothing;
        self.instrument = None;
        LiveAction::Finished
    }

    /// Takes the list of orders that was fetched, or why it could not be.
    pub fn orders_fetched(&mut self, reply: Result<(), String>) -> (result: LiveAction<V>)
        requires
            old(self).wf(),
            old(self).model().wait == LiveWait::Orders,
        ensures
            final(self).wf(),
            (final(self).model(), result) == fetched(old(self).model(), reply),
    {
        match reply {
            Err(message) => self.fail(LiveSaoeGenerationError::Decision(message)),
            Ok(_) => {
                if self.phase == LivePhase::Details && self.decisions.len() == 0 {
                    return self.finished();
                }
                self.wait = LiveWait::Item;
                LiveAction::ReadItem(self.index)
            },
        }
    }

    fn end_list(&mut self) -> (result: LiveAction<V>)
        requires
            old(self).wf(),
            old(self).model().wait == LiveWait::Item,
        ensures
            final(self).wf(),
            (final(self).model(), result) == list_ended(old(self).model()),
    {
        match self.phase {
            LivePhase::States => {
                self.wait = LiveWait::Decisions;
                LiveAction::Decide
            },
            LivePhase::Children => {
                self.phase = LivePhase::Details;
                self.wait = LiveWait::Orders;
                self.index = 0;
                LiveAction::FetchOrders
            },
            _ => self.finished(),
        }
    }

    /// Takes the item that was read: none behind the end of the list, a failure where the list
    /// cannot be read.
    pub fn item_read(&mut self, reply: Result<Option<LiveItem>, ()>) -> (result: LiveAction<V>)
        requires
            old(self).wf(),
            old(self).model().wait == LiveWait::Item,
        ensures
            final(self).wf(),
            match reply {
                Err(_) => (final(self).model(), result) == list_failed(
                    old(self).model(),
                    DecisionAccessError::ListPoisoned,
                ),
                Ok(None) => (final(self).model(), result) == list_ended(old(self).model()),
                Ok(Some(item)) => match old(self).model().phase {
                    LivePhase::States => state_asked(old(self).model(), item, final(self).model(), result),
                    LivePhase::Children => child_taken(old(self).model(), item, final(self).model(), result),
                    _ => detail_taken(old(self).model(), item, final(self).model(), result),
                },
            },
    {
        let item = match reply {
            Err(_) => return self.fail(LiveSaoeGenerationError::Orders(DecisionAccessError::ListPoisoned)),
            Ok(None) => return self.end_list(),
            Ok(Some(item)) => item,
        };
        let index: usize = self.index;
        match self.phase {
            LivePhase::States => match as_order(index, &item) {
                Ok(_) => {
                    self.wait = LiveWait::State;
                    LiveAction::TakeState(index)
                },
                Err(error) => self.fail(LiveSaoeGenerationError::Orders(error)),
            },
            LivePhase::Children => {
                let decision = if index < self.decisions.len() {
                    Some(&self.decisions[index])
                } else {
                    None
                };
                match child_step(index, &item, decision) {
                    ChildStep::Stop => self.end_list(),
                    ChildStep::Skip => {
                        self.index = index + 1;
                        LiveAction::ReadItem(index + 1)
                    },
                    ChildStep::Create(request) => {
                        self.index = index + 1;
                        self.wait = LiveWait::Child;
                        LiveAction::CreateChild(request)
                    },
                    ChildStep::Failed(error) => self.fail(LiveSaoeGenerationError::Orders(error)),
                }
            },
            _ => match detail_instrument(index, &item) {
                Ok(instrument) => {
                    self.instrument = Some(instrument);
                    self.wait = LiveWait::Calendar;
                    LiveAction::ReadCalendar
                },
                Err(error) => self.fail(LiveSaoeGenerationError::Orders(error)),
            },
        }
    }

    /// Goes on behind a state that was taken in, or ends where it was not. A list has fewer items than
    /// there are numbers.
    pub fn state_taken(&mut self, reply: Result<(), TakeFailure>) -> (result: LiveAction<V>)
        requires
            old(self).wf(),
            old(self).model().wait == LiveWait::State,
            old(self).model().index < usize::MAX,
        ensures
            final(self).wf(),
            (final(self).model(), result) == state_handled(old(self).model(), reply),
    {
        match reply {
            Ok(_) => {
                self.index += 1;
                self.wait = LiveWait::Item;
                LiveAction::ReadItem(self.index)
            },
            Err(TakeFailure::Lookup(error)) => self.fail(LiveSaoeGenerationError::State(error)),
            Err(TakeFailure::Observation(error)) => self.fail(LiveSaoeGenerationError::Pipeline(error)),
        }
    }

    /// Takes the decisions of the pipeline, or why it made none.
    pub fn decided(&mut self, reply: Result<Vec<SaoePolicyDecision<V>>, SaoeInterpreterError>) -> (result: LiveAction<V>)
        requires
            old(self).wf(),
            old(self).model().wait == LiveWait::Decisions,
        ensures
            final(self).wf(),
            (final(self).model(), result) == decisions_handled(old(self).model(), listed(reply)),
    {
        match reply {
            Ok(decisions) => {
                self.decisions = decisions;
                self.phase = LivePhase::Children;
                self.wait = LiveWait::Orders;
                self.index = 0;
                LiveAction::FetchOrders
            },
            Err(error) => self.fail(LiveSaoeGenerationError::Pipeline(error)),
        }
    }

    /// Goes on behind a child order, or ends where its factory failed.
    pub fn child_created(&mut self, reply: Result<(), SaoePluginError>) -> (result: LiveAction<V>)
        requires
            old(self).wf(),
            old(self).model().wait == LiveWait::Child,
        ensures
            final(self).wf(),
            (final(self).model(), result) == child_handled(old(self).model(), reply),
    {
        match reply {
            Ok(_) => {
                self.wait = LiveWait::Item;
                LiveAction::ReadItem(self.index)
            },
            Err(error) => self.fail(LiveSaoeGenerationError::Factory(error)),
        }
    }

    /// Makes the row of an instrument with what the calendar said, or ends where it failed.
    pub fn calendar_read(&mut self, reply: Result<(Timestamp, String), SaoePluginError>) -> (result: LiveAction<V>)
        requires
            old(self).wf(),
            old(self).model().wait == LiveWait::Calendar,
        ensures
            final(self).wf(),
            (final(self).model(), result) == calendar_handled(old(self).model(), reply),
    {
        let (datetime, frequency) = match reply {
            Err(error) => return self.fail(LiveSaoeGenerationError::Calendar(error)),
            Ok(found) => found,
        };
        let mut held: Option<String> = None;
        core::mem::swap(&mut self.instrument, &mut held);
        match held {
            None => LiveAction::Finished,
            Some(instrument) => {
                let ghost before = self.details@;
                let count: usize = self.decisions.len();
                let row = detail_row(instrument, datetime, frequency, &self.decisions[self.index]);
                let ghost model = row@;
                self.details.push(row);
                assert(detail_models(self.details@) =~= detail_models(before).push(model));
                self.index += 1;
                if self.index == count {
                    self.finished()
                } else {
                    self.wait = LiveWait::Item;
                    LiveAction::ReadItem(self.index)
                }
            },
        }
    }

    /// The rows of the report.
    pub fn finish(self) -> (result: Vec<SaoeTradeDetail<V>>)
        requires
            self.wf(),
        ensures
            detail_models(result@) == self.model().details,
            rows_follow(detail_models(result@), self.model().decisions),
    {
        self.details
    }
}

/// The three loops fetch the list of orders once each: behind the start, behind the decisions and
/// behind the last child order, also where there is no decision.
pub proof fn loops_fetch_the_list<V>(model: GenerationModel<V>, decisions: Seq<SaoePolicyDecision<V>>, message: String)
    requires
        model.phase == LivePhase::Children,
    ensures
        decisions_handled(model, Ok(decisions)).1 is FetchOrders,
        list_ended(model).1 is FetchOrders,
        fetched(list_ended(model).0, Err(message)).1 == LiveAction::<V>::Failed(
            LiveSaoeGenerationError::Decision(message),
        ),
{
}

} // verus!
