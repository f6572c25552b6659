//! The strategy that decides at once: states, policy, orders and report.
use crate::day_map::{plain_key, plain_keys_differ, to_plain_key, DayMap, DayModel};
use crate::number::Ticks;
use crate::order::{OrderDir, Timestamp};
use crate::ordered::{value_of, with_entry};
use crate::saoe::{
    belonging, first_failure, first_failure_stays, ChildOrderRequest, DayKey, KeyModel, SaoeError, SaoeOrder, SaoePluginError,
};
use crate::saoe_interpreter::{listed, ExecutionNumber, SaoeInterpreterError, SaoePolicyAction, SaoePolicyDecision};
use vstd::prelude::*;

verus! {

/// Why a decision failed, by the stage that stopped it.
#[derive(Debug)]
pub enum SaoeIntStrategyError {
    State(SaoePluginError),
    Pipeline(SaoeInterpreterError),
    OrderFactory(SaoePluginError),
    Calendar(SaoePluginError),
    MissingOuterDecision,
    ExecutionsForZeroRange,
}

// ---- the registry -----------------------------------------------------------------------------

/// The adapters of the orders of a decision, in the order of the orders.
pub struct SaoeAdapterRegistry<A> {
    adapters: DayMap<A>,
    keys: Vec<DayKey>,
}

/// Why an adapter is not at hand.
#[derive(Debug)]
pub enum RegistryError {
    /// The order has no key.
    Key(String),
    /// There is no adapter for the key.
    Missing(DayKey),
}

/// The keys of a registry.
pub open spec fn key_models(keys: Seq<DayKey>) -> Seq<KeyModel> {
    Seq::new(keys.len(), |i: int| keys[i]@)
}

impl<A> SaoeAdapterRegistry<A> {
    /// The adapters by key, in order.
    pub closed spec fn entries(&self) -> Seq<(DayModel, A)> {
        self.adapters@
    }

    /// The keys, in order.
    pub closed spec fn keys(&self) -> Seq<KeyModel> {
        key_models(self.keys@)
    }

    /// There is one key for each adapter.
    pub open spec fn wf(&self) -> bool {
        self.keys().len() == self.entries().len() && forall|i: int|
            0 <= i < self.keys().len() ==> plain_key(#[trigger] self.keys()[i]) == self.entries()[i].0
    }

    pub fn new() -> (result: Self)
        ensures
            result.wf(),
            result.entries() == Seq::<(DayModel, A)>::empty(),
    {
        SaoeAdapterRegistry { adapters: DayMap::new(), keys: Vec::new() }
    }

    pub fn len(&self) -> (result: usize)
        ensures
            result == self.entries().len(),
    {
        self.adapters.len()
    }

    pub fn is_empty(&self) -> (result: bool)
        ensures
            result == (self.entries().len() == 0),
    {
        self.adapters.is_empty()
    }

    /// Begins a reset: no adapter is left.
    pub fn clear(&mut self)
        ensures
            final(self).wf(),
            final(self).entries() == Seq::<(DayModel, A)>::empty(),
    {
        self.adapters = DayMap::new();
        self.keys = Vec::new();
    }

    /// Takes the adapter that was made for an order. A second order with one key takes the place of
    /// the first.
    pub fn add(&mut self, key: Result<DayKey, String>, adapter: A) -> (result: Result<(), RegistryError>)
        requires
            old(self).wf(),
        ensures
            final(self).wf(),
            match key {
                Ok(found) => result is Ok && final(self).entries() == with_entry(
                    old(self).entries(),
                    plain_key(found@),
                    adapter,
                ),
                Err(message) => result == Err::<(), _>(RegistryError::Key(message)) && final(self).entries()
                    == old(self).entries(),
            },
    {
        let found = match key {
            Ok(found) => found,
            Err(message) => return Err(RegistryError::Key(message)),
        };
        let ghost before = self.entries();
        let ghost keys = self.keys();
        let plain = to_plain_key(&found);
        let known = self.adapters.contains(&plain);
        proof {
            crate::ordered::find_name_finds(before, plain_key(found@));
        }
        self.adapters.insert(plain, adapter);
        if !known {
            let ghost said = found@;
            self.keys.push(found);
            assert(self.keys() =~= keys.push(said));
        }
        Ok(())
    }

    /// The adapter of an order.
    pub fn state_adapter(&self, key: Result<DayKey, String>) -> (result: Result<&A, RegistryError>)
        ensures
            match key {
                Ok(found) => match value_of(self.entries(), plain_key(found@)) {
                    Some(adapter) => result matches Ok(held) && *held == adapter,
                    None => result == Err::<&A, _>(RegistryError::Missing(found)),
                },
                Err(message) => result == Err::<&A, _>(RegistryError::Key(message)),
            },
    {
        match key {
            Ok(found) => {
                let plain = to_plain_key(&found);
                match self.adapters.get(&plain) {
                    Some(adapter) => Ok(adapter),
                    None => Err(RegistryError::Missing(found)),
                }
            },
            Err(message) => Err(RegistryError::Key(message)),
        }
    }

    /// The adapter at a place, in the order of the adapters.
    pub fn adapter_at(&self, place: usize) -> (result: &A)
        requires
            place < self.entries().len(),
        ensures
            *result == self.entries()[place as int].1,
    {
        self.adapters.value_at(place)
    }

    /// The executions that each adapter is updated with, in the order of the adapters. A key that
    /// cannot be read stops the update before any adapter takes part.
    pub fn grouped<E>(&self, keys: Vec<Result<DayKey, SaoeError<E>>>) -> (result: Result<
        Vec<Vec<usize>>,
        SaoeError<E>,
    >)
        requires
            self.wf(),
        ensures
            match first_failure(keys@) {
                Some(error) => result == Err::<Vec<Vec<usize>>, _>(error),
                None => result matches Ok(groups) && groups@.len() == self.keys().len() && forall|i: int|
                    0 <= i < groups@.len() ==> (#[trigger] groups@[i])@ == belonging(keys@, self.keys()[i]),
            },
    {
        let ghost all = keys@;
        let length: usize = keys.len();
        let mut rest = keys;
        let mut last: usize = length;
        let mut i: usize = 0;
        proof {
            assert(all.take(0) =~= Seq::empty());
        }
        while i < length && last == length
            invariant
                i <= length,
                length == all.len(),
                rest@ == all,
                last <= length,
                last == length ==> first_failure(all.take(i as int)) is None,
                last == length ==> forall|j: int| 0 <= j < i ==> (#[trigger] all[j]) is Ok,
                last < length ==> all[last as int] is Err && first_failure(all) == Some(all[last as int]->Err_0),
            decreases length - i,
        {
            proof {
                assert(all.take(i + 1).drop_last() =~= all.take(i as int));
                assert(all.take(i + 1).last() == all[i as int]);
            }
            match &rest[i] {
                Ok(_) => {},
                Err(_) => {
                    last = i;
                    proof {
                        first_failure_stays(all, i + 1);
                    }
                },
            }
            i += 1;
        }
        if last < length {
            match rest.swap_remove(last) {
                Err(error) => return Err(error),
                Ok(_) => {},
            }
        }
        assert(all.take(i as int) =~= all);
        let mut groups: Vec<Vec<usize>> = Vec::new();
        let mut k: usize = 0;
        while k < self.keys.len()
            invariant
                k <= self.keys@.len(),
                rest@ == all,
                forall|j: int| 0 <= j < all.len() ==> (#[trigger] all[j]) is Ok,
                groups@.len() == k,
                forall|g: int| 0 <= g < k ==> (#[trigger] groups@[g])@ == belonging(all, self.keys()[g]),
            decreases self.keys@.len() - k,
        {
            groups.push(positions_of(&rest, &self.keys[k]));
            k += 1;
        }
        Ok(groups)
    }
}

/// The positions of the executions that belong to a key.
fn positions_of<E>(keys: &Vec<Result<DayKey, SaoeError<E>>>, key: &DayKey) -> (result: Vec<usize>)
    requires
        forall|j: int| 0 <= j < keys@.len() ==> (#[trigger] keys@[j]) is Ok,
    ensures
        result@ == belonging(keys@, key@),
{
    let mut positions: Vec<usize> = Vec::new();
    let mut i: usize = 0;
    proof {
        assert(keys@.take(0) =~= Seq::empty());
    }
    while i < keys.len()
        invariant
            i <= keys@.len(),
            forall|j: int| 0 <= j < keys@.len() ==> (#[trigger] keys@[j]) is Ok,
            positions@ == belonging(keys@.take(i as int), key@),
        decreases keys@.len() - i,
    {
        proof {
            assert(keys@.take(i + 1).drop_last() =~= keys@.take(i as int));
            assert(keys@.take(i + 1).last() == keys@[i as int]);
        }
        match &keys[i] {
            Ok(found) => {
                if found.same(key) {
                    positions.push(i);
                }
            },
            Err(_) => {
                assert(keys@[i as int] is Ok);
            },
        }
        i += 1;
    }
    assert(keys@.take(i as int) =~= keys@);
    positions
}

// ---- decisions --------------------------------------------------------------------------------

/// A row of the report of a decision.
#[derive(Debug)]
pub struct SaoeTradeDetail<V> {
    pub instrument: String,
    pub datetime: Timestamp,
    pub frequency: String,
    pub execution_volume: V,
    pub action: Option<SaoePolicyAction<V>>,
}

/// What a row of a report holds.
pub type DetailModel<V> = (Seq<char>, Timestamp, Seq<char>, V, Option<SaoePolicyAction<V>>);

impl<V> View for SaoeTradeDetail<V> {
    type V = DetailModel<V>;

    open spec fn view(&self) -> DetailModel<V> {
        (self.instrument@, self.datetime, self.frequency@, self.execution_volume, self.action)
    }
}

/// What a child order asks for.
pub type RequestModel<V> = (Seq<char>, Option<V>, OrderDir);

/// What a child order asks for.
pub open spec fn request_model<V>(request: ChildOrderRequest<V>) -> RequestModel<V> {
    (request.stock_id@, request.amount, request.direction)
}

/// The child orders of decisions, up to a count: one for each volume that is not zero.
pub open spec fn children_of<V: ExecutionNumber>(
    orders: Seq<SaoeOrder<V>>,
    decisions: Seq<SaoePolicyDecision<V>>,
    count: nat,
) -> Seq<RequestModel<V>>
    decreases count,
{
    if count == 0 {
        Seq::empty()
    } else {
        let earlier = children_of(orders, decisions, (count - 1) as nat);
        let volume = decisions[count - 1].execution_volume;
        if volume.equals_spec(V::zero_spec()) {
            earlier
        } else {
            earlier.push((orders[count - 1].stock_id@, Some(volume), orders[count - 1].direction))
        }
    }
}

/// How many orders have a decision.
pub open spec fn paired(orders: nat, decisions: nat) -> nat {
    if orders <= decisions {
        orders
    } else {
        decisions
    }
}

/// What several child orders ask for.
pub open spec fn request_models<V>(requests: Seq<ChildOrderRequest<V>>) -> Seq<RequestModel<V>> {
    Seq::new(requests.len(), |i: int| request_model(requests[i]))
}

/// The child orders of decisions: one for each volume that is not zero.
pub fn child_requests<V: ExecutionNumber>(
    orders: &Vec<SaoeOrder<V>>,
    decisions: &Vec<SaoePolicyDecision<V>>,
) -> (result: Vec<ChildOrderRequest<V>>)
    ensures
        request_models(result@) == children_of(orders@, decisions@, paired(orders@.len(), decisions@.len())),
{
    let mut requests: Vec<ChildOrderRequest<V>> = Vec::new();
    let mut i: usize = 0;
    assert(request_models(requests@) =~= Seq::empty());
    while i < orders.len() && i < decisions.len()
        invariant
            i <= paired(orders@.len(), decisions@.len()),
            request_models(requests@) == children_of(orders@, decisions@, i as nat),
        decreases orders@.len() - i,
    {
        let volume: V = decisions[i].execution_volume;
        if !volume.equals(V::zero()) {
            let ghost before = request_models(requests@);
            requests.push(
                ChildOrderRequest {
                    stock_id: orders[i].stock_id.clone(),
                    amount: Some(volume),
                    direction: orders[i].direction,
                },
            );
            assert(request_models(requests@) =~= before.push(
                (orders@[i as int].stock_id@, Some(volume), orders@[i as int].direction),
            ));
        }
        i += 1;
    }
    requests
}

/// The rows of a report: one for each order with a decision, also where the volume is zero. Each
/// row has its own reading of the calendar.
pub open spec fn details_of<V>(
    orders: Seq<SaoeOrder<V>>,
    decisions: Seq<SaoePolicyDecision<V>>,
    readings: Seq<(Timestamp, String)>,
    count: nat,
) -> Seq<DetailModel<V>> {
    Seq::new(
        count,
        |i: int|
            (
                orders[i].stock_id@,
                readings[i].0,
                readings[i].1@,
                decisions[i].execution_volume,
                Some(decisions[i].action),
            ),
    )
}

/// What several rows of a report hold.
pub open spec fn detail_models<V>(details: Seq<SaoeTradeDetail<V>>) -> Seq<DetailModel<V>> {
    Seq::new(details.len(), |i: int| details[i]@)
}

/// The rows of a report, with one reading of the calendar for each.
pub fn build_details<V: ExecutionNumber>(
    orders: &Vec<SaoeOrder<V>>,
    decisions: &Vec<SaoePolicyDecision<V>>,
    readings: &Vec<(Timestamp, String)>,
) -> (result: Vec<SaoeTradeDetail<V>>)
    requires
        readings@.len() == paired(orders@.len(), decisions@.len()),
    ensures
        detail_models(result@) == details_of(orders@, decisions@, readings@, readings@.len()),
{
    let mut details: Vec<SaoeTradeDetail<V>> = Vec::new();
    let mut i: usize = 0;
    while i < readings.len()
        invariant
            i <= readings@.len(),
            readings@.len() == paired(orders@.len(), decisions@.len()),
            detail_models(details@) == details_of(orders@, decisions@, readings@, i as nat),
        decreases readings@.len() - i,
    {
        let ghost before = detail_models(details@);
        let detail = SaoeTradeDetail {
            instrument: orders[i].stock_id.clone(),
            datetime: readings[i].0,
            frequency: readings[i].1.clone(),
            execution_volume: decisions[i].execution_volume,
            action: Some(decisions[i].action),
        };
        let ghost row = detail@;
        details.push(detail);
        assert(detail_models(details@) =~= before.push(row));
        assert(details_of(orders@, decisions@, readings@, (i + 1) as nat) =~= before.push(row));
        i += 1;
    }
    assert(detail_models(details@) =~= details_of(orders@, decisions@, readings@, readings@.len()));
    details
}

// ---- the assembly of a decision ---------------------------------------------------------------

/// What the assembly of a decision waits for.
#[derive(Clone, Copy, Debug, PartialEq, Eq, Structural)]
pub enum AssemblyStage {
    /// The state of the order at the current place.
    State,
    /// The decisions of the pipeline.
    Decisions,
    /// The child order of the order at the current place.
    Child,
    /// What the calendar says for the next row of the report.
    Row,
    /// The times of the decision.
    Times,
    Over,
}

/// What is asked for next.
#[derive(Debug)]
pub enum AssemblyAction<V> {
    ReadState(usize),
    /// Decide for all states at once.
    Decide,
    CreateChild(ChildOrderRequest<V>),
    /// Read the time of the step and then the frequency.
    ReadCalendar,
    /// Read the time of the step, from its start to its end.
    ReadTimes,
    Finished,
    Failed(SaoeIntStrategyError),
}

/// What an assembly holds.
pub struct AssemblyModel<V> {
    pub orders: Seq<SaoeOrder<V>>,
    pub decisions: Seq<SaoePolicyDecision<V>>,
    pub stage: AssemblyStage,
    pub index: nat,
    pub readings: Seq<(Timestamp, String)>,
    pub times: Option<(Timestamp, Timestamp)>,
}

impl<V: ExecutionNumber> AssemblyModel<V> {
    /// How many orders have a decision.
    pub open spec fn rows(self) -> nat {
        paired(self.orders.len(), self.decisions.len())
    }

    /// The assembly over.
    pub open spec fn over(self) -> AssemblyModel<V> {
        AssemblyModel { stage: AssemblyStage::Over, ..self }
    }

    /// The assembly at a stage, with what is asked for there.
    pub open spec fn at_row(self) -> (AssemblyModel<V>, AssemblyAction<V>) {
        if self.readings.len() < self.rows() {
            (AssemblyModel { stage: AssemblyStage::Row, ..self }, AssemblyAction::ReadCalendar)
        } else {
            (AssemblyModel { stage: AssemblyStage::Times, ..self }, AssemblyAction::ReadTimes)
        }
    }
}

/// The first place from another on whose decision has a volume that is not zero; a limit without one.
pub open spec fn next_volume<V: ExecutionNumber>(decisions: Seq<SaoePolicyDecision<V>>, from: nat, limit: nat) -> nat
    decreases limit - from,
{
    if from >= limit {
        limit
    } else if decisions[from as int].execution_volume.equals_spec(V::zero_spec()) {
        next_volume(decisions, from + 1, limit)
    } else {
        from
    }
}

/// Whether an assembly goes on with the child orders from a place on: with the next one that has a
/// volume, or with the rows of the report.
pub open spec fn children_from<V: ExecutionNumber>(
    before: AssemblyModel<V>,
    from: nat,
    after: AssemblyModel<V>,
    action: AssemblyAction<V>,
) -> bool {
    let place = next_volume(before.decisions, from, before.rows());
    let next = AssemblyModel { index: place, ..before };
    if place < before.rows() {
        &&& after == (AssemblyModel { stage: AssemblyStage::Child, ..next })
        &&& action matches AssemblyAction::CreateChild(request) && request_model(request) == (
            before.orders[place as int].stock_id@,
            Some(before.decisions[place as int].execution_volume),
            before.orders[place as int].direction,
        )
    } else {
        (after, action) == next.at_row()
    }
}

/// The assembly of a decision: the states of all orders, the decisions, the child orders, a reading of
/// the calendar for each row of the report, and the times of the decision. The first failure ends it.
pub struct DecisionAssembly<V> {
    orders: Vec<SaoeOrder<V>>,
    decisions: Vec<SaoePolicyDecision<V>>,
    stage: AssemblyStage,
    index: usize,
    readings: Vec<(Timestamp, String)>,
    times: Option<(Timestamp, Timestamp)>,
}

impl<V: ExecutionNumber> DecisionAssembly<V> {
    pub closed spec fn model(&self) -> AssemblyModel<V> {
        AssemblyModel {
            orders: self.orders@,
            decisions: self.decisions@,
            stage: self.stage,
            index: self.index as nat,
            readings: self.readings@,
            times: self.times,
        }
    }

    /// A place that is waited for is one of an order, rows are read up to the last one, and the times
    /// come at the end.
    pub open spec fn wf(&self) -> bool {
        let model = self.model();
        &&& model.stage == AssemblyStage::State ==> model.index < model.orders.len()
        &&& model.stage == AssemblyStage::Child ==> model.index < model.rows()
        &&& model.stage == AssemblyStage::State || model.stage == AssemblyStage::Decisions || model.stage
            == AssemblyStage::Child ==> model.readings.len() == 0
        &&& model.stage == AssemblyStage::Row ==> model.readings.len() < model.rows()
        &&& model.stage == AssemblyStage::Times || model.times is Some ==> model.readings.len() == model.rows()
        &&& model.times is Some ==> model.stage == AssemblyStage::Over
    }

    /// Begins with the orders of the outer decision. Without orders the pipeline is asked at once.
    pub fn begin(orders: Vec<SaoeOrder<V>>) -> (result: (Self, AssemblyAction<V>))
        ensures
            result.0.wf(),
            result.0.model() == (AssemblyModel::<V> {
                orders: orders@,
                decisions: Seq::empty(),
                stage: if orders@.len() == 0 {
                    AssemblyStage::Decisions
                } else {
                    AssemblyStage::State
                },
                index: 0,
                readings: Seq::empty(),
                times: None,
            }),
            result.1 == if orders@.len() == 0 {
                AssemblyAction::<V>::Decide
            } else {
                AssemblyAction::<V>::ReadState(0)
            },
    {
        let empty = orders.len() == 0;
        let stage = if empty {
            AssemblyStage::Decisions
        } else {
            AssemblyStage::State
        };
        let assembly = DecisionAssembly {
            orders,
            decisions: Vec::new(),
            stage,
            index: 0,
            readings: Vec::new(),
            times: None,
        };
        (
            assembly,
            if empty {
                AssemblyAction::Decide
            } else {
                AssemblyAction::ReadState(0)
            },
        )
    }

    fn fail(&mut self, error: SaoeIntStrategyError) -> (result: AssemblyAction<V>)
        requires
            old(self).wf(),
        ensures
            final(self).wf(),
            (final(self).model(), result) == (old(self).model().over(), AssemblyAction::<V>::Failed(error)),
    {
        self.stage = AssemblyStage::Over;
        AssemblyAction::Failed(error)
    }

    /// Goes on behind the state of an order, or ends where it could not be read.
    pub fn state_read(&mut self, reply: Result<(), SaoePluginError>) -> (result: AssemblyAction<V>)
        requires
            old(self).wf(),
            old(self).model().stage == AssemblyStage::State,
        ensures
            final(self).wf(),
            ({
                let before = old(self).model();
                let next = AssemblyModel { index: before.index + 1, ..before };
                (final(self).model(), result) == match reply {
                    Err(error) => (before.over(), AssemblyAction::<V>::Failed(SaoeIntStrategyError::State(error))),
                    Ok(_) => if next.index < before.orders.len() {
                        (next, AssemblyAction::<V>::ReadState(next.index as usize))
                    } else {
                        (AssemblyModel { stage: AssemblyStage::Decisions, ..next }, AssemblyAction::<V>::Decide)
                    },
                }
            }),
    {
        match reply {
            Err(error) => self.fail(SaoeIntStrategyError::State(error)),
            Ok(_) => {
                let count: usize = self.orders.len();
                self.index += 1;
                if self.index < count {
                    AssemblyAction::ReadState(self.index)
                } else {
                    self.stage = AssemblyStage::Decisions;
                    AssemblyAction::Decide
                }
            },
        }
    }

    fn continue_rows(&mut self) -> (result: AssemblyAction<V>)
        requires
            old(self).model().readings.len() <= old(self).model().rows(),
            old(self).model().times is None,
        ensures
            final(self).wf(),
            (final(self).model(), result) == old(self).model().at_row(),
    {
        let orders: usize = self.orders.len();
        let decisions: usize = self.decisions.len();
        let rows: usize = if orders <= decisions {
            orders
        } else {
            decisions
        };
        if self.readings.len() < rows {
            self.stage = AssemblyStage::Row;
            AssemblyAction::ReadCalendar
        } else {
            self.stage = AssemblyStage::Times;
            AssemblyAction::ReadTimes
        }
    }

    fn continue_children(&mut self, from: usize) -> (result: AssemblyAction<V>)
        requires
            from <= old(self).model().rows(),
            old(self).model().readings.len() == 0,
            old(self).model().times is None,
        ensures
            final(self).wf(),
            children_from(old(self).model(), from as nat, final(self).model(), result),
    {
        let ghost before = self.model();
        let mut place: usize = from;
        while place < self.orders.len() && place < self.decisions.len() && self.decisions[place].execution_volume.equals(
            V::zero(),
        )
            invariant
                from <= place <= before.rows(),
                self.model() == before,
                next_volume(before.decisions, from as nat, before.rows()) == next_volume(
                    before.decisions,
                    place as nat,
                    before.rows(),
                ),
            decreases before.rows() - place,
        {
            place += 1;
        }
        self.index = place;
        if place < self.orders.len() && place < self.decisions.len() {
            self.stage = AssemblyStage::Child;
            AssemblyAction::CreateChild(
                ChildOrderRequest {
                    stock_id: self.orders[place].stock_id.clone(),
                    amount: Some(self.decisions[place].execution_volume),
                    direction: self.orders[place].direction,
                },
            )
        } else {
            self.continue_rows()
        }
    }

    /// Takes the decisions of the pipeline, or why it made none.
    pub fn decided(&mut self, reply: Result<Vec<SaoePolicyDecision<V>>, SaoeInterpreterError>) -> (result: AssemblyAction<V>)
        requires
            old(self).wf(),
            old(self).model().stage == AssemblyStage::Decisions,
        ensures
            final(self).wf(),
            match listed(reply) {
                Err(error) => (final(self).model(), result) == (
                    old(self).model().over(),
                    AssemblyAction::<V>::Failed(SaoeIntStrategyError::Pipeline(error)),
                ),
                Ok(decisions) => children_from(
                    AssemblyModel { decisions, ..old(self).model() },
                    0,
                    final(self).model(),
                    result,
                ),
            },
    {
        match reply {
            Err(error) => self.fail(SaoeIntStrategyError::Pipeline(error)),
            Ok(decisions) => {
                self.decisions = decisions;
                self.continue_children(0)
            },
        }
    }

    /// Goes on behind a child order, or ends where its factory failed.
    pub fn child_created(&mut self, reply: Result<(), SaoePluginError>) -> (result: AssemblyAction<V>)
        requires
            old(self).wf(),
            old(self).model().stage == AssemblyStage::Child,
        ensures
            final(self).wf(),
            match reply {
                Err(error) => (final(self).model(), result) == (
                    old(self).model().over(),
                    AssemblyAction::<V>::Failed(SaoeIntStrategyError::OrderFactory(error)),
                ),
                Ok(_) => children_from(old(self).model(), old(self).model().index + 1, final(self).model(), result),
            },
    {
        match reply {
            Err(error) => self.fail(SaoeIntStrategyError::OrderFactory(error)),
            Ok(_) => {
                let count: usize = self.orders.len();
                assert(self.index < count);
                let from: usize = self.index + 1;
                self.continue_children(from)
            },
        }
    }

    /// Takes what the calendar said for a row of the report.
    pub fn calendar_read(&mut self, reply: Result<(Timestamp, String), SaoePluginError>) -> (result: AssemblyAction<V>)
        requires
            old(self).wf(),
            old(self).model().stage == AssemblyStage::Row,
        ensures
            final(self).wf(),
            (final(self).model(), result) == match reply {
                Err(error) => (
                    old(self).model().over(),
                    AssemblyAction::<V>::Failed(SaoeIntStrategyError::Calendar(error)),
                ),
                Ok(reading) => (AssemblyModel {
                    readings: old(self).model().readings.push(reading),
                    ..old(self).model()
                }).at_row(),
            },
    {
        match reply {
            Err(error) => self.fail(SaoeIntStrategyError::Calendar(error)),
            Ok(reading) => {
                self.readings.push(reading);
                self.continue_rows()
            },
        }
    }

    /// Takes the times of the decision.
    pub fn times_read(&mut self, reply: Result<(Timestamp, Timestamp), SaoePluginError>) -> (result: AssemblyAction<V>)
        requires
            old(self).wf(),
            old(self).model().stage == AssemblyStage::Times,
        ensures
            final(self).wf(),
            (final(self).model(), result) == match reply {
                Err(error) => (
                    old(self).model().over(),
                    AssemblyAction::<V>::Failed(SaoeIntStrategyError::Calendar(error)),
                ),
                Ok(times) => (
                    AssemblyModel { times: Some(times), ..old(self).model().over() },
                    AssemblyAction::<V>::Finished,
                ),
            },
    {
        match reply {
            Err(error) => self.fail(SaoeIntStrategyError::Calendar(error)),
            Ok(times) => {
                self.times = Some(times);
                self.stage = AssemblyStage::Over;
                AssemblyAction::Finished
            },
        }
    }

    /// The report and the times of a decision that is complete.
    pub fn finish(self) -> (result: Option<(Vec<SaoeTradeDetail<V>>, (Timestamp, Timestamp))>)
        requires
            self.wf(),
        ensures
            match self.model().times {
                None => result is None,
                Some(times) => result matches Some((details, found)) && found == times && detail_models(details@)
                    == details_of(self.model().orders, self.model().decisions, self.model().readings, self.model().rows()),
            },
    {
        match self.times {
            None => None,
            Some(times) => Some((build_details(&self.orders, &self.decisions, &self.readings), times)),
        }
    }
}

/// The child orders behind a place are those from the next volume on: going from volume to volume
/// creates exactly the child orders of the decisions.
pub proof fn volumes_give_the_children<V: ExecutionNumber>(
    orders: Seq<SaoeOrder<V>>,
    decisions: Seq<SaoePolicyDecision<V>>,
    from: nat,
    limit: nat,
)
    requires
        from <= limit,
    ensures
        from <= next_volume(decisions, from, limit) <= limit,
        children_of(orders, decisions, next_volume(decisions, from, limit)) == children_of(orders, decisions, from),
        next_volume(decisions, from, limit) < limit ==> children_of(
            orders,
            decisions,
            next_volume(decisions, from, limit) + 1,
        ) == children_of(orders, decisions, from).push(
            (
                orders[next_volume(decisions, from, limit) as int].stock_id@,
                Some(decisions[next_volume(decisions, from, limit) as int].execution_volume),
                orders[next_volume(decisions, from, limit) as int].direction,
            ),
        ),
    decreases limit - from,
{
    if from < limit && decisions[from as int].execution_volume.equals_spec(V::zero_spec()) {
        volumes_give_the_children(orders, decisions, from + 1, limit);
        assert(children_of(orders, decisions, from + 1) == children_of(orders, decisions, from));
    }
}

/// The life of a strategy: the orders of the outer decision, and the steps that were open last.
pub struct SaoeIntStrategy<O> {
    outer_orders: Option<Vec<O>>,
    last_step_range: (i64, i64),
}

/// What an update of the states is made with.
#[derive(Clone, Copy, Debug, PartialEq, Eq, Structural)]
pub enum ExecutionUpdate {
    /// There is nothing to do.
    Nothing,
    /// The states take the executions of a range of steps.
    Steps(i64, i64),
}

impl<O> SaoeIntStrategy<O> {
    pub closed spec fn orders(&self) -> Option<Seq<O>> {
        match self.outer_orders {
            Some(orders) => Some(orders@),
            None => None,
        }
    }

    pub closed spec fn range(&self) -> (i64, i64) {
        self.last_step_range
    }

    pub fn new() -> (result: Self)
        ensures
            result.orders() is None,
            result.range() == (0i64, 0i64),
    {
        SaoeIntStrategy { outer_orders: None, last_step_range: (0, 0) }
    }

    pub fn last_step_range(&self) -> (result: (i64, i64))
        ensures
            result == self.range(),
    {
        self.last_step_range
    }

    /// Takes the orders of an outer decision. The states are reset next; a failure there keeps the
    /// orders.
    pub fn reset(&mut self, orders: Vec<O>)
        ensures
            final(self).orders() == Some(orders@),
            final(self).range() == (0i64, 0i64),
    {
        self.outer_orders = Some(orders);
        self.last_step_range = (0, 0);
    }

    /// Begins a decision: there must be an outer one. The calendar is asked for the open range of
    /// steps next, and then [`Self::open_steps`] is due.
    pub fn check_begin(&self) -> (result: Result<(), SaoeIntStrategyError>)
        ensures
            match self.orders() {
                Some(_) => result is Ok,
                None => result == Err::<(), _>(SaoeIntStrategyError::MissingOuterDecision),
            },
    {
        match &self.outer_orders {
            Some(_) => Ok(()),
            None => Err(SaoeIntStrategyError::MissingOuterDecision),
        }
    }

    /// Opens a range of steps and gives the orders that are decided on.
    pub fn open_steps(&mut self, range: (i64, i64)) -> (result: Option<&Vec<O>>)
        ensures
            final(self).range() == range,
            final(self).orders() == old(self).orders(),
            match old(self).orders() {
                Some(orders) => result matches Some(found) && found@ == orders,
                None => result is None,
            },
    {
        self.last_step_range = range;
        match &self.outer_orders {
            Some(orders) => Some(orders),
            None => None,
        }
    }

    /// What executions mean for the states: an empty range of steps takes none.
    pub fn post_execute(&self, executions: usize) -> (result: Result<ExecutionUpdate, SaoeIntStrategyError>)
        ensures
            if self.range().1 <= self.range().0 {
                if executions == 0 {
                    result == Ok::<_, SaoeIntStrategyError>(ExecutionUpdate::Nothing)
                } else {
                    result == Err::<ExecutionUpdate, _>(SaoeIntStrategyError::ExecutionsForZeroRange)
                }
            } else {
                result == Ok::<_, SaoeIntStrategyError>(ExecutionUpdate::Steps(self.range().0, self.range().1))
            },
    {
        if self.last_step_range.1 <= self.last_step_range.0 {
            if executions == 0 {
                return Ok(ExecutionUpdate::Nothing);
            }
            return Err(SaoeIntStrategyError::ExecutionsForZeroRange);
        }
        Ok(ExecutionUpdate::Steps(self.last_step_range.0, self.last_step_range.1))
    }
}

/// No child order is made for nothing: each has a volume that is not zero.
pub proof fn child_orders_have_volumes<V: ExecutionNumber>(
    orders: Seq<SaoeOrder<V>>,
    decisions: Seq<SaoePolicyDecision<V>>,
    count: nat,
)
    ensures
        children_of(orders, decisions, count).len() <= count,
        forall|i: int|
            0 <= i < children_of(orders, decisions, count).len() ==> (#[trigger] children_of(orders, decisions, count)[i]).1
                is Some && !children_of(orders, decisions, count)[i].1->Some_0.equals_spec(V::zero_spec()),
    decreases count,
{
    if count > 0 {
        child_orders_have_volumes(orders, decisions, (count - 1) as nat);
    }
}

/// The adapter of an order is found under its key until another order has the same key.
pub proof fn added_adapters_are_found<A>(entries: Seq<(DayModel, A)>, key: KeyModel, adapter: A, other: KeyModel)
    ensures
        value_of(with_entry(entries, plain_key(key), adapter), plain_key(key)) == Some(adapter),
        other != key ==> value_of(with_entry(entries, plain_key(key), adapter), plain_key(other)) == value_of(
            entries,
            plain_key(other),
        ),
{
    crate::ordered::read_after_write(entries, plain_key(key), adapter);
    if other != key {
        if plain_key(other) == plain_key(key) {
            plain_keys_differ(other, key);
        }
        crate::ordered::write_keeps_others(entries, plain_key(key), adapter, plain_key(other));
    }
}

/// A child order is made for every decision with a volume and for no other: it is for the stock and
/// side of its order, and for the volume of its decision.
pub proof fn volumes_become_child_orders(
    orders: Vec<SaoeOrder<Ticks>>,
    decisions: Vec<SaoePolicyDecision<Ticks>>,
    result: Vec<ChildOrderRequest<Ticks>>,
    place: int,
    child: int,
)
    requires
        call_ensures(child_requests::<Ticks>, (&orders, &decisions), result),
        0 <= place < orders@.len(),
        place < decisions@.len(),
    ensures
        decisions@[place].execution_volume != Ticks(Some(0)) ==> exists|i: int|
            0 <= i < result@.len() && (#[trigger] result@[i]).stock_id@ == orders@[place].stock_id@ && result@[i].amount
                == Some(decisions@[place].execution_volume) && result@[i].direction == orders@[place].direction,
        0 <= child < result@.len() ==> result@[child].amount is Some && result@[child].amount != Some(Ticks(Some(0))),
        result@.len() <= orders@.len() && result@.len() <= decisions@.len(),
{
    let count = paired(orders@.len(), decisions@.len());
    let children = children_of(orders@, decisions@, count);
    let models = request_models(result@);
    assert(models.len() == result@.len());
    child_orders_have_volumes(orders@, decisions@, count);
    if 0 <= child < result@.len() {
        assert(models[child] == request_model(result@[child]));
    }
    if decisions@[place].execution_volume != Ticks(Some(0)) {
        volumes_are_among_the_children(orders@, decisions@, count, place);
        let i = choose|i: int|
            0 <= i < children.len() && #[trigger] children[i] == (
                orders@[place].stock_id@,
                Some(decisions@[place].execution_volume),
                orders@[place].direction,
            );
        assert(models[i] == request_model(result@[i]));
    }
}

proof fn volumes_are_among_the_children(
    orders: Seq<SaoeOrder<Ticks>>,
    decisions: Seq<SaoePolicyDecision<Ticks>>,
    count: nat,
    place: int,
)
    requires
        0 <= place < count,
        decisions[place].execution_volume != Ticks(Some(0)),
    ensures
        exists|i: int|
            0 <= i < children_of(orders, decisions, count).len() && #[trigger] children_of(orders, decisions, count)[i] == (
                orders[place].stock_id@,
                Some(decisions[place].execution_volume),
                orders[place].direction,
            ),
    decreases count,
{
    let wanted = (orders[place].stock_id@, Some(decisions[place].execution_volume), orders[place].direction);
    let before = children_of(orders, decisions, (count - 1) as nat);
    let after = children_of(orders, decisions, count);
    if place < count - 1 {
        volumes_are_among_the_children(orders, decisions, (count - 1) as nat, place);
        let i = choose|i: int| 0 <= i < before.len() && #[trigger] before[i] == wanted;
        assert(after[i] == wanted);
    } else {
        assert(after[before.len() as int] == wanted);
    }
}

/// The rows of a report belong to their places: the stock of the order, the reading of the calendar,
/// and the volume and action of the decision.
pub proof fn rows_belong_to_their_places<V: ExecutionNumber>(
    orders: Vec<SaoeOrder<V>>,
    decisions: Vec<SaoePolicyDecision<V>>,
    readings: Vec<(Timestamp, String)>,
    result: Vec<SaoeTradeDetail<V>>,
    place: int,
)
    requires
        call_ensures(build_details::<V>, (&orders, &decisions, &readings), result),
        readings@.len() == paired(orders@.len(), decisions@.len()),
        0 <= place < orders@.len(),
        place < decisions@.len(),
    ensures
        place < result@.len(),
        result@[place].instrument@ == orders@[place].stock_id@,
        result@[place].datetime == readings@[place].0 && result@[place].frequency@ == readings@[place].1@,
        result@[place].execution_volume == decisions@[place].execution_volume,
        result@[place].action == Some(decisions@[place].action),
{
    let models = detail_models(result@);
    assert(models.len() == result@.len());
    assert(models[place] == result@[place]@);
}

/// An execution is handed to the adapter of its own key and to no other one.
pub proof fn executions_go_to_their_adapter<A, E>(
    registry: SaoeAdapterRegistry<A>,
    keys: Vec<Result<DayKey, SaoeError<E>>>,
    result: Result<Vec<Vec<usize>>, SaoeError<E>>,
    adapter: int,
    place: usize,
)
    requires
        call_ensures(SaoeAdapterRegistry::<A>::grouped::<E>, (&registry, keys), result),
        registry.wf(),
        result is Ok,
        0 <= adapter < registry.keys().len(),
        place < keys@.len(),
        keys@.len() <= usize::MAX,
    ensures
        result->Ok_0@.len() == registry.keys().len(),
        result->Ok_0@[adapter]@.contains(place) <==> keys@[place as int]->Ok_0@ == registry.keys()[adapter],
{
    crate::saoe::own_places_belong(keys@, registry.keys()[adapter], place);
}

} // verus!
