//! State of single-asset order execution, and the strategy that hands each decision to an agent.
use crate::order::{OrderDir, Timestamp};
use crate::text::{append_chars, decimal_chars, from_chars, same_text, to_chars};
use vstd::prelude::*;

verus! {

/// What tells orders of a day apart.
#[derive(Debug)]
pub struct DayKey {
    pub stock_id: String,
    pub day: Timestamp,
    pub direction: OrderDir,
}

/// What tells orders of a day apart.
pub type KeyModel = (Seq<char>, Timestamp, OrderDir);

impl View for DayKey {
    type V = KeyModel;

    open spec fn view(&self) -> KeyModel {
        (self.stock_id@, self.day, self.direction)
    }
}

impl DayKey {
    pub fn same(&self, other: &DayKey) -> (result: bool)
        ensures
            result == (self@ == other@),
    {
        same_text(self.stock_id.as_str(), other.stock_id.as_str()) && self.day == other.day && self.direction
            == other.direction
    }

    pub fn copied(&self) -> (result: DayKey)
        ensures
            result@ == self@,
    {
        DayKey { stock_id: self.stock_id.clone(), day: self.day, direction: self.direction }
    }
}

/// An order as its execution sees it.
#[derive(Clone, Debug)]
pub struct SaoeOrder<V> {
    pub stock_id: String,
    pub amount: V,
    pub direction: OrderDir,
    pub start_time: Option<Timestamp>,
    pub end_time: Option<Timestamp>,
}

/// The column of positions in the history of an order.
#[derive(Debug)]
pub enum HistoryPositions<V> {
    /// There is no such column.
    Missing,
    /// Some values of the column are null.
    WithNulls,
    /// The values of the column are of another type.
    OtherType(String),
    Values(Vec<V>),
}

/// What the state of an order's execution holds.
#[derive(Debug)]
pub struct SaoeStateParts<V> {
    pub order: SaoeOrder<V>,
    pub cur_time: Timestamp,
    pub cur_step: i64,
    pub position: V,
    pub history_steps: HistoryPositions<V>,
    pub ticks_per_step: usize,
    pub ticks_index: Vec<Timestamp>,
    pub ticks_for_order: Vec<Timestamp>,
}

/// The state of an order's execution.
#[derive(Debug)]
pub struct SaoeState<V> {
    pub parts: SaoeStateParts<V>,
}

impl<V> SaoeState<V> {
    pub fn new(parts: SaoeStateParts<V>) -> (result: Self)
        ensures
            result.parts == parts,
    {
        SaoeState { parts }
    }

    pub fn parts(&self) -> (result: &SaoeStateParts<V>)
        ensures
            *result == self.parts,
    {
        &self.parts
    }
}

// ---- stored states ----------------------------------------------------------------------------

/// A stored state: the order, the time, the step, the position and the metrics are kept as they
/// are, the tables as encoded bytes.
pub struct SaoeStateWire<H, V> {
    pub head: H,
    pub history_exec: Vec<u8>,
    pub history_steps: Vec<u8>,
    pub ticks_index: Vec<Timestamp>,
    pub ticks_for_order: Vec<Timestamp>,
    pub deal_prices: Vec<V>,
    pub market_volumes: Vec<V>,
    pub features: Vec<u8>,
    pub ticks_per_step: usize,
    pub state_ticks_index: Vec<Timestamp>,
    pub state_ticks_for_order: Vec<Timestamp>,
}

/// A stored state whose ticks are those of its data.
pub struct SaoeStateWireV2<H, V> {
    pub head: H,
    pub history_exec: Vec<u8>,
    pub history_steps: Vec<u8>,
    pub ticks_index: Vec<Timestamp>,
    pub ticks_for_order: Vec<Timestamp>,
    pub deal_prices: Vec<V>,
    pub market_volumes: Vec<V>,
    pub features: Vec<u8>,
    pub ticks_per_step: usize,
}

/// A stored state without prices and volumes.
pub struct SaoeStateWireV1<H> {
    pub head: H,
    pub history_exec: Vec<u8>,
    pub history_steps: Vec<u8>,
    pub ticks_index: Vec<Timestamp>,
    pub ticks_for_order: Vec<Timestamp>,
    pub features: Vec<u8>,
    pub ticks_per_step: usize,
}

fn copy_times(times: &Vec<Timestamp>) -> (result: Vec<Timestamp>)
    ensures
        result@ == times@,
{
    let mut copy: Vec<Timestamp> = Vec::new();
    let mut i: usize = 0;
    while i < times.len()
        invariant
            i <= times@.len(),
            copy@ == times@.take(i as int),
        decreases times@.len() - i,
    {
        copy.push(times[i]);
        i += 1;
        assert(copy@ =~= times@.take(i as int));
    }
    assert(copy@ =~= times@);
    copy
}

impl<H, V> SaoeStateWireV2<H, V> {
    /// The state as it is stored now: the ticks of the data are those of the state too.
    pub fn current(self) -> (result: SaoeStateWire<H, V>)
        ensures
            result.head == self.head,
            result.history_exec@ == self.history_exec@,
            result.history_steps@ == self.history_steps@,
            result.ticks_index@ == self.ticks_index@,
            result.ticks_for_order@ == self.ticks_for_order@,
            result.deal_prices@ == self.deal_prices@,
            result.market_volumes@ == self.market_volumes@,
            result.features@ == self.features@,
            result.ticks_per_step == self.ticks_per_step,
            result.state_ticks_index@ == self.ticks_index@,
            result.state_ticks_for_order@ == self.ticks_for_order@,
    {
        let state_ticks_index = copy_times(&self.ticks_index);
        let state_ticks_for_order = copy_times(&self.ticks_for_order);
        SaoeStateWire {
            head: self.head,
            history_exec: self.history_exec,
            history_steps: self.history_steps,
            ticks_index: self.ticks_index,
            ticks_for_order: self.ticks_for_order,
            deal_prices: self.deal_prices,
            market_volumes: self.market_volumes,
            features: self.features,
            ticks_per_step: self.ticks_per_step,
            state_ticks_index,
            state_ticks_for_order,
        }
    }
}

impl<H> SaoeStateWireV1<H> {
    /// The state as it is stored now: without prices and volumes.
    pub fn current<V>(self) -> (result: SaoeStateWire<H, V>)
        ensures
            result.head == self.head,
            result.history_exec@ == self.history_exec@,
            result.history_steps@ == self.history_steps@,
            result.ticks_index@ == self.ticks_index@,
            result.ticks_for_order@ == self.ticks_for_order@,
            result.deal_prices@.len() == 0,
            result.market_volumes@.len() == 0,
            result.features@ == self.features@,
            result.ticks_per_step == self.ticks_per_step,
            result.state_ticks_index@ == self.ticks_index@,
            result.state_ticks_for_order@ == self.ticks_for_order@,
    {
        SaoeStateWireV2 {
            head: self.head,
            history_exec: self.history_exec,
            history_steps: self.history_steps,
            ticks_index: self.ticks_index,
            ticks_for_order: self.ticks_for_order,
            deal_prices: Vec::new(),
            market_volumes: Vec::new(),
            features: self.features,
            ticks_per_step: self.ticks_per_step,
        }.current()
    }
}

/// The state out of what reading it in each form gave: the present form comes first, then the
/// older ones from the newest on. If none fits, the failure of the present form counts.
pub fn select_wire<H, V, E>(
    current: Result<SaoeStateWire<H, V>, E>,
    second: Option<SaoeStateWireV2<H, V>>,
    first: Option<SaoeStateWireV1<H>>,
) -> (result: Result<SaoeStateWire<H, V>, E>)
    ensures
        match current {
            Ok(wire) => result == Ok::<_, E>(wire),
            Err(error) => match second {
                Some(older) => result matches Ok(wire) && wire.head == older.head && wire.deal_prices@
                    == older.deal_prices@ && wire.market_volumes@ == older.market_volumes@ && wire.features@
                    == older.features@ && wire.history_exec@ == older.history_exec@ && wire.history_steps@
                    == older.history_steps@ && wire.ticks_index@ == older.ticks_index@ && wire.ticks_for_order@
                    == older.ticks_for_order@ && wire.state_ticks_index@ == older.ticks_index@
                    && wire.state_ticks_for_order@ == older.ticks_for_order@ && wire.ticks_per_step
                    == older.ticks_per_step,
                None => match first {
                    Some(oldest) => result matches Ok(wire) && wire.head == oldest.head && wire.deal_prices@.len() == 0
                        && wire.market_volumes@.len() == 0 && wire.features@ == oldest.features@ && wire.history_exec@
                        == oldest.history_exec@ && wire.history_steps@ == oldest.history_steps@ && wire.ticks_index@
                        == oldest.ticks_index@ && wire.ticks_for_order@ == oldest.ticks_for_order@
                        && wire.state_ticks_index@ == oldest.ticks_index@ && wire.state_ticks_for_order@
                        == oldest.ticks_for_order@ && wire.ticks_per_step == oldest.ticks_per_step,
                    None => result == Err::<SaoeStateWire<H, V>, E>(error),
                },
            },
        },
{
    match current {
        Ok(wire) => Ok(wire),
        Err(error) => match second {
            Some(older) => Ok(older.current()),
            None => match first {
                Some(oldest) => Ok(oldest.current()),
                None => Err(error),
            },
        },
    }
}

/// A stored state with its tables.
pub struct DecodedState<H, V, B> {
    pub head: H,
    pub history_exec: B,
    pub history_steps: B,
    pub ticks_index: Vec<Timestamp>,
    pub ticks_for_order: Vec<Timestamp>,
    pub deal_prices: Vec<V>,
    pub market_volumes: Vec<V>,
    pub features: B,
    pub ticks_per_step: usize,
    pub state_ticks_index: Vec<Timestamp>,
    pub state_ticks_for_order: Vec<Timestamp>,
}

/// The table of a stream, or why there is none.
pub open spec fn table_of<B, E>(reading: Result<Option<B>, E>) -> Result<B, SaoeError<E>> {
    match reading {
        Ok(Some(table)) => Ok(table),
        Ok(None) => Err(SaoeError::MissingBatch),
        Err(error) => Err(SaoeError::Table(error)),
    }
}

/// The table of a stream: a stream without one is refused.
pub fn table_read<B, E>(reading: Result<Option<B>, E>) -> (result: Result<B, SaoeError<E>>)
    ensures
        result == table_of(reading),
{
    match reading {
        Ok(Some(table)) => Ok(table),
        Ok(None) => Err(SaoeError::MissingBatch),
        Err(error) => Err(SaoeError::Table(error)),
    }
}

/// A stored state with its tables, given what reading the first table of each stream gave. The
/// executions come before the steps and those before the features: the first failure counts.
pub fn decode_tables<H, V, B, E>(
    wire: SaoeStateWire<H, V>,
    history_exec: Result<Option<B>, E>,
    history_steps: Result<Option<B>, E>,
    features: Result<Option<B>, E>,
) -> (result: Result<DecodedState<H, V, B>, SaoeError<E>>)
    ensures
        match (table_of(history_exec), table_of(history_steps), table_of(features)) {
            (Err(error), _, _) => result == Err::<DecodedState<H, V, B>, _>(error),
            (_, Err(error), _) => result == Err::<DecodedState<H, V, B>, _>(error),
            (_, _, Err(error)) => result == Err::<DecodedState<H, V, B>, _>(error),
            (Ok(exec), Ok(steps), Ok(read)) => result == Ok::<_, SaoeError<E>>(
                (DecodedState {
                    head: wire.head,
                    history_exec: exec,
                    history_steps: steps,
                    ticks_index: wire.ticks_index,
                    ticks_for_order: wire.ticks_for_order,
                    deal_prices: wire.deal_prices,
                    market_volumes: wire.market_volumes,
                    features: read,
                    ticks_per_step: wire.ticks_per_step,
                    state_ticks_index: wire.state_ticks_index,
                    state_ticks_for_order: wire.state_ticks_for_order,
                }),
            ),
        },
{
    let history_exec = match table_read(history_exec) {
        Ok(table) => table,
        Err(error) => return Err(error),
    };
    let history_steps = match table_read(history_steps) {
        Ok(table) => table,
        Err(error) => return Err(error),
    };
    let features = match table_read(features) {
        Ok(table) => table,
        Err(error) => return Err(error),
    };
    Ok(
        DecodedState {
            head: wire.head,
            history_exec,
            history_steps,
            ticks_index: wire.ticks_index,
            ticks_for_order: wire.ticks_for_order,
            deal_prices: wire.deal_prices,
            market_volumes: wire.market_volumes,
            features,
            ticks_per_step: wire.ticks_per_step,
            state_ticks_index: wire.state_ticks_index,
            state_ticks_for_order: wire.state_ticks_for_order,
        },
    )
}

// ---- prompts ----------------------------------------------------------------------------------

/// Where an agent is asked: the order of a day and the steps that are open.
#[derive(Debug)]
pub struct SaoePromptLocator {
    pub stock_id: String,
    pub day: Timestamp,
    pub direction: OrderDir,
    pub step_range: (i64, i64),
}

/// A failure of a calendar, state or order plugin.
#[derive(Debug)]
pub struct SaoePluginError {
    pub message: String,
}

/// Why a strategy failed. The errors of orders come from their owner.
#[derive(Debug)]
pub enum SaoeError<E> {
    MissingBatch,
    OuterOrderCount(usize),
    MissingOuterOrder,
    AlreadySuspended,
    NotSuspended,
    ExecutionsForZeroRange,
    Order(E),
    /// A table of a stored state cannot be read.
    Table(E),
    Plugin(SaoePluginError),
}

/// Whether an error is one of a plugin with a message.
pub open spec fn is_plugin_error<E>(error: SaoeError<E>, message: Seq<char>) -> bool {
    error matches SaoeError::Plugin(failure) && failure.message@ == message
}

/// The kind of a prompt.
pub open spec fn prompt_kind() -> Seq<char> {
    "qlib.saoe.proxy"@
}

/// The version of a prompt.
pub open spec fn prompt_version() -> u32 {
    1
}

/// The kind of a prompt.
pub fn saoe_proxy_prompt_kind() -> (result: &'static str)
    ensures
        result@ == prompt_kind(),
{
    "qlib.saoe.proxy"
}

/// The version of a prompt.
pub fn saoe_state_schema_version() -> (result: u32)
    ensures
        result == prompt_version(),
{
    1
}

/// Holds the kind and the version of a prompt against those that can be read.
pub fn check_prompt<E>(kind: &str, schema_version: u32) -> (result: Result<(), SaoeError<E>>)
    ensures
        if kind@ != prompt_kind() {
            result is Err && is_plugin_error(result->Err_0, "unsupported prompt kind: "@ + kind@)
        } else if schema_version != prompt_version() {
            result is Err && is_plugin_error(
                result->Err_0,
                "unsupported prompt schema version: "@ + crate::integer::decimal_digits(schema_version as nat),
            )
        } else {
            result is Ok
        },
{
    if !same_text(kind, "qlib.saoe.proxy") {
        let mut message = to_chars("unsupported prompt kind: ");
        append_chars(&mut message, to_chars(kind).as_slice());
        return Err(SaoeError::Plugin(SaoePluginError { message: from_chars(message.as_slice()) }));
    }
    if schema_version != 1 {
        let mut message = to_chars("unsupported prompt schema version: ");
        append_chars(&mut message, decimal_chars(schema_version as usize).as_slice());
        return Err(SaoeError::Plugin(SaoePluginError { message: from_chars(message.as_slice()) }));
    }
    Ok(())
}

// ---- the strategy -----------------------------------------------------------------------------

/// Where a strategy stands.
pub enum ProxyPhase<O> {
    Uninitialized,
    Ready { order: O, key: DayKey, step_range: (i64, i64) },
    Suspended { order: O, key: DayKey, step_range: (i64, i64) },
}

/// Where a strategy stands.
pub enum ProxyModel<O> {
    Uninitialized,
    Ready { order: O, key: KeyModel, step_range: (i64, i64) },
    Suspended { order: O, key: KeyModel, step_range: (i64, i64) },
}

/// A strategy that hands each decision to an agent: it suspends until the agent gives a volume.
pub struct ProxySaoeStrategy<O> {
    phase: ProxyPhase<O>,
}

/// An order that the owner of the exchange makes next.
#[derive(Debug)]
pub struct ChildOrderRequest<V> {
    pub stock_id: String,
    pub amount: Option<V>,
    pub direction: OrderDir,
}

/// The range of steps of a phase.
pub open spec fn range_of<O>(phase: ProxyModel<O>) -> (i64, i64) {
    match phase {
        ProxyModel::Uninitialized => (0, 0),
        ProxyModel::Ready { step_range, .. } => step_range,
        ProxyModel::Suspended { step_range, .. } => step_range,
    }
}

/// The positions of the executions that belong to a key.
pub open spec fn belonging<E>(keys: Seq<Result<DayKey, SaoeError<E>>>, key: KeyModel) -> Seq<usize>
    decreases keys.len(),
{
    if keys.len() == 0 {
        Seq::empty()
    } else if keys.last()->Ok_0@ == key {
        belonging(keys.drop_last(), key).push((keys.len() - 1) as usize)
    } else {
        belonging(keys.drop_last(), key)
    }
}

/// The first failure among keys.
pub open spec fn first_failure<E>(keys: Seq<Result<DayKey, SaoeError<E>>>) -> Option<SaoeError<E>>
    decreases keys.len(),
{
    if keys.len() == 0 {
        None
    } else {
        match first_failure(keys.drop_last()) {
            Some(error) => Some(error),
            None => match keys.last() {
                Ok(_) => None,
                Err(error) => Some(error),
            },
        }
    }
}

pub proof fn first_failure_stays<E>(keys: Seq<Result<DayKey, SaoeError<E>>>, count: int)
    requires
        0 <= count <= keys.len(),
        first_failure(keys.take(count)) is Some,
    ensures
        first_failure(keys) == first_failure(keys.take(count)),
    decreases keys.len() - count,
{
    if count < keys.len() {
        assert(keys.take(count + 1).drop_last() =~= keys.take(count));
        first_failure_stays(keys, count + 1);
    } else {
        assert(keys.take(count) =~= keys);
    }
}

impl<O> ProxySaoeStrategy<O> {
    /// Where the strategy stands.
    pub closed spec fn model(&self) -> ProxyModel<O> {
        match self.phase {
            ProxyPhase::Uninitialized => ProxyModel::Uninitialized,
            ProxyPhase::Ready { order, key, step_range } => ProxyModel::Ready { order, key: key@, step_range },
            ProxyPhase::Suspended { order, key, step_range } => ProxyModel::Suspended { order, key: key@, step_range },
        }
    }

    pub fn new() -> (result: Self)
        ensures
            result.model() is Uninitialized,
    {
        ProxySaoeStrategy { phase: ProxyPhase::Uninitialized }
    }

    /// The range of steps that was open last.
    pub fn last_step_range(&self) -> (result: (i64, i64))
        ensures
            result == range_of(self.model()),
    {
        match &self.phase {
            ProxyPhase::Uninitialized => (0, 0),
            ProxyPhase::Ready { step_range, .. } => *step_range,
            ProxyPhase::Suspended { step_range, .. } => *step_range,
        }
    }

    /// The order whose state is exposed.
    pub fn current_order<E>(&self) -> (result: Result<&O, SaoeError<E>>)
        ensures
            match self.model() {
                ProxyModel::Uninitialized => result == Err::<&O, _>(SaoeError::<E>::MissingOuterOrder),
                ProxyModel::Ready { order, .. } => result matches Ok(found) && *found == order,
                ProxyModel::Suspended { order, .. } => result matches Ok(found) && *found == order,
            },
    {
        match &self.phase {
            ProxyPhase::Uninitialized => Err(SaoeError::MissingOuterOrder),
            ProxyPhase::Ready { order, .. } => Ok(order),
            ProxyPhase::Suspended { order, .. } => Ok(order),
        }
    }

    /// Looks at the orders of an outer decision before a reset: there must be one, and it must have
    /// a day. The states are reset for it next, and then [`Self::finish_reset`] is due.
    pub fn check_reset<E>(order_count: usize, day: Result<DayKey, E>) -> (result: Result<DayKey, SaoeError<E>>)
        ensures
            if order_count != 1 {
                result == Err::<DayKey, _>(SaoeError::<E>::OuterOrderCount(order_count))
            } else {
                match day {
                    Ok(key) => result == Ok::<_, SaoeError<E>>(key),
                    Err(error) => result == Err::<DayKey, _>(SaoeError::Order(error)),
                }
            },
    {
        if order_count != 1 {
            return Err(SaoeError::OuterOrderCount(order_count));
        }
        match day {
            Ok(key) => Ok(key),
            Err(error) => Err(SaoeError::Order(error)),
        }
    }

    /// Takes an order over once the states were reset for it. No range of steps is open.
    pub fn finish_reset(&mut self, order: O, key: DayKey)
        ensures
            final(self).model() == (ProxyModel::Ready { order, key: key@, step_range: (0, 0) }),
    {
        self.phase = ProxyPhase::Ready { order, key, step_range: (0, 0) };
    }

    /// Whether a decision can begin. If so the calendar is asked for the open range of steps next,
    /// and then [`Self::suspend`] is due.
    pub fn check_begin<E>(&self) -> (result: Result<(), SaoeError<E>>)
        ensures
            match self.model() {
                ProxyModel::Uninitialized => result == Err::<(), _>(SaoeError::<E>::MissingOuterOrder),
                ProxyModel::Ready { .. } => result is Ok,
                ProxyModel::Suspended { .. } => result == Err::<(), _>(SaoeError::<E>::AlreadySuspended),
            },
    {
        match &self.phase {
            ProxyPhase::Uninitialized => Err(SaoeError::MissingOuterOrder),
            ProxyPhase::Ready { .. } => Ok(()),
            ProxyPhase::Suspended { .. } => Err(SaoeError::AlreadySuspended),
        }
    }

    /// Suspends on a range of steps and says where the agent is asked.
    pub fn suspend(&mut self, range: (i64, i64)) -> (result: SaoePromptLocator)
        requires
            old(self).model() is Ready,
        ensures
            final(self).model() == (ProxyModel::Suspended {
                order: old(self).model()->Ready_order,
                key: old(self).model()->Ready_key,
                step_range: range,
            }),
            result.stock_id@ == old(self).model()->Ready_key.0,
            result.day == old(self).model()->Ready_key.1,
            result.direction == old(self).model()->Ready_key.2,
            result.step_range == range,
    {
        let mut phase = ProxyPhase::Uninitialized;
        core::mem::swap(&mut self.phase, &mut phase);
        match phase {
            ProxyPhase::Ready { order, key, .. } => {
                let locator = SaoePromptLocator {
                    stock_id: key.stock_id.clone(),
                    day: key.day,
                    direction: key.direction,
                    step_range: range,
                };
                self.phase = ProxyPhase::Suspended { order, key, step_range: range };
                locator
            },
            ProxyPhase::Uninitialized | ProxyPhase::Suspended { .. } => {
                proof {
                    assert(false);
                }
                SaoePromptLocator {
                    stock_id: String::new(),
                    day: Timestamp { seconds: 0, nanos: 0 },
                    direction: OrderDir::Buy,
                    step_range: range,
                }
            },
        }
    }

    /// The order that the volume of an agent asks for. It is made next, then the calendar is asked
    /// for the step's times, and then [`Self::finish_resume`] is due.
    pub fn begin_resume<V, E>(&self, volume: Option<V>) -> (result: Result<ChildOrderRequest<V>, SaoeError<E>>)
        ensures
            match self.model() {
                ProxyModel::Suspended { key, .. } => result matches Ok(request) && request.stock_id@ == key.0
                    && request.amount == volume && request.direction == key.2,
                _ => result == Err::<ChildOrderRequest<V>, _>(SaoeError::<E>::NotSuspended),
            },
    {
        match &self.phase {
            ProxyPhase::Suspended { key, .. } => Ok(
                ChildOrderRequest { stock_id: key.stock_id.clone(), amount: volume, direction: key.direction },
            ),
            _ => Err(SaoeError::NotSuspended),
        }
    }

    /// Ends a suspension. The range of steps stays.
    pub fn finish_resume(&mut self)
        ensures
            final(self).model() == match old(self).model() {
                ProxyModel::Suspended { order, key, step_range } => ProxyModel::Ready { order, key, step_range },
                other => other,
            },
    {
        let mut phase = ProxyPhase::Uninitialized;
        core::mem::swap(&mut self.phase, &mut phase);
        self.phase = match phase {
            ProxyPhase::Suspended { order, key, step_range } => ProxyPhase::Ready { order, key, step_range },
            other => other,
        };
    }

    /// Gives a suspension up. The range of steps stays.
    pub fn close_trade_decision(&mut self)
        ensures
            final(self).model() == match old(self).model() {
                ProxyModel::Suspended { order, key, step_range } => ProxyModel::Ready { order, key, step_range },
                other => other,
            },
    {
        self.finish_resume();
    }

    /// The positions of the executions that the states are updated with next, and the range of
    /// steps; none where there is nothing to do. An empty range of steps takes no executions.
    pub fn post_execute<E>(&self, keys: Vec<Result<DayKey, SaoeError<E>>>) -> (result: Result<
        Option<(Vec<usize>, (i64, i64))>,
        SaoeError<E>,
    >)
        ensures
            ({
                let range = range_of(self.model());
                if self.model() is Uninitialized || range.1 <= range.0 {
                    if keys@.len() == 0 {
                        result == Ok::<_, SaoeError<E>>(None::<(Vec<usize>, (i64, i64))>)
                    } else {
                        result == Err::<Option<(Vec<usize>, (i64, i64))>, _>(SaoeError::<E>::ExecutionsForZeroRange)
                    }
                } else {
                    let key = match self.model() {
                        ProxyModel::Ready { key, .. } => key,
                        ProxyModel::Suspended { key, .. } => key,
                        ProxyModel::Uninitialized => arbitrary(),
                    };
                    match first_failure(keys@) {
                        Some(error) => result == Err::<Option<(Vec<usize>, (i64, i64))>, _>(error),
                        None => result matches Ok(Some(update)) && update.0@ == belonging(keys@, key) && update.1
                            == range,
                    }
                }
            }),
    {
        let (key, range) = match &self.phase {
            ProxyPhase::Uninitialized => {
                return if keys.len() == 0 {
                    Ok(None)
                } else {
                    Err(SaoeError::ExecutionsForZeroRange)
                };
            },
            ProxyPhase::Ready { key, step_range, .. } => (key, *step_range),
            ProxyPhase::Suspended { key, step_range, .. } => (key, *step_range),
        };
        if range.1 <= range.0 {
            return if keys.len() == 0 {
                Ok(None)
            } else {
                Err(SaoeError::ExecutionsForZeroRange)
            };
        }
        let ghost all = keys@;
        let mut matching: Vec<usize> = Vec::new();
        let mut rest = keys;
        let mut failure: Option<SaoeError<E>> = None;
        let length: usize = rest.len();
        let mut i: usize = 0;
        let mut last: usize = length;
        proof {
            assert(all.take(0) =~= Seq::empty());
        }
        while i < length && last == length
            invariant
                i <= length,
                length == all.len(),
                rest@ == all,
                last == length || last < length,
                last == length ==> matching@ == belonging(all.take(i as int), key@),
                last == length ==> first_failure(all.take(i as int)) is None,
                last < length ==> first_failure(all) is Some && all[last as int] is Err && first_failure(all)
                    == Some(all[last as int]->Err_0),
            decreases length - i,
        {
            proof {
                assert(all.take(i + 1).drop_last() =~= all.take(i as int));
                assert(all.take(i + 1).last() == all[i as int]);
            }
            match &rest[i] {
                Ok(found) => {
                    if found.same(key) {
                        matching.push(i);
                    }
                },
                Err(_) => {
                    last = i;
                    proof {
                        first_failure_stays(all, i + 1);
                    }
                },
            }
            i += 1;
        }
        if last < length {
            match rest.swap_remove(last) {
                Err(error) => {
                    failure = Some(error);
                },
                Ok(_) => {},
            }
        }
        match failure {
            Some(error) => Err(error),
            None => {
                assert(all.take(i as int) =~= all);
                Ok(Some((matching, range)))
            },
        }
    }
}

/// The executions that belong to a key are given by their positions, in order.
pub proof fn belonging_is_ordered<E>(keys: Seq<Result<DayKey, SaoeError<E>>>, key: KeyModel)
    requires
        keys.len() <= usize::MAX,
    ensures
        forall|i: int|
            0 <= i < belonging(keys, key).len() ==> (#[trigger] belonging(keys, key)[i]) < keys.len()
                && keys[belonging(keys, key)[i] as int]->Ok_0@ == key,
        forall|i: int, j: int|
            0 <= i < j < belonging(keys, key).len() ==> belonging(keys, key)[i] < belonging(keys, key)[j],
    decreases keys.len(),
{
    if keys.len() > 0 {
        belonging_is_ordered(keys.drop_last(), key);
        let shorter = belonging(keys.drop_last(), key);
        assert forall|i: int| 0 <= i < shorter.len() implies keys[(#[trigger] shorter[i]) as int]->Ok_0@ == key by {
            assert(keys.drop_last()[shorter[i] as int] == keys[shorter[i] as int]);
        }
    }
}

/// An order that was suspended is taken up again as it was: for its stock and side, over the range of
/// steps that it was suspended with. What is executed of it is the volume that is given.
pub proof fn suspended_orders_are_taken_up_again<O, V, E>(
    strategy: &mut ProxySaoeStrategy<O>,
    range: (i64, i64),
    locator: SaoePromptLocator,
    volume: Option<V>,
    request: Result<ChildOrderRequest<V>, SaoeError<E>>,
    check: Result<(), SaoeError<E>>,
)
    requires
        call_ensures(ProxySaoeStrategy::<O>::suspend, (strategy, range), locator),
        old(strategy).model() is Ready,
        call_ensures(ProxySaoeStrategy::<O>::begin_resume::<V, E>, (&*final(strategy), volume), request),
        call_ensures(ProxySaoeStrategy::<O>::check_begin::<E>, (&*final(strategy),), check),
    ensures
        request is Ok,
        request->Ok_0.stock_id@ == locator.stock_id@ && request->Ok_0.direction == locator.direction,
        request->Ok_0.amount == volume,
        locator.step_range == range,
        check is Err,
{
}

/// The executions that a strategy takes in are those of its own key, all of them, in order.
pub proof fn own_executions_are_taken_in<O, E>(
    strategy: ProxySaoeStrategy<O>,
    keys: Vec<Result<DayKey, SaoeError<E>>>,
    result: Result<Option<(Vec<usize>, (i64, i64))>, SaoeError<E>>,
    place: usize,
)
    requires
        call_ensures(ProxySaoeStrategy::<O>::post_execute::<E>, (&strategy, keys), result),
        place < keys@.len(),
        keys@.len() <= usize::MAX,
    ensures
        result matches Ok(Some(update)) ==> {
            let key = match strategy.model() {
                ProxyModel::Ready { key, .. } => key,
                ProxyModel::Suspended { key, .. } => key,
                ProxyModel::Uninitialized => arbitrary(),
            };
            &&& update.0@.contains(place) <==> keys@[place as int]->Ok_0@ == key
            &&& forall|i: int, j: int| 0 <= i < j < update.0@.len() ==> update.0@[i] < update.0@[j]
            &&& update.1.0 < update.1.1
        },
        result == Ok::<Option<(Vec<usize>, (i64, i64))>, SaoeError<E>>(None) ==> keys@.len() == 0,
        keys@[place as int] is Err ==> result is Err,
{
    match result {
        Ok(Some(update)) => {
            let key = match strategy.model() {
                ProxyModel::Ready { key, .. } => key,
                ProxyModel::Suspended { key, .. } => key,
                ProxyModel::Uninitialized => arbitrary(),
            };
            belonging_is_ordered(keys@, key);
            own_places_belong(keys@, key, place);
        },
        _ => {},
    }
    if keys@[place as int] is Err {
        failures_are_found(keys@, place as int);
    }
}

/// The places of a key are those that hold it.
pub proof fn own_places_belong<E>(keys: Seq<Result<DayKey, SaoeError<E>>>, key: KeyModel, place: usize)
    requires
        keys.len() <= usize::MAX,
    ensures
        belonging(keys, key).contains(place) <==> place < keys.len() && keys[place as int]->Ok_0@ == key,
    decreases keys.len(),
{
    if keys.len() > 0 {
        let fewer = keys.drop_last();
        own_places_belong(fewer, key, place);
        let before = belonging(fewer, key);
        let after = belonging(keys, key);
        if keys.last()->Ok_0@ == key {
            if before.contains(place) {
                let k = choose|k: int| 0 <= k < before.len() && before[k] == place;
                assert(after[k] == place);
            }
            if place == keys.len() - 1 {
                assert(after[before.len() as int] == place);
            }
        }
    }
}

proof fn failures_are_found<E>(keys: Seq<Result<DayKey, SaoeError<E>>>, place: int)
    requires
        0 <= place < keys.len(),
        keys[place] is Err,
    ensures
        first_failure(keys) is Some,
    decreases keys.len(),
{
    if place < keys.len() - 1 {
        failures_are_found(keys.drop_last(), place);
    }
}

} // verus!
