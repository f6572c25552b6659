//! The intraday data of an order, and the cache that keeps it.
use crate::day_map::{day_model, DayModel, DayTuple};
use crate::order::{OrderDir, Timestamp};
use crate::ordered::{find_name, find_name_finds, find_name_is, value_of};
use crate::saoe::{SaoeOrder, SaoePluginError};
use core::num::NonZeroUsize;
use lru::LruCache;
use vstd::prelude::*;

verus! {

/// Why the data of an order could not be loaded. The errors of orders come from their owner.
#[derive(Debug)]
pub enum SaoeBacktestDataLoadError {
    OrderPoisoned,
    /// The order has no start.
    MissingStartTime,
    UnsupportedTradeRange,
    MissingEndTime,
    EmptyOrderInterval,
    EmptyTradeRange,
    CachedDataPoisoned,
    CachedFieldPoisoned(&'static str),
    Source(SaoePluginError),
}

// ---- the cache --------------------------------------------------------------------------------

/// `lru::DefaultHasher`.
#[verifier::external_type_specification]
#[verifier::external_body]
pub struct ExDefaultHasher(lru::DefaultHasher);

/// `lru::LruCache`.
#[verifier::external_type_specification]
#[verifier::external_body]
#[verifier::reject_recursive_types(K)]
#[verifier::reject_recursive_types(V)]
#[verifier::reject_recursive_types(S)]
pub struct ExLruCache<K, V, S>(LruCache<K, V, S>);

/// The entries of an `LruCache`, the most recently used first.
pub uninterp spec fn cache_entries(cache: LruCache<DayTuple, usize, lru::DefaultHasher>) -> Seq<(DayModel, usize)>;

/// How many entries an `LruCache` holds at most.
pub uninterp spec fn cache_capacity(cache: LruCache<DayTuple, usize, lru::DefaultHasher>) -> usize;

/// Entries after one of them was used.
pub open spec fn used(entries: Seq<(DayModel, usize)>, key: DayModel) -> Seq<(DayModel, usize)> {
    match find_name(entries, key) {
        Some(place) => seq![entries[place]] + entries.remove(place),
        None => entries,
    }
}

/// Entries after a value was stored: a known key takes the new value, an unknown key comes in the
/// place of the entry that was not used longest if there is no more room.
pub open spec fn stored(entries: Seq<(DayModel, usize)>, capacity: usize, key: DayModel, value: usize) -> Seq<
    (DayModel, usize),
> {
    match find_name(entries, key) {
        Some(place) => seq![(key, value)] + entries.remove(place),
        None => seq![(key, value)] + if entries.len() == capacity {
            entries.drop_last()
        } else {
            entries
        },
    }
}

/// The value that makes room for a stored one.
pub open spec fn displaced(entries: Seq<(DayModel, usize)>, capacity: usize, key: DayModel) -> Option<usize> {
    match find_name(entries, key) {
        Some(place) => Some(entries[place].1),
        None => if entries.len() == capacity {
            Some(entries.last().1)
        } else {
            None
        },
    }
}

/// `LruCache::new`: a cache without entries. It allocates room for all its entries at once, so the
/// capacity is kept small.
#[verifier::external_body]
fn cache_new(capacity: usize) -> (result: LruCache<DayTuple, usize, lru::DefaultHasher>)
    requires
        0 < capacity <= 100,
    ensures
        cache_entries(result) == Seq::<(DayModel, usize)>::empty(),
        cache_capacity(result) == capacity,
{
    LruCache::new(NonZeroUsize::new(capacity).unwrap())
}

/// `LruCache::len`: the number of entries.
#[verifier::external_body]
fn cache_length(cache: &LruCache<DayTuple, usize, lru::DefaultHasher>) -> (result: usize)
    ensures
        result == cache_entries(*cache).len(),
{
    cache.len()
}

/// `LruCache::get`: the value under a key, which counts as a use of it.
#[verifier::external_body]
fn cache_get(cache: &mut LruCache<DayTuple, usize, lru::DefaultHasher>, key: &DayTuple) -> (result: Option<usize>)
    ensures
        result == value_of(cache_entries(*old(cache)), day_model(*key)),
        cache_entries(*final(cache)) == used(cache_entries(*old(cache)), day_model(*key)),
        cache_capacity(*final(cache)) == cache_capacity(*old(cache)),
{
    cache.get(key).copied()
}

/// `LruCache::push`: stores a value under a key and gives back the value that made room for it.
#[verifier::external_body]
fn cache_push(cache: &mut LruCache<DayTuple, usize, lru::DefaultHasher>, key: DayTuple, value: usize) -> (result: Option<
    usize,
>)
    ensures
        result == displaced(cache_entries(*old(cache)), cache_capacity(*old(cache)), day_model(key)),
        cache_entries(*final(cache)) == stored(
            cache_entries(*old(cache)),
            cache_capacity(*old(cache)),
            day_model(key),
            value,
        ),
        cache_capacity(*final(cache)) == cache_capacity(*old(cache)),
{
    cache.push(key, value).map(|entry| entry.1)
}

/// How many orders of a day are kept.
pub const SAOE_BACKTEST_DATA_CACHE_CAPACITY: usize = 100;

/// The loaded data of orders by stock, day and direction. The data itself is kept by its owner
/// under handles; the data that was not used longest makes room.
pub struct SaoeBacktestDataLoader {
    cache: LruCache<DayTuple, usize, lru::DefaultHasher>,
}

/// The key of an order's data: the stock, the date, the fraction of the second, the direction.
pub open spec fn data_key(stock_id: Seq<char>, start: Timestamp, direction: OrderDir) -> DayModel {
    (stock_id, start.day_spec() as i64, start.nanos, direction == OrderDir::Buy)
}

/// The key of an order's data.
pub fn cache_key<V>(order: &SaoeOrder<V>) -> (result: Result<DayTuple, SaoeBacktestDataLoadError>)
    ensures
        match order.start_time {
            None => result == Err::<DayTuple, _>(SaoeBacktestDataLoadError::MissingStartTime),
            Some(start) => result matches Ok(key) && day_model(key) == data_key(order.stock_id@, start, order.direction),
        },
{
    match order.start_time {
        None => Err(SaoeBacktestDataLoadError::MissingStartTime),
        Some(start) => Ok(
            (order.stock_id.clone(), start.day(), start.nanos, order.direction == OrderDir::Buy),
        ),
    }
}

impl SaoeBacktestDataLoader {
    /// The handles by key, the most recently used first.
    pub closed spec fn entries(&self) -> Seq<(DayModel, usize)> {
        cache_entries(self.cache)
    }

    /// There is room for a fixed number of handles, and no more are kept.
    pub closed spec fn wf(&self) -> bool {
        &&& cache_capacity(self.cache) == SAOE_BACKTEST_DATA_CACHE_CAPACITY
        &&& cache_entries(self.cache).len() <= SAOE_BACKTEST_DATA_CACHE_CAPACITY
    }

    pub fn new() -> (result: Self)
        ensures
            result.wf(),
            result.entries() == Seq::<(DayModel, usize)>::empty(),
    {
        SaoeBacktestDataLoader { cache: cache_new(SAOE_BACKTEST_DATA_CACHE_CAPACITY) }
    }

    pub fn cache_len(&self) -> (result: usize)
        requires
            self.wf(),
        ensures
            result == self.entries().len(),
            result <= SAOE_BACKTEST_DATA_CACHE_CAPACITY,
    {
        cache_length(&self.cache)
    }

    /// The handle of data that was loaded before.
    pub fn cached(&mut self, key: &DayTuple) -> (result: Option<usize>)
        requires
            old(self).wf(),
        ensures
            final(self).wf(),
            result == value_of(old(self).entries(), day_model(*key)),
            final(self).entries() == used(old(self).entries(), day_model(*key)),
    {
        proof {
            find_name_finds(self.entries(), day_model(*key));
        }
        cache_get(&mut self.cache, key)
    }

    /// Keeps the handle of loaded data, and gives back the handle that made room for it.
    pub fn keep(&mut self, key: DayTuple, handle: usize) -> (result: Option<usize>)
        requires
            old(self).wf(),
        ensures
            final(self).wf(),
            result == displaced(old(self).entries(), SAOE_BACKTEST_DATA_CACHE_CAPACITY, day_model(key)),
            final(self).entries() == stored(
                old(self).entries(),
                SAOE_BACKTEST_DATA_CACHE_CAPACITY,
                day_model(key),
                handle,
            ),
    {
        proof {
            find_name_finds(self.entries(), day_model(key));
        }
        cache_push(&mut self.cache, key, handle)
    }
}

/// Data that was just kept is found again.
pub proof fn kept_data_is_found(entries: Seq<(DayModel, usize)>, capacity: usize, key: DayModel, handle: usize)
    ensures
        value_of(stored(entries, capacity, key, handle), key) == Some(handle),
{
    find_name_is(stored(entries, capacity, key, handle), key, 0);
}

/// Data that was just used is the last to make room.
pub proof fn used_data_stays(entries: Seq<(DayModel, usize)>, capacity: usize, key: DayModel, other: DayModel, handle: usize)
    requires
        find_name(entries, key) is Some,
        other != key,
        entries.len() <= capacity,
        capacity >= 2,
    ensures
        value_of(stored(used(entries, key), capacity, other, handle), key) == value_of(entries, key),
{
    find_name_finds(entries, key);
    let place = find_name(entries, key)->Some_0;
    let front = used(entries, key);
    assert(front[0] == entries[place]);
    assert(front.len() == entries.len());
    find_name_finds(front, other);
    let after = stored(front, capacity, other, handle);
    match find_name(front, other) {
        Some(found) => {
            assert(found != 0);
            assert(front.remove(found)[0] == front[0]);
            assert(after[1] == front[0]);
        },
        None => {
            if front.len() == capacity {
                assert(front.drop_last()[0] == front[0]);
            }
            assert(after[1] == front[0]);
        },
    }
    find_name_is(after, key, 1);
}

// ---- the ticks of an order --------------------------------------------------------------------

/// The points of a series within closed bounds, in order.
pub open spec fn within(times: Seq<Timestamp>, start: Timestamp, end: Timestamp) -> Seq<Timestamp> {
    times.filter(|time: Timestamp| start.at_or_before(time) && time.at_or_before(end))
}

/// Whether a point falls into closed bounds of the day.
pub open spec fn in_session(time: Timestamp, start: Timestamp, end: Timestamp) -> bool {
    let clock = Timestamp { seconds: time.second_of_day_spec() as i64, nanos: time.nanos };
    start.at_or_before(clock) && clock.at_or_before(end)
}

/// The points of a series whose time of day falls into closed bounds, in order.
pub open spec fn session(times: Seq<Timestamp>, start: Timestamp, end: Timestamp) -> Seq<Timestamp> {
    times.filter(|time: Timestamp| in_session(time, start, end))
}

/// The points of a series within closed bounds, in order.
pub fn ticks_within(times: &Vec<Timestamp>, start: Timestamp, end: Timestamp) -> (result: Vec<Timestamp>)
    ensures
        result@ == within(times@, start, end),
{
    let mut kept: Vec<Timestamp> = Vec::new();
    let mut i: usize = 0;
    proof {
        reveal(Seq::filter);
    }
    while i < times.len()
        invariant
            i <= times@.len(),
            kept@ == within(times@.take(i as int), start, end),
        decreases times@.len() - i,
    {
        proof {
            reveal(Seq::filter);
            assert(times@.take(i + 1).drop_last() =~= times@.take(i as int));
            assert(times@.take(i + 1).last() == times@[i as int]);
        }
        if start.le(times[i]) && times[i].le(end) {
            kept.push(times[i]);
        }
        i += 1;
    }
    assert(times@.take(i as int) =~= times@);
    kept
}

/// The points of a series whose time of day falls into closed bounds, in order.
pub fn ticks_of_session(times: &Vec<Timestamp>, start: Timestamp, end: Timestamp) -> (result: Vec<Timestamp>)
    ensures
        result@ == session(times@, start, end),
{
    let mut kept: Vec<Timestamp> = Vec::new();
    let mut i: usize = 0;
    proof {
        reveal(Seq::filter);
    }
    while i < times.len()
        invariant
            i <= times@.len(),
            kept@ == session(times@.take(i as int), start, end),
        decreases times@.len() - i,
    {
        proof {
            reveal(Seq::filter);
            assert(times@.take(i + 1).drop_last() =~= times@.take(i as int));
            assert(times@.take(i + 1).last() == times@[i as int]);
        }
        let clock = times[i].time_of_day();
        if start.le(clock) && clock.le(end) {
            kept.push(times[i]);
        }
        i += 1;
    }
    assert(times@.take(i as int) =~= times@);
    kept
}

/// Every traded tick lies in the interval of the order and in the session.
pub proof fn traded_ticks_are_bounded(
    times: Seq<Timestamp>,
    start: Timestamp,
    end: Timestamp,
    open: Timestamp,
    close: Timestamp,
    tick: Timestamp,
)
    requires
        session(within(times, start, end), open, close).contains(tick),
    ensures
        times.contains(tick),
        start.at_or_before(tick) && tick.at_or_before(end),
        in_session(tick, open, close),
{
    let index = within(times, start, end);
    session_holds(index, open, close);
    within_holds(times, start, end);
    let traded = session(index, open, close);
    let i = choose|i: int| 0 <= i < traded.len() && traded[i] == tick;
    assert(index.contains(traded[i]));
    let j = choose|j: int| 0 <= j < index.len() && index[j] == tick;
    assert(times.contains(index[j]));
}

proof fn within_holds(times: Seq<Timestamp>, start: Timestamp, end: Timestamp)
    ensures
        forall|i: int|
            0 <= i < within(times, start, end).len() ==> times.contains(#[trigger] within(times, start, end)[i])
                && start.at_or_before(within(times, start, end)[i]) && within(times, start, end)[i].at_or_before(end),
    decreases times.len(),
{
    reveal(Seq::filter);
    if times.len() > 0 {
        let shorter = times.drop_last();
        within_holds(shorter, start, end);
        let kept = within(times, start, end);
        let before = within(shorter, start, end);
        assert forall|i: int| 0 <= i < kept.len() implies times.contains(#[trigger] kept[i]) && start.at_or_before(
            kept[i],
        ) && kept[i].at_or_before(end) by {
            if i < before.len() {
                assert(kept[i] == before[i]);
                let k = choose|k: int| 0 <= k < shorter.len() && shorter[k] == before[i];
                assert(times[k] == kept[i]);
            } else {
                assert(kept[i] == times[times.len() - 1]);
            }
        }
    }
}

proof fn session_holds(times: Seq<Timestamp>, start: Timestamp, end: Timestamp)
    ensures
        forall|i: int|
            0 <= i < session(times, start, end).len() ==> times.contains(#[trigger] session(times, start, end)[i])
                && in_session(session(times, start, end)[i], start, end),
    decreases times.len(),
{
    reveal(Seq::filter);
    if times.len() > 0 {
        let shorter = times.drop_last();
        session_holds(shorter, start, end);
        let kept = session(times, start, end);
        let before = session(shorter, start, end);
        assert forall|i: int| 0 <= i < kept.len() implies times.contains(#[trigger] kept[i]) && in_session(
            kept[i],
            start,
            end,
        ) by {
            if i < before.len() {
                assert(kept[i] == before[i]);
                let k = choose|k: int| 0 <= k < shorter.len() && shorter[k] == before[i];
                assert(times[k] == kept[i]);
            } else {
                assert(kept[i] == times[times.len() - 1]);
            }
        }
    }
}

/// Whether a point in time lies between two others or on one of them.
pub open spec fn lies_between(point: (int, int), start: (int, int), end: (int, int)) -> bool {
    &&& start.0 < point.0 || start.0 == point.0 && start.1 <= point.1
    &&& point.0 < end.0 || point.0 == end.0 && point.1 <= end.1
}

/// The ticks within bounds are those of the series that lie between them or on them, and the ticks of a
/// session those whose time of the day does, on whatever day.
pub proof fn ticks_lie_between_their_bounds(
    times: Vec<Timestamp>,
    start: Timestamp,
    end: Timestamp,
    within_bounds: Vec<Timestamp>,
    of_session: Vec<Timestamp>,
    tick: Timestamp,
    day: int,
    clock: int,
)
    requires
        call_ensures(ticks_within, (&times, start, end), within_bounds),
        call_ensures(ticks_of_session, (&times, start, end), of_session),
        // The time of the day is what remains of the seconds behind whole days.
        tick.seconds == day * (24 * 60 * 60) + clock,
        0 <= clock < 24 * 60 * 60,
    ensures
        within_bounds@.contains(tick) <==> times@.contains(tick) && lies_between(
            (tick.seconds as int, tick.nanos as int),
            (start.seconds as int, start.nanos as int),
            (end.seconds as int, end.nanos as int),
        ),
        of_session@.contains(tick) <==> times@.contains(tick) && lies_between(
            (clock, tick.nanos as int),
            (start.seconds as int, start.nanos as int),
            (end.seconds as int, end.nanos as int),
        ),
{
    clocks_are_what_remains(tick, day, clock);
    within_holds(times@, start, end);
    session_holds(times@, start, end);
    let kept = |time: Timestamp| start.at_or_before(time) && time.at_or_before(end);
    let traded = |time: Timestamp| in_session(time, start, end);
    if times@.contains(tick) {
        let i = choose|i: int| 0 <= i < times@.len() && times@[i] == tick;
        if kept(tick) {
            times@.lemma_filter_contains(kept, i);
        }
        if traded(tick) {
            times@.lemma_filter_contains(traded, i);
        }
    }
    let (inside, open) = (within_bounds@, of_session@);
    assert(inside == times@.filter(kept));
    assert(open == times@.filter(traded));
    if inside.contains(tick) {
        let i = choose|i: int| 0 <= i < inside.len() && inside[i] == tick;
        assert(times@.contains(inside[i]));
    }
    if open.contains(tick) {
        let i = choose|i: int| 0 <= i < open.len() && open[i] == tick;
        assert(times@.contains(open[i]) && in_session(open[i], start, end));
    }
    assert(traded(tick) == in_session(tick, start, end));
}

/// The time of the day is what remains of the seconds behind whole days.
pub proof fn clocks_are_what_remains(tick: Timestamp, day: int, clock: int)
    requires
        tick.seconds == day * (24 * 60 * 60) + clock,
        0 <= clock < 24 * 60 * 60,
    ensures
        tick.second_of_day_spec() == clock,
        tick.day_spec() == day,
{
    vstd::arithmetic::div_mod::lemma_fundamental_div_mod_converse(tick.seconds as int, 86400, day, clock);
}

/// Two orders share their data exactly where they are for the same stock and side and start on the same
/// day, at the same fraction of a second.
pub proof fn orders_of_a_day_share_their_data<V>(
    order: SaoeOrder<V>,
    other: SaoeOrder<V>,
    start: Timestamp,
    later: Timestamp,
    key: Result<DayTuple, SaoeBacktestDataLoadError>,
    beside: Result<DayTuple, SaoeBacktestDataLoadError>,
    day: i64,
    other_day: i64,
)
    requires
        call_ensures(cache_key::<V>, (&order,), key),
        call_ensures(cache_key::<V>, (&other,), beside),
        order.start_time == Some(start),
        other.start_time == Some(later),
        call_ensures(Timestamp::day, (start,), day),
        call_ensures(Timestamp::day, (later,), other_day),
    ensures
        key is Ok && beside is Ok,
        day_model(key->Ok_0) == day_model(beside->Ok_0) <==> order.stock_id@ == other.stock_id@ && order.direction
            == other.direction && day == other_day && start.nanos == later.nanos,
{
}

/// Data that is kept is found again, and of the rest at most what was used least recently is gone, and
/// that only where there is no more room.
pub proof fn kept_data_displaces_the_oldest(
    loader: &mut SaoeBacktestDataLoader,
    key: DayTuple,
    handle: usize,
    result: Option<usize>,
    place: int,
)
    requires
        call_ensures(SaoeBacktestDataLoader::keep, (loader, key, handle), result),
        old(loader).wf(),
        find_name(old(loader).entries(), day_model(key)) is None,
        0 <= place < old(loader).entries().len(),
    ensures
        final(loader).entries()[0] == (day_model(key), handle),
        old(loader).entries().len() < SAOE_BACKTEST_DATA_CACHE_CAPACITY ==> result is None && final(loader).entries().len()
            == old(loader).entries().len() + 1,
        old(loader).entries().len() == SAOE_BACKTEST_DATA_CACHE_CAPACITY ==> result == Some(
            old(loader).entries().last().1,
        ) && final(loader).entries().len() == SAOE_BACKTEST_DATA_CACHE_CAPACITY,
        place + 1 < SAOE_BACKTEST_DATA_CACHE_CAPACITY ==> final(loader).entries()[place + 1] == old(loader).entries()[place],
{
}

} // verus!
