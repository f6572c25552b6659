//! The loading of an order's intraday data, stage by stage. Between two stages the source of the
//! data is asked, and a shared order may change.
use crate::day_map::{day_model, DayTuple};
use crate::order::{OrderDir, Timestamp};
use crate::ordered::value_of;
use crate::saoe::{SaoeOrder, SaoePluginError};
use crate::saoe_backtest_data::{
    cache_key, data_key, lies_between, session, ticks_of_session, ticks_within, used, within, SaoeBacktestDataLoadError,
    SaoeBacktestDataLoader,
};
use vstd::prelude::*;

verus! {

/// The intraday data of an order.
#[derive(Debug)]
pub struct SaoeBacktestData<V> {
    pub ticks_index: Vec<Timestamp>,
    pub ticks_for_order: Vec<Timestamp>,
    pub deal_prices: Vec<V>,
    pub market_volumes: Vec<V>,
}

/// What a load begins with.
#[derive(Debug)]
pub enum LoadBegin {
    /// Data is at hand under a handle.
    Cached(usize),
    /// The timestamps of the quotes are asked for. The data is kept under the key.
    QuoteTimestamps(DayTuple),
}

impl SaoeBacktestDataLoader {
    /// Looks an order's data up. Without an order its owner was left behind by a panic. An order
    /// that is not shared must have an end before anything is asked for.
    pub fn begin_load<V>(&mut self, order: Option<&SaoeOrder<V>>, shared: bool) -> (result: Result<
        LoadBegin,
        SaoeBacktestDataLoadError,
    >)
        requires
            old(self).wf(),
        ensures
            final(self).wf(),
            match order {
                None => result == Err::<LoadBegin, _>(SaoeBacktestDataLoadError::OrderPoisoned) && final(self).entries()
                    == old(self).entries(),
                Some(order) => match order.start_time {
                    None => result == Err::<LoadBegin, _>(SaoeBacktestDataLoadError::MissingStartTime)
                        && final(self).entries() == old(self).entries(),
                    Some(start) => {
                        let key = data_key(order.stock_id@, start, order.direction);
                        &&& final(self).entries() == used(old(self).entries(), key)
                        &&& match value_of(old(self).entries(), key) {
                            Some(handle) => result == Ok::<_, SaoeBacktestDataLoadError>(LoadBegin::Cached(handle)),
                            None => if !shared && order.end_time is None {
                                result == Err::<LoadBegin, _>(SaoeBacktestDataLoadError::MissingEndTime)
                            } else {
                                result matches Ok(LoadBegin::QuoteTimestamps(asked)) && day_model(asked) == key
                            },
                        }
                    },
                },
            },
    {
        let order = match order {
            None => return Err(SaoeBacktestDataLoadError::OrderPoisoned),
            Some(order) => order,
        };
        let key = match cache_key(order) {
            Err(error) => return Err(error),
            Ok(key) => key,
        };
        if let Some(handle) = self.cached(&key) {
            return Ok(LoadBegin::Cached(handle));
        }
        if !shared && order.end_time.is_none() {
            return Err(SaoeBacktestDataLoadError::MissingEndTime);
        }
        Ok(LoadBegin::QuoteTimestamps(key))
    }
}

/// The ticks of an order's interval. The bounds of the session are asked for next.
#[derive(Debug)]
pub struct IntervalStage {
    pub ticks_index: Vec<Timestamp>,
    pub stock_id: String,
    pub direction: OrderDir,
}

/// Takes the timestamps of the quotes, with the order as it is now.
pub fn quotes_read<V>(reply: Result<Vec<Timestamp>, SaoePluginError>, order: Option<&SaoeOrder<V>>) -> (result: Result<
    IntervalStage,
    SaoeBacktestDataLoadError,
>)
    ensures
        match reply {
            Err(error) => result == Err::<IntervalStage, _>(SaoeBacktestDataLoadError::Source(error)),
            Ok(times) => match order {
                None => result == Err::<IntervalStage, _>(SaoeBacktestDataLoadError::OrderPoisoned),
                Some(order) => match (order.start_time, order.end_time) {
                    (None, _) => result == Err::<IntervalStage, _>(SaoeBacktestDataLoadError::MissingStartTime),
                    (Some(_), None) => result == Err::<IntervalStage, _>(SaoeBacktestDataLoadError::MissingEndTime),
                    (Some(start), Some(end)) => if within(times@, start, end).len() == 0 {
                        result == Err::<IntervalStage, _>(SaoeBacktestDataLoadError::EmptyOrderInterval)
                    } else {
                        result matches Ok(stage) && stage.ticks_index@ == within(times@, start, end) && stage.stock_id@
                            == order.stock_id@ && stage.direction == order.direction
                    },
                },
            },
        },
{
    let times = match reply {
        Err(error) => return Err(SaoeBacktestDataLoadError::Source(error)),
        Ok(times) => times,
    };
    let order = match order {
        None => return Err(SaoeBacktestDataLoadError::OrderPoisoned),
        Some(order) => order,
    };
    let start = match order.start_time {
        None => return Err(SaoeBacktestDataLoadError::MissingStartTime),
        Some(start) => start,
    };
    let end = match order.end_time {
        None => return Err(SaoeBacktestDataLoadError::MissingEndTime),
        Some(end) => end,
    };
    let ticks_index = ticks_within(&times, start, end);
    if ticks_index.len() == 0 {
        return Err(SaoeBacktestDataLoadError::EmptyOrderInterval);
    }
    Ok(IntervalStage { ticks_index, stock_id: order.stock_id.clone(), direction: order.direction })
}

/// The traded ticks of an order. The deal prices between the first and the last of them are asked
/// for next, for the stock and the direction.
#[derive(Debug)]
pub struct TradedStage {
    pub ticks_index: Vec<Timestamp>,
    pub ticks_for_order: Vec<Timestamp>,
    pub stock_id: String,
    pub direction: OrderDir,
    pub first: Timestamp,
    pub last: Timestamp,
}

impl IntervalStage {
    /// Takes the bounds of the session; none where the range is not one of times.
    pub fn range_read(self, range: Option<(Timestamp, Timestamp)>) -> (result: Result<TradedStage, SaoeBacktestDataLoadError>)
        ensures
            match range {
                None => result == Err::<TradedStage, _>(SaoeBacktestDataLoadError::UnsupportedTradeRange),
                Some(bounds) => {
                    let traded = session(self.ticks_index@, bounds.0, bounds.1);
                    if traded.len() == 0 {
                        result == Err::<TradedStage, _>(SaoeBacktestDataLoadError::EmptyTradeRange)
                    } else {
                        result matches Ok(stage) && stage.ticks_index@ == self.ticks_index@ && stage.ticks_for_order@
                            == traded && stage.stock_id@ == self.stock_id@ && stage.direction == self.direction
                            && stage.first == traded.first() && stage.last == traded.last()
                    }
                },
            },
    {
        let bounds = match range {
            None => return Err(SaoeBacktestDataLoadError::UnsupportedTradeRange),
            Some(bounds) => bounds,
        };
        let ticks_for_order = ticks_of_session(&self.ticks_index, bounds.0, bounds.1);
        if ticks_for_order.len() == 0 {
            return Err(SaoeBacktestDataLoadError::EmptyTradeRange);
        }
        let first = ticks_for_order[0];
        let last = ticks_for_order[ticks_for_order.len() - 1];
        Ok(
            TradedStage {
                ticks_index: self.ticks_index,
                ticks_for_order,
                stock_id: self.stock_id,
                direction: self.direction,
                first,
                last,
            },
        )
    }
}

/// The deal prices of an order. The volumes of the stock between the same ticks are asked for next.
#[derive(Debug)]
pub struct PricedStage<V> {
    pub ticks_index: Vec<Timestamp>,
    pub ticks_for_order: Vec<Timestamp>,
    pub deal_prices: Vec<V>,
    pub stock_id: String,
    pub first: Timestamp,
    pub last: Timestamp,
}

impl TradedStage {
    /// Takes the deal prices, with the stock of the order as it is now.
    pub fn deals_read<V>(self, reply: Result<Vec<V>, SaoePluginError>, stock_id: Option<&String>) -> (result: Result<
        PricedStage<V>,
        SaoeBacktestDataLoadError,
    >)
        ensures
            match reply {
                Err(error) => result == Err::<PricedStage<V>, _>(SaoeBacktestDataLoadError::Source(error)),
                Ok(prices) => match stock_id {
                    None => result == Err::<PricedStage<V>, _>(SaoeBacktestDataLoadError::OrderPoisoned),
                    Some(stock) => result matches Ok(stage) && stage.ticks_index@ == self.ticks_index@
                        && stage.ticks_for_order@ == self.ticks_for_order@ && stage.deal_prices@ == prices@
                        && stage.stock_id@ == stock@ && stage.first == self.first && stage.last == self.last,
                },
            },
    {
        let deal_prices = match reply {
            Err(error) => return Err(SaoeBacktestDataLoadError::Source(error)),
            Ok(prices) => prices,
        };
        let stock = match stock_id {
            None => return Err(SaoeBacktestDataLoadError::OrderPoisoned),
            Some(stock) => stock,
        };
        Ok(
            PricedStage {
                ticks_index: self.ticks_index,
                ticks_for_order: self.ticks_for_order,
                deal_prices,
                stock_id: stock.clone(),
                first: self.first,
                last: self.last,
            },
        )
    }
}

impl<V> PricedStage<V> {
    /// Takes the volumes. The data is kept under the key of its order next.
    pub fn volumes_read(self, reply: Result<Vec<V>, SaoePluginError>) -> (result: Result<
        SaoeBacktestData<V>,
        SaoeBacktestDataLoadError,
    >)
        ensures
            match reply {
                Err(error) => result == Err::<SaoeBacktestData<V>, _>(SaoeBacktestDataLoadError::Source(error)),
                Ok(volumes) => result matches Ok(data) && data.ticks_index@ == self.ticks_index@ && data.ticks_for_order@
                    == self.ticks_for_order@ && data.deal_prices@ == self.deal_prices@ && data.market_volumes@ == volumes@,
            },
    {
        match reply {
            Err(error) => Err(SaoeBacktestDataLoadError::Source(error)),
            Ok(volumes) => Ok(
                SaoeBacktestData {
                    ticks_index: self.ticks_index,
                    ticks_for_order: self.ticks_for_order,
                    deal_prices: self.deal_prices,
                    market_volumes: volumes,
                },
            ),
        }
    }
}

/// The ticks that an order is traded at are quotes: each lies between the start and the end of the
/// order, and its time of the day between the bounds of the trade range.
pub proof fn traded_ticks_lie_in_both_bounds<V>(
    times: Vec<Timestamp>,
    order: SaoeOrder<V>,
    start: Timestamp,
    end: Timestamp,
    interval: Result<IntervalStage, SaoeBacktestDataLoadError>,
    bounds: (Timestamp, Timestamp),
    result: Result<TradedStage, SaoeBacktestDataLoadError>,
    tick: Timestamp,
    day: int,
    clock: int,
)
    requires
        call_ensures(quotes_read::<V>, (Ok(times), Some(&order)), interval),
        order.start_time == Some(start),
        order.end_time == Some(end),
        interval is Ok,
        call_ensures(IntervalStage::range_read, (interval->Ok_0, Some(bounds)), result),
        result is Ok,
        result->Ok_0.ticks_for_order@.contains(tick),
        tick.seconds == day * (24 * 60 * 60) + clock,
        0 <= clock < 24 * 60 * 60,
    ensures
        times@.contains(tick),
        lies_between(
            (tick.seconds as int, tick.nanos as int),
            (start.seconds as int, start.nanos as int),
            (end.seconds as int, end.nanos as int),
        ),
        lies_between(
            (clock, tick.nanos as int),
            (bounds.0.seconds as int, bounds.0.nanos as int),
            (bounds.1.seconds as int, bounds.1.nanos as int),
        ),
        result->Ok_0.stock_id@ == order.stock_id@ && result->Ok_0.direction == order.direction,
        result->Ok_0.first == result->Ok_0.ticks_for_order@[0],
        result->Ok_0.last == result->Ok_0.ticks_for_order@[result->Ok_0.ticks_for_order@.len() - 1],
{
    crate::saoe_backtest_data::clocks_are_what_remains(tick, day, clock);
    crate::saoe_backtest_data::traded_ticks_are_bounded(times@, start, end, bounds.0, bounds.1, tick);
}

} // verus!
