//! The operations of a level's indicator on its current store and summary row.
use crate::base_price_aggregation::{combines, BasePriceRun, RunModel};
use crate::indicator::{
    advantage_taken, aggregate_order_price_advantage, assign_outer_target_and_fill, calculate_trade_indicators,
    execution_rows, order_amounts, order_snapshot, parse_indicator_config, rates_updated, row_summarized, snapshot_taken,
    trade_amount_snapshot, update_order_fulfill_rate, update_order_indicators, with_rows, with_target,
    Indicator, IndicatorPool, OrderExecution,
};
use crate::indicator_store::{
    aggregate_stores, contents, stores_aggregated, stores_stopped, IndicatorStoreAccess,
};
use crate::metric_snapshot::Entries;
use crate::number::Number;
use crate::ordered::{value_of, with_entries, with_entry};
use crate::report_indicator::{weight_method, IndicatorConfig, IndicatorError, MetricSnapshot};
use vstd::prelude::*;

verus! {

/// Whether at most one store changed.
pub open spec fn one_changed<S>(before: Seq<S>, after: Seq<S>, place: int) -> bool {
    after.len() == before.len() && forall|i: int| 0 <= i < before.len() && i != place ==> #[trigger] after[i] == before[i]
}

/// The directions that base prices are aggregated by: those of the store, or none.
pub open spec fn directions_of<V, S: IndicatorStoreAccess<V>>(store: S) -> Entries<V> where V: Number {
    match value_of(store.columns(), "trade_dir"@) {
        Some(entries) => entries,
        None => Seq::empty(),
    }
}

/// The base prices and base volumes that an input holds.
pub fn base_metrics<V: Number, S: IndicatorStoreAccess<V>>(store: &S) -> (result: (
    Option<MetricSnapshot<V>>,
    Option<MetricSnapshot<V>>,
))
    ensures
        match result.0 {
            Some(metric) => value_of(store.columns(), "base_price"@) == Some(metric@),
            None => value_of(store.columns(), "base_price"@) is None,
        },
        match result.1 {
            Some(metric) => value_of(store.columns(), "base_volume"@) == Some(metric@),
            None => value_of(store.columns(), "base_volume"@) is None,
        },
{
    (store.metric_snapshot("base_price"), store.metric_snapshot("base_volume"))
}

impl Indicator {
    /// Whether the current store and summary row stand in a pool.
    pub open spec fn within<V, S>(&self, pool: IndicatorPool<V, S>) -> bool {
        self.order() < pool.stores@.len() && self.trade() < pool.rows@.len()
    }

    /// Assigns the metrics of executed orders to the current store.
    pub fn update_order_indicators<V: Number, S: IndicatorStoreAccess<V>>(
        &self,
        pool: &mut IndicatorPool<V, S>,
        executions: &[OrderExecution<V>],
    )
        requires
            self.within(*old(pool)),
        ensures
            final(pool).rows == old(pool).rows,
            one_changed(old(pool).stores@, final(pool).stores@, self.order() as int),
            final(pool).stores@[self.order() as int].columns() == with_rows(
                old(pool).stores@[self.order() as int].columns(),
                with_entries(Seq::empty(), execution_rows(executions@)),
            ),
    {
        let place: usize = self.order_indicator();
        update_order_indicators(&mut pool.stores[place], executions);
    }

    /// Adds the trade information of inner stores up in the current store. An inner store may come
    /// up several times and may be the current store. What was done before a failure stays.
    pub fn aggregate_order_trade_info<V: Number, S: IndicatorStoreAccess<V>>(
        &self,
        pool: &mut IndicatorPool<V, S>,
        inner: &Vec<usize>,
    ) -> (result: Result<(), IndicatorError>)
        requires
            self.within(*old(pool)),
            forall|i: int| 0 <= i < inner@.len() ==> #[trigger] inner@[i] < old(pool).stores@.len(),
        ensures
            final(pool).rows == old(pool).rows,
            final(pool).stores@.len() == old(pool).stores@.len(),
            ({
                let mode = old(pool).stores@[self.order() as int].mode();
                let before = contents(old(pool).stores@);
                let after = contents(final(pool).stores@);
                match result {
                    Ok(_) => stores_aggregated(mode, inner@, self.order() as int, before, after),
                    Err(error) => stores_stopped(mode, inner@, self.order() as int, before, after, error),
                }
            }),
    {
        let place: usize = self.order_indicator();
        aggregate_stores(&mut pool.stores, inner, place)
    }

    /// Replaces the target amounts of the current store: a stock that comes up several times keeps
    /// its first place and its last amount.
    pub fn update_trade_amount<V: Number, S: IndicatorStoreAccess<V>>(
        &self,
        pool: &mut IndicatorPool<V, S>,
        orders: &[(String, V)],
    )
        requires
            self.within(*old(pool)),
        ensures
            final(pool).rows == old(pool).rows,
            one_changed(old(pool).stores@, final(pool).stores@, self.order() as int),
            final(pool).stores@[self.order() as int].columns() == with_entry(
                old(pool).stores@[self.order() as int].columns(),
                "amount"@,
                with_entries(Seq::empty(), order_amounts(orders@)),
            ),
    {
        let place: usize = self.order_indicator();
        let amounts = trade_amount_snapshot(orders);
        pool.stores[place].assign_snapshot("amount", amounts);
    }

    /// Replaces the target amounts of the current store and recomputes its fill rates.
    pub fn update_outer_target_and_fill<V: Number, S: IndicatorStoreAccess<V>>(
        &self,
        pool: &mut IndicatorPool<V, S>,
        orders: &[(String, V)],
    )
        requires
            self.within(*old(pool)),
        ensures
            final(pool).rows == old(pool).rows,
            one_changed(old(pool).stores@, final(pool).stores@, self.order() as int),
            final(pool).stores@[self.order() as int].columns() == with_target(
                old(pool).stores@[self.order() as int].columns(),
                with_entries(Seq::empty(), order_amounts(orders@)),
            ),
    {
        let place: usize = self.order_indicator();
        let amounts = trade_amount_snapshot(orders);
        assign_outer_target_and_fill(&mut pool.stores[place], amounts);
    }

    /// Recomputes the fill rates of the current store.
    pub fn update_order_fulfill_rate<V: Number, S: IndicatorStoreAccess<V>>(
        &self,
        pool: &mut IndicatorPool<V, S>,
    ) -> (result: Result<(), IndicatorError>)
        requires
            self.within(*old(pool)),
        ensures
            final(pool).rows == old(pool).rows,
            one_changed(old(pool).stores@, final(pool).stores@, self.order() as int),
            rates_updated(
                old(pool).stores@[self.order() as int].columns(),
                final(pool).stores@[self.order() as int].columns(),
                result,
            ),
    {
        let place: usize = self.order_indicator();
        update_order_fulfill_rate(&mut pool.stores[place])
    }

    /// Begins to aggregate base prices by the directions of the current store. Without directions
    /// nothing is done.
    pub fn aggregate_base_price<V: Number, S: IndicatorStoreAccess<V>>(
        &self,
        pool: &IndicatorPool<V, S>,
        inputs: usize,
        steps: usize,
    ) -> (result: Option<BasePriceRun<V>>)
        requires
            self.within(*pool),
        ensures
            match result {
                None => directions_of(pool.stores@[self.order() as int]).len() == 0,
                Some(run) => directions_of(pool.stores@[self.order() as int]).len() > 0 && run.wf() && run.model() == (
                RunModel::<V> {
                    directions: directions_of(pool.stores@[self.order() as int]),
                    pairs: if inputs <= steps {
                        inputs as nat
                    } else {
                        steps as nat
                    },
                    prices: Seq::empty(),
                    volumes: Seq::empty(),
                    current: None,
                }),
            },
    {
        let directions = match pool.stores[self.order_indicator()].metric_snapshot("trade_dir") {
            Some(metric) => metric,
            None => MetricSnapshot::empty(),
        };
        BasePriceRun::begin(directions, inputs, steps)
    }

    /// Publishes aggregated base prices in the current store.
    pub fn publish_base_price<V: Number, S: IndicatorStoreAccess<V>>(
        &self,
        pool: &mut IndicatorPool<V, S>,
        run: BasePriceRun<V>,
    )
        requires
            self.within(*old(pool)),
            run.wf(),
            run.model().current is None,
            run.model().prices.len() == run.model().pairs,
        ensures
            final(pool).rows == old(pool).rows,
            one_changed(old(pool).stores@, final(pool).stores@, self.order() as int),
            exists|totals: Entries<V>, means: Entries<V>| #[trigger]
                combines(totals, means, run.model().prices, run.model().volumes)
                    && final(pool).stores@[self.order() as int].columns() == with_entry(
                    with_entry(old(pool).stores@[self.order() as int].columns(), "base_volume"@, totals),
                    "base_price"@,
                    means,
                ),
    {
        let place: usize = self.order_indicator();
        run.publish(&mut pool.stores[place]);
    }

    /// Computes the price advantage of the current store.
    pub fn aggregate_order_price_advantage<V: Number, S: IndicatorStoreAccess<V>>(
        &self,
        pool: &mut IndicatorPool<V, S>,
    ) -> (result: Result<(), IndicatorError>)
        requires
            self.within(*old(pool)),
        ensures
            final(pool).rows == old(pool).rows,
            one_changed(old(pool).stores@, final(pool).stores@, self.order() as int),
            advantage_taken(
                old(pool).stores@[self.order() as int].mode(),
                old(pool).stores@[self.order() as int].columns(),
                final(pool).stores@[self.order() as int].columns(),
                result,
            ),
    {
        let place: usize = self.order_indicator();
        aggregate_order_price_advantage(&mut pool.stores[place])
    }

    /// Writes the trade summary of the current store into the current row.
    pub fn calculate_trade_indicators<V: Number, S: IndicatorStoreAccess<V>>(
        &self,
        pool: &mut IndicatorPool<V, S>,
        config: IndicatorConfig,
    ) -> (result: Result<(), IndicatorError>)
        requires
            self.within(*old(pool)),
        ensures
            final(pool).stores == old(pool).stores,
            one_changed(old(pool).rows@, final(pool).rows@, self.trade() as int),
            row_summarized(
                old(pool).stores@[self.order() as int].columns(),
                config,
                old(pool).rows@[self.trade() as int]@,
                final(pool).rows@[self.trade() as int]@,
                result,
            ),
    {
        let place: usize = self.order_indicator();
        let row: usize = self.trade_indicator();
        calculate_trade_indicators(&pool.stores[place], &mut pool.rows[row], config)
    }

    /// Reads the names of two methods, fill rate first, and writes the trade summary.
    pub fn calculate_trade_indicators_str<V: Number, S: IndicatorStoreAccess<V>>(
        &self,
        pool: &mut IndicatorPool<V, S>,
        fulfill_rate: &str,
        price_advantage: &str,
    ) -> (result: Result<(), IndicatorError>)
        requires
            self.within(*old(pool)),
        ensures
            final(pool).stores == old(pool).stores,
            one_changed(old(pool).rows@, final(pool).rows@, self.trade() as int),
            match (weight_method(fulfill_rate@), weight_method(price_advantage@)) {
                (Some(first), Some(second)) => row_summarized(
                    old(pool).stores@[self.order() as int].columns(),
                    IndicatorConfig { fulfill_rate: first, price_advantage: second },
                    old(pool).rows@[self.trade() as int]@,
                    final(pool).rows@[self.trade() as int]@,
                    result,
                ),
                (None, _) => final(pool).rows == old(pool).rows && result is Err && is_unsupported(
                    result->Err_0,
                    fulfill_rate@,
                ),
                (Some(_), None) => final(pool).rows == old(pool).rows && result is Err && is_unsupported(
                    result->Err_0,
                    price_advantage@,
                ),
            },
    {
        match parse_indicator_config(fulfill_rate, price_advantage) {
            Ok(config) => self.calculate_trade_indicators(pool, config),
            Err(error) => Err(error),
        }
    }

    /// Every metric of the current store, in column order.
    pub fn order_snapshot<V: Number, S: IndicatorStoreAccess<V>>(&self, pool: &IndicatorPool<V, S>) -> (result: Result<
        Vec<(String, MetricSnapshot<V>)>,
        IndicatorError,
    >)
        requires
            self.within(*pool),
        ensures
            result matches Ok(metrics) && snapshot_taken(pool.stores@[self.order() as int].columns(), metrics@),
    {
        order_snapshot(&pool.stores[self.order_indicator()])
    }
}

/// Whether a failure is about a method of a name that is not known.
pub open spec fn is_unsupported(error: IndicatorError, name: Seq<char>) -> bool {
    error matches IndicatorError::UnsupportedWeightMethod(said) && said@ == name
}

} // verus!
