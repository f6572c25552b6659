//! The indicator of one execution level: current metrics, trade summary and recorded history.
use vstd::prelude::*;

use crate::indicator_store::{
    aggregate_stores, contents, store_metric, stores_aggregated, stores_stopped, Columns, IndicatorStore,
    IndicatorStoreAccess,
};
use crate::metric_snapshot::{at_label, same_labels, Entries, MetricSnapshot};
use crate::number::{absolutes, held, non_nan_count, present_count, quotients_undo, sum_abs, sum_of, ticks, Number, Ticks};
use crate::order::Timestamp;
use crate::ordered::{names_of, value_of, with_entries, with_entries_push, with_entry, OrderedMap};
use crate::report_indicator::{
    advantage, aggregate_weighted, averaged, calculate_fulfillment_rate, calculate_price_advantage, fill_rate,
    mismatched_weights, parse_weight_method, weight_method, IndicatorAggregationMode, IndicatorConfig, IndicatorError,
};

verus! {

/// What an indicator reads of one executed order.
pub struct OrderExecution<V> {
    pub stock_id: String,
    /// The signed target amount.
    pub amount_delta: V,
    /// The signed dealt amount.
    pub deal_amount_delta: V,
    /// One for a buy, minus one for a sell.
    pub sign: V,
    /// The numeric direction.
    pub direction: V,
    pub trade_value: V,
    pub trade_cost: V,
    pub trade_price: V,
}

/// The metrics of one executed order.
#[derive(Clone, Copy)]
pub struct AtomicIndicatorRow<V> {
    pub amount: V,
    pub deal_amount: V,
    pub trade_price: V,
    pub trade_value: V,
    pub trade_cost: V,
    pub trade_dir: V,
}

/// The metrics of one executed order.
pub open spec fn atomic_row<V: Number>(execution: OrderExecution<V>) -> AtomicIndicatorRow<V> {
    AtomicIndicatorRow {
        amount: execution.amount_delta,
        deal_amount: execution.deal_amount_delta,
        trade_price: execution.trade_price,
        trade_value: execution.trade_value.times_spec(execution.sign),
        trade_cost: execution.trade_cost,
        trade_dir: execution.direction,
    }
}

impl<V: Number> AtomicIndicatorRow<V> {
    pub fn read(execution: &OrderExecution<V>) -> (result: Self)
        ensures
            result == atomic_row(*execution),
    {
        AtomicIndicatorRow {
            amount: execution.amount_delta,
            deal_amount: execution.deal_amount_delta,
            trade_price: execution.trade_price,
            trade_value: execution.trade_value.times(execution.sign),
            trade_cost: execution.trade_cost,
            trade_dir: execution.direction,
        }
    }
}

/// The executed orders as labelled rows, in order.
pub open spec fn execution_rows<V: Number>(executions: Seq<OrderExecution<V>>) -> Seq<
    (Seq<char>, AtomicIndicatorRow<V>),
> {
    executions.map_values(|execution: OrderExecution<V>| (execution.stock_id@, atomic_row(execution)))
}

/// Selects one metric of a row.
#[derive(Clone, Copy)]
pub enum AtomicField {
    Amount,
    DealAmount,
    TradePrice,
    TradeValue,
    TradeCost,
    TradeDir,
    /// Zero for every row.
    Nothing,
}

/// One metric of a row.
pub open spec fn row_value<V: Number>(row: AtomicIndicatorRow<V>, field: AtomicField) -> V {
    match field {
        AtomicField::Amount => row.amount,
        AtomicField::DealAmount => row.deal_amount,
        AtomicField::TradePrice => row.trade_price,
        AtomicField::TradeValue => row.trade_value,
        AtomicField::TradeCost => row.trade_cost,
        AtomicField::TradeDir => row.trade_dir,
        AtomicField::Nothing => V::zero_spec(),
    }
}

/// One metric of all rows.
pub open spec fn row_metric<V: Number>(rows: Seq<(Seq<char>, AtomicIndicatorRow<V>)>, field: AtomicField) -> Entries<V> {
    rows.map_values(|row: (Seq<char>, AtomicIndicatorRow<V>)| (row.0, row_value(row.1, field)))
}

/// The fill rates of target amounts.
pub open spec fn fill_rates<V: Number>(amount: Entries<V>, deal: Entries<V>) -> Entries<V> {
    amount.map_values(|entry: (Seq<char>, V)| (entry.0, fill_rate(at_label(deal, entry.0), entry.1)))
}

/// Fill rates stand under the labels of the target amounts, in their order, whatever was dealt.
pub proof fn fill_rates_follow_targets<V: Number>(amount: Entries<V>, deal: Entries<V>)
    ensures
        names_of(fill_rates(amount, deal)) == names_of(amount),
{
    assert(names_of(fill_rates(amount, deal)) =~= names_of(amount));
}

/// The columns after the metrics of executed orders are assigned.
pub open spec fn with_rows<V: Number>(columns: Columns<V>, rows: Seq<(Seq<char>, AtomicIndicatorRow<V>)>) -> Columns<V> {
    let amount = row_metric(rows, AtomicField::Amount);
    let deal = row_metric(rows, AtomicField::DealAmount);
    let c = with_entry(columns, "amount"@, amount);
    let c = with_entry(c, "inner_amount"@, amount);
    let c = with_entry(c, "deal_amount"@, deal);
    let c = with_entry(c, "trade_price"@, row_metric(rows, AtomicField::TradePrice));
    let c = with_entry(c, "trade_value"@, row_metric(rows, AtomicField::TradeValue));
    let c = with_entry(c, "trade_cost"@, row_metric(rows, AtomicField::TradeCost));
    let c = with_entry(c, "trade_dir"@, row_metric(rows, AtomicField::TradeDir));
    let c = with_entry(c, "pa"@, row_metric(rows, AtomicField::Nothing));
    with_entry(c, "ffr"@, fill_rates(amount, deal))
}

/// One metric of all rows.
fn metric_of<V: Number>(rows: &OrderedMap<AtomicIndicatorRow<V>>, field: AtomicField) -> (result: MetricSnapshot<V>)
    ensures
        result@ == row_metric(rows@, field),
{
    let mut map: OrderedMap<V> = OrderedMap::new();
    let length: usize = rows.len();
    let mut i: usize = 0;
    while i < length
        invariant
            i <= length,
            length == rows@.len(),
            crate::ordered::distinct_names(rows@),
            map@ == row_metric(rows@, field).take(i as int),
        decreases length - i,
    {
        let name = rows.name_at(i).clone();
        let row = rows.value_at(i);
        let found = match field {
            AtomicField::Amount => row.amount,
            AtomicField::DealAmount => row.deal_amount,
            AtomicField::TradePrice => row.trade_price,
            AtomicField::TradeValue => row.trade_value,
            AtomicField::TradeCost => row.trade_cost,
            AtomicField::TradeDir => row.trade_dir,
            AtomicField::Nothing => V::zero(),
        };
        proof {
            crate::ordered::find_name_finds(map@, name@);
            if crate::ordered::find_name(map@, name@) is Some {
                let j = crate::ordered::find_name(map@, name@)->Some_0;
                assert(rows@[j].0 == rows@[i as int].0);
            }
        }
        map.insert(name, found);
        i += 1;
        assert(map@ =~= row_metric(rows@, field).take(i as int));
    }
    assert(map@ =~= row_metric(rows@, field));
    MetricSnapshot::from_ordered(&map)
}

/// Labelled rows of executed orders: a repeated stock keeps its first place and its last row.
pub fn atomic_rows<V: Number>(executions: &[OrderExecution<V>]) -> (result: OrderedMap<AtomicIndicatorRow<V>>)
    ensures
        result@ == with_entries(Seq::empty(), execution_rows(executions@)),
{
    let mut rows: OrderedMap<AtomicIndicatorRow<V>> = OrderedMap::new();
    let ghost added = execution_rows(executions@);
    let mut i: usize = 0;
    while i < executions.len()
        invariant
            i <= executions@.len(),
            added == execution_rows(executions@),
            rows@ == with_entries(Seq::empty(), added.take(i as int)),
        decreases executions@.len() - i,
    {
        proof {
            assert(added.take(i + 1).drop_last() =~= added.take(i as int));
            assert(added.take(i + 1).last() == added[i as int]);
        }
        rows.insert(executions[i].stock_id.clone(), AtomicIndicatorRow::read(&executions[i]));
        i += 1;
    }
    assert(added.take(i as int) =~= added);
    rows
}

fn fill_metric<V: Number>(amount: &MetricSnapshot<V>, deal_amount: &MetricSnapshot<V>) -> (result: MetricSnapshot<V>)
    ensures
        result@ == fill_rates(amount@, deal_amount@),
{
    let rates = calculate_fulfillment_rate(amount, deal_amount);
    proof {
        assert(names_of(rates@).len() == names_of(amount@).len());
        assert forall|i: int| 0 <= i < rates@.len() implies rates@[i] == fill_rates(amount@, deal_amount@)[i] by {
            assert(names_of(rates@)[i] == names_of(amount@)[i]);
        }
        assert(rates@ =~= fill_rates(amount@, deal_amount@));
    }
    rates
}

/// Assigns the metrics of executed orders and the fill rate to a store.
pub fn update_order_indicators<V: Number, S: IndicatorStoreAccess<V>>(store: &mut S, executions: &[OrderExecution<V>])
    ensures
        final(store).columns() == with_rows(
            old(store).columns(),
            with_entries(Seq::empty(), execution_rows(executions@)),
        ),
        final(store).mode() == old(store).mode(),
{
    let rows = atomic_rows(executions);
    let amount = metric_of(&rows, AtomicField::Amount);
    let deal_amount = metric_of(&rows, AtomicField::DealAmount);
    let ffr = fill_metric(&amount, &deal_amount);
    let price = metric_of(&rows, AtomicField::TradePrice);
    let value = metric_of(&rows, AtomicField::TradeValue);
    let cost = metric_of(&rows, AtomicField::TradeCost);
    let dir = metric_of(&rows, AtomicField::TradeDir);
    let pa = metric_of(&rows, AtomicField::Nothing);
    store.assign_snapshot("amount", amount.copied());
    store.assign_snapshot("inner_amount", amount);
    store.assign_snapshot("deal_amount", deal_amount);
    store.assign_snapshot("trade_price", price);
    store.assign_snapshot("trade_value", value);
    store.assign_snapshot("trade_cost", cost);
    store.assign_snapshot("trade_dir", dir);
    store.assign_snapshot("pa", pa);
    store.assign_snapshot("ffr", ffr);
}

/// The signed target amounts of orders, as labelled values.
pub open spec fn order_amounts<V>(orders: Seq<(String, V)>) -> Entries<V> {
    orders.map_values(|order: (String, V)| (order.0@, order.1))
}

/// The target amounts of orders: a repeated stock keeps its first place and its last amount.
pub fn trade_amount_snapshot<V: Number>(orders: &[(String, V)]) -> (result: MetricSnapshot<V>)
    ensures
        result@ == with_entries(Seq::empty(), order_amounts(orders@)),
{
    let mut amounts: OrderedMap<V> = OrderedMap::new();
    let ghost added = order_amounts(orders@);
    let mut i: usize = 0;
    while i < orders.len()
        invariant
            i <= orders@.len(),
            added == order_amounts(orders@),
            amounts@ == with_entries(Seq::empty(), added.take(i as int)),
        decreases orders@.len() - i,
    {
        proof {
            assert(added.take(i + 1).drop_last() =~= added.take(i as int));
            assert(added.take(i + 1).last() == added[i as int]);
        }
        amounts.insert(orders[i].0.clone(), orders[i].1);
        i += 1;
    }
    assert(added.take(i as int) =~= added);
    MetricSnapshot::from_ordered(&amounts)
}

/// The metric under a name, or an empty one.
pub open spec fn metric_or_empty<V>(columns: Columns<V>, name: Seq<char>) -> Entries<V> {
    match value_of(columns, name) {
        Some(entries) => entries,
        None => Seq::empty(),
    }
}

/// The columns after the target amounts are replaced and the fill rates follow them.
pub open spec fn with_target<V: Number>(columns: Columns<V>, amount: Entries<V>) -> Columns<V> {
    let c = with_entry(columns, "amount"@, amount);
    with_entry(c, "ffr"@, fill_rates(metric_or_empty(c, "amount"@), metric_or_empty(c, "deal_amount"@)))
}

fn metric_or_default<V: Number, S: IndicatorStoreAccess<V>>(store: &S, name: &str) -> (result: MetricSnapshot<V>)
    ensures
        result@ == metric_or_empty(store.columns(), name@),
{
    match store.metric_snapshot(name) {
        Some(metric) => metric,
        None => MetricSnapshot::empty(),
    }
}

/// Replaces the target amounts of a store and recomputes the fill rates.
pub fn assign_outer_target_and_fill<V: Number, S: IndicatorStoreAccess<V>>(store: &mut S, amount: MetricSnapshot<V>)
    ensures
        final(store).columns() == with_target(old(store).columns(), amount@),
        final(store).mode() == old(store).mode(),
{
    store.assign_snapshot("amount", amount);
    let deal_amount = metric_or_default(&*store, "deal_amount");
    let target = metric_or_default(&*store, "amount");
    store.assign_snapshot("ffr", fill_metric(&target, &deal_amount));
}

/// Runs the local stages of an output store: the trade information of its inputs is added up, and
/// then the target amounts are replaced and the fill rates recomputed. The base prices come next,
/// and the price advantage last. What was done before a failure stays.
pub fn aggregate_local_stages<V: Number, S: IndicatorStoreAccess<V>>(
    stores: &mut Vec<S>,
    inner: &Vec<usize>,
    output: usize,
    amount: MetricSnapshot<V>,
) -> (result: Result<(), IndicatorError>)
    requires
        output < old(stores)@.len(),
        forall|i: int| 0 <= i < inner@.len() ==> #[trigger] inner@[i] < old(stores)@.len(),
    ensures
        final(stores)@.len() == old(stores)@.len(),
        match result {
            Ok(_) => exists|added: Seq<Columns<V>>| #[trigger]
                stores_aggregated(
                    old(stores)@[output as int].mode(),
                    inner@,
                    output as int,
                    contents(old(stores)@),
                    added,
                ) && contents(final(stores)@) == added.update(
                    output as int,
                    with_target(added[output as int], amount@),
                ),
            Err(error) => stores_stopped(
                old(stores)@[output as int].mode(),
                inner@,
                output as int,
                contents(old(stores)@),
                contents(final(stores)@),
                error,
            ),
        },
{
    match aggregate_stores(stores, inner, output) {
        Ok(()) => {},
        Err(error) => return Err(error),
    }
    let ghost added = contents(stores@);
    let ghost targets = amount@;
    assign_outer_target_and_fill(&mut stores[output], amount);
    proof {
        assert(contents(stores@) =~= added.update(output as int, with_target(added[output as int], targets)));
    }
    Ok(())
}

/// What recomputing the fill rate makes of a store: the dealt amounts are looked for before the
/// target amounts, and a failure leaves the store as it was.
pub open spec fn rates_updated<V: Number>(before: Columns<V>, after: Columns<V>, result: Result<(), IndicatorError>) -> bool {
    match result {
        Ok(_) => {
            let amount = value_of(before, "amount"@);
            let deal = value_of(before, "deal_amount"@);
            &&& amount is Some
            &&& deal is Some
            &&& after == with_entry(before, "ffr"@, fill_rates(amount->Some_0, deal->Some_0))
        },
        Err(IndicatorError::MissingMetric(name)) => {
            &&& after == before
            &&& value_of(before, name@) is None
            &&& name@ == "deal_amount"@ || name@ == "amount"@ && value_of(before, "deal_amount"@) is Some
        },
        Err(_) => false,
    }
}

/// Recomputes the fill rate of a store from its target and dealt amounts.
pub fn update_order_fulfill_rate<V: Number, S: IndicatorStoreAccess<V>>(store: &mut S) -> (result: Result<
    (),
    IndicatorError,
>)
    ensures
        final(store).mode() == old(store).mode(),
        rates_updated(old(store).columns(), final(store).columns(), result),
{
    let deal_amount = match store_metric(&*store, "deal_amount") {
        Ok(metric) => metric,
        Err(error) => return Err(error),
    };
    let amount = match store_metric(&*store, "amount") {
        Ok(metric) => metric,
        Err(error) => return Err(error),
    };
    store.assign_snapshot("ffr", fill_metric(&amount, &deal_amount));
    Ok(())
}

/// Whether `gain` is the price advantage of three metrics.
pub open spec fn is_advantage<V: Number>(
    gain: Entries<V>,
    mode: IndicatorAggregationMode,
    dir: Entries<V>,
    price: Entries<V>,
    base: Entries<V>,
) -> bool {
    &&& match mode {
        IndicatorAggregationMode::DenseZeroFill => names_of(gain) == names_of(dir),
        IndicatorAggregationMode::PandasFillValue => crate::metric_snapshot::is_sorted_union(
            names_of(gain),
            seq![dir, price, base],
        ),
    }
    &&& forall|i: int|
        0 <= i < gain.len() ==> (#[trigger] gain[i]).1 == advantage(
            at_label(dir, gain[i].0),
            at_label(price, gain[i].0),
            at_label(base, gain[i].0),
        )
}

/// What the price advantage of a store is computed from, and why it cannot be.
pub open spec fn advantage_refused<V: Number>(
    mode: IndicatorAggregationMode,
    columns: Columns<V>,
    error: IndicatorError,
) -> bool {
    let price = value_of(columns, "trade_price"@);
    let dir = value_of(columns, "trade_dir"@);
    let base = value_of(columns, "base_price"@);
    let needed = price is Some && price->Some_0.len() > 0;
    match error {
        IndicatorError::MissingMetric(name) => {
            ||| name@ == "trade_price"@ && price is None
            ||| name@ == "trade_dir"@ && needed && dir is None
            ||| name@ == "base_price"@ && needed && dir is Some && base is None
        },
        IndicatorError::IndexMismatch { metric, weight } => {
            &&& needed
            &&& dir is Some
            &&& base is Some
            &&& mode == IndicatorAggregationMode::DenseZeroFill
            &&& if same_labels(price->Some_0, base->Some_0) {
                metric@ == "trade_dir"@ && weight@ == "trade_price"@ && !same_labels(dir->Some_0, price->Some_0)
            } else {
                metric@ == "trade_price"@ && weight@ == "base_price"@
            }
        },
        _ => false,
    }
}

/// What the price advantage makes of a store: without trade prices it is empty and nothing else is
/// needed, and a failure leaves the store as it was.
pub open spec fn advantage_taken<V: Number>(
    mode: IndicatorAggregationMode,
    before: Columns<V>,
    after: Columns<V>,
    result: Result<(), IndicatorError>,
) -> bool {
    match result {
        Ok(_) => {
            let price = value_of(before, "trade_price"@);
            let dir = value_of(before, "trade_dir"@);
            let base = value_of(before, "base_price"@);
            &&& price is Some
            &&& if price->Some_0.len() == 0 {
                after == with_entry(before, "pa"@, Seq::empty())
            } else {
                dir is Some && base is Some && exists|gain: Entries<V>| #[trigger]
                    is_advantage(gain, mode, dir->Some_0, price->Some_0, base->Some_0) && after == with_entry(
                        before,
                        "pa"@,
                        gain,
                    )
            }
        },
        Err(error) => after == before && advantage_refused(mode, before, error),
    }
}

/// Computes the price advantage of a store over its base prices. Without trade prices the result
/// is empty and nothing else is needed.
pub fn aggregate_order_price_advantage<V: Number, S: IndicatorStoreAccess<V>>(store: &mut S) -> (result: Result<
    (),
    IndicatorError,
>)
    ensures
        final(store).mode() == old(store).mode(),
        advantage_taken(old(store).mode(), old(store).columns(), final(store).columns(), result),
{
    let trade_price = match store_metric(&*store, "trade_price") {
        Ok(metric) => metric,
        Err(error) => return Err(error),
    };
    if trade_price.is_empty() {
        store.assign_snapshot("pa", MetricSnapshot::empty());
        return Ok(());
    }
    let trade_dir = match store_metric(&*store, "trade_dir") {
        Ok(metric) => metric,
        Err(error) => return Err(error),
    };
    let base_price = match store_metric(&*store, "base_price") {
        Ok(metric) => metric,
        Err(error) => return Err(error),
    };
    let gain = match calculate_price_advantage(store.aggregation_mode(), &trade_dir, &trade_price, &base_price) {
        Ok(gain) => gain,
        Err(error) => return Err(error),
    };
    let ghost before = store.columns();
    let ghost mode = store.mode();
    let ghost gained = gain@;
    proof {
        assert(is_advantage(gained, mode, trade_dir@, trade_price@, base_price@));
    }
    store.assign_snapshot("pa", gain);
    proof {
        assert(is_advantage(
            gained,
            mode,
            value_of(before, "trade_dir"@)->Some_0,
            value_of(before, "trade_price"@)->Some_0,
            value_of(before, "base_price"@)->Some_0,
        ));
        assert(store.columns() == with_entry(before, "pa"@, gained));
    }
    Ok(())
}

/// The values of a metric.
pub open spec fn values_of<V>(entries: Entries<V>) -> Seq<V> {
    entries.map_values(|entry: (Seq<char>, V)| entry.1)
}

/// The number of values above zero.
pub open spec fn positive_count<V: Number>(values: Seq<V>) -> nat {
    values.filter(|value: V| V::zero_spec().below_spec(value)).len()
}

/// The trade summary of five metrics.
pub open spec fn summary<V: Number>(
    config: IndicatorConfig,
    ffr: Entries<V>,
    pa: Entries<V>,
    deal: Entries<V>,
    value: Entries<V>,
    amount: Entries<V>,
) -> Entries<V> {
    seq![
        ("ffr"@, averaged(ffr, config.fulfill_rate, deal, value)),
        ("pa"@, averaged(pa, config.price_advantage, deal, value)),
        (
            "pos"@,
            V::count_spec(positive_count(values_of(pa))).over_spec(V::count_spec(present_count(values_of(pa)))),
        ),
        ("deal_amount"@, sum_of(absolutes(crate::number::present(values_of(deal))))),
        ("value"@, sum_of(absolutes(crate::number::present(values_of(value))))),
        ("count"@, V::count_spec(present_count(values_of(amount)))),
    ]
}

/// The first of the needed metrics that a store lacks.
pub open spec fn first_missing<V>(columns: Columns<V>) -> Option<Seq<char>> {
    if value_of(columns, "ffr"@) is None {
        Some("ffr"@)
    } else if value_of(columns, "pa"@) is None {
        Some("pa"@)
    } else if value_of(columns, "deal_amount"@) is None {
        Some("deal_amount"@)
    } else if value_of(columns, "trade_value"@) is None {
        Some("trade_value"@)
    } else if value_of(columns, "amount"@) is None {
        Some("amount"@)
    } else {
        None
    }
}

fn count_positive<V: Number>(values: &[V]) -> (result: usize)
    ensures
        result == positive_count(values@),
{
    let mut count: usize = 0;
    let mut i: usize = 0;
    proof {
        reveal(Seq::filter);
    }
    while i < values.len()
        invariant
            i <= values@.len(),
            count == positive_count(values@.take(i as int)),
            count <= i,
        decreases values@.len() - i,
    {
        proof {
            reveal(Seq::filter);
            assert(values@.take(i + 1).drop_last() =~= values@.take(i as int));
        }
        if V::zero().below(values[i]) {
            count += 1;
        }
        i += 1;
    }
    assert(values@.take(i as int) =~= values@);
    count
}

/// What the trade summary of a store makes of a row. A failure leaves the row as it was.
pub open spec fn row_summarized<V: Number>(
    c: Columns<V>,
    config: IndicatorConfig,
    before: Seq<(Seq<char>, V)>,
    after: Seq<(Seq<char>, V)>,
    result: Result<(), IndicatorError>,
) -> bool {
    let ffr = value_of(c, "ffr"@)->Some_0;
    let pa = value_of(c, "pa"@)->Some_0;
    let deal = value_of(c, "deal_amount"@)->Some_0;
    let value = value_of(c, "trade_value"@)->Some_0;
    let amount = value_of(c, "amount"@)->Some_0;
    let bad_ffr = mismatched_weights(ffr, config.fulfill_rate, deal, value);
    let bad_pa = mismatched_weights(pa, config.price_advantage, deal, value);
    match result {
        Ok(_) => {
            &&& first_missing(c) is None
            &&& bad_ffr is None
            &&& bad_pa is None
            &&& after == with_entries(before, summary(config, ffr, pa, deal, value, amount))
        },
        Err(IndicatorError::MissingMetric(name)) => after == before && first_missing(c) == Some(name@),
        Err(IndicatorError::IndexMismatch { metric, weight }) => {
            &&& after == before
            &&& first_missing(c) is None
            &&& if bad_ffr is Some {
                metric@ == "ffr"@ && bad_ffr == Some(weight@)
            } else {
                metric@ == "pa"@ && bad_pa == Some(weight@)
            }
        },
        Err(_) => false,
    }
}

/// Writes the trade summary of a store into a row.
///
/// All metrics are read first, in the order of [`first_missing`]; then the two rates are
/// averaged, fill rate first. A failure leaves the row as it was.
pub fn calculate_trade_indicators<V: Number, S: IndicatorStoreAccess<V>>(
    store: &S,
    row: &mut OrderedMap<V>,
    config: IndicatorConfig,
) -> (result: Result<(), IndicatorError>)
    ensures
        row_summarized(store.columns(), config, old(row)@, final(row)@, result),
{
    let ffr = match store_metric(store, "ffr") {
        Ok(metric) => metric,
        Err(error) => return Err(error),
    };
    let pa = match store_metric(store, "pa") {
        Ok(metric) => metric,
        Err(error) => return Err(error),
    };
    let deal_amount = match store_metric(store, "deal_amount") {
        Ok(metric) => metric,
        Err(error) => return Err(error),
    };
    let trade_value = match store_metric(store, "trade_value") {
        Ok(metric) => metric,
        Err(error) => return Err(error),
    };
    let amount = match store_metric(store, "amount") {
        Ok(metric) => metric,
        Err(error) => return Err(error),
    };
    let fulfill_rate = match aggregate_weighted("ffr", &ffr, config.fulfill_rate, &deal_amount, &trade_value) {
        Ok(value) => value,
        Err(error) => return Err(error),
    };
    let price_advantage = match aggregate_weighted("pa", &pa, config.price_advantage, &deal_amount, &trade_value) {
        Ok(value) => value,
        Err(error) => return Err(error),
    };
    let positive_rate = V::count(count_positive(pa.values())).over(V::count(non_nan_count(pa.values())));
    let deals = sum_abs(deal_amount.values());
    let values = sum_abs(trade_value.values());
    let count = V::count(non_nan_count(amount.values()));
    let ghost added = summary(config, ffr@, pa@, deal_amount@, trade_value@, amount@);
    row.insert("ffr".to_owned(), fulfill_rate);
    row.insert("pa".to_owned(), price_advantage);
    row.insert("pos".to_owned(), positive_rate);
    row.insert("deal_amount".to_owned(), deals);
    row.insert("value".to_owned(), values);
    row.insert("count".to_owned(), count);
    proof {
        let start = old(row)@;
        let none = Seq::<(Seq<char>, V)>::empty();
        let one = none.push(("ffr"@, fulfill_rate));
        let two = one.push(("pa"@, price_advantage));
        let three = two.push(("pos"@, positive_rate));
        let four = three.push(("deal_amount"@, deals));
        let five = four.push(("value"@, values));
        with_entries_push(start, none, "ffr"@, fulfill_rate);
        with_entries_push(start, one, "pa"@, price_advantage);
        with_entries_push(start, two, "pos"@, positive_rate);
        with_entries_push(start, three, "deal_amount"@, deals);
        with_entries_push(start, four, "value"@, values);
        with_entries_push(start, five, "count"@, count);
        assert(five.push(("count"@, count)) =~= added);
    }
    Ok(())
}

/// Reads two method names, fill rate first.
pub fn parse_indicator_config(fulfill_rate: &str, price_advantage: &str) -> (result: Result<
    IndicatorConfig,
    IndicatorError,
>)
    ensures
        match result {
            Ok(config) => weight_method(fulfill_rate@) == Some(config.fulfill_rate) && weight_method(price_advantage@)
                == Some(config.price_advantage),
            Err(IndicatorError::UnsupportedWeightMethod(name)) => if weight_method(fulfill_rate@) is None {
                name@ == fulfill_rate@
            } else {
                weight_method(price_advantage@) is None && name@ == price_advantage@
            },
            Err(_) => false,
        },
{
    let fulfill_rate = match parse_weight_method(fulfill_rate) {
        Ok(method) => method,
        Err(error) => return Err(error),
    };
    let price_advantage = match parse_weight_method(price_advantage) {
        Ok(method) => method,
        Err(error) => return Err(error),
    };
    Ok(IndicatorConfig { fulfill_rate, price_advantage })
}


/// Where a time stands among recorded times.
pub open spec fn find_time(history: Seq<(Timestamp, usize)>, time: Timestamp) -> Option<int>
    decreases history.len(),
{
    if history.len() == 0 {
        None
    } else {
        match find_time(history.drop_last(), time) {
            Some(position) => Some(position),
            None => if history.last().0 == time {
                Some(history.len() - 1)
            } else {
                None
            },
        }
    }
}

/// The history after an object is recorded: a known time keeps its place and takes the new
/// object, an unknown time comes last.
pub open spec fn recorded(history: Seq<(Timestamp, usize)>, time: Timestamp, object: usize) -> Seq<(Timestamp, usize)> {
    match find_time(history, time) {
        Some(position) => history.update(position, (time, object)),
        None => history.push((time, object)),
    }
}

/// What is recorded at a time.
pub open spec fn recorded_at(history: Seq<(Timestamp, usize)>, time: Timestamp) -> Option<usize> {
    match find_time(history, time) {
        Some(position) => Some(history[position].1),
        None => None,
    }
}

proof fn find_time_finds(history: Seq<(Timestamp, usize)>, time: Timestamp)
    ensures
        match find_time(history, time) {
            Some(position) => 0 <= position < history.len() && history[position].0 == time && forall|i: int|
                0 <= i < position ==> history[i].0 != time,
            None => forall|i: int| 0 <= i < history.len() ==> history[i].0 != time,
        },
    decreases history.len(),
{
    if history.len() > 0 {
        find_time_finds(history.drop_last(), time);
        assert forall|i: int| 0 <= i < history.len() - 1 implies history[i] == history.drop_last()[i] by {}
    }
}

/// A recorded time holds the object that was recorded last, and every other time what it held.
pub proof fn record_is_read_back(history: Seq<(Timestamp, usize)>, time: Timestamp, object: usize, other: Timestamp)
    ensures
        recorded_at(recorded(history, time, object), other) == if other == time {
            Some(object)
        } else {
            recorded_at(history, other)
        },
{
    let after = recorded(history, time, object);
    find_time_finds(history, time);
    find_time_finds(history, other);
    find_time_finds(after, other);
    match find_time(after, other) {
        Some(position) => {
            if other != time {
                if position < history.len() {
                    assert(after[position].0 == history[position].0);
                }
                match find_time(history, other) {
                    Some(place) => {
                        assert(after[place].0 == other);
                        if place < position {
                            assert(after[place].0 != other);
                        }
                        if position < place {
                            assert(history[position].0 != other);
                        }
                    },
                    None => {
                        assert(history[position].0 == other);
                    },
                }
            } else {
                match find_time(history, time) {
                    Some(place) => {
                        if position < place {
                            assert(after[position].0 == history[position].0);
                        }
                        assert(after[place].0 == time);
                    },
                    None => {
                        if position < history.len() {
                            assert(after[position].0 == history[position].0);
                        }
                    },
                }
            }
        },
        None => {
            match find_time(history, other) {
                Some(place) => {
                    assert(after[place].0 == other);
                },
                None => {
                    if other == time {
                        assert(after[history.len() as int].0 == time);
                    }
                },
            }
        },
    }
}

fn record_into(history: &mut Vec<(Timestamp, usize)>, time: Timestamp, object: usize)
    ensures
        final(history)@ == recorded(old(history)@, time, object),
{
    proof {
        find_time_finds(history@, time);
    }
    let mut i: usize = 0;
    while i < history.len()
        invariant
            i <= history@.len(),
            history@ == old(history)@,
            forall|j: int| 0 <= j < i ==> (#[trigger] history@[j]).0 != time,
            match find_time(history@, time) {
                Some(position) => 0 <= position < history@.len() && history@[position].0 == time && forall|k: int|
                    0 <= k < position ==> history@[k].0 != time,
                None => forall|k: int| 0 <= k < history@.len() ==> history@[k].0 != time,
            },
        decreases history@.len() - i,
    {
        if history[i].0.seconds == time.seconds && history[i].0.nanos == time.nanos {
            assert(history@[i as int].0 == time);
            assert(find_time(history@, time) == Some(i as int));
            history.set(i, (time, object));
            return;
        }
        i += 1;
    }
    assert(find_time(history@, time) is None);
    history.push((time, object));
}

/// The stores and summary rows that indicators refer to by position. A position that is shared
/// by the current state and by recorded history stands for one and the same object.
pub struct IndicatorPool<V, S> {
    pub stores: Vec<S>,
    pub rows: Vec<OrderedMap<V>>,
}

/// The indicator of one execution level.
pub struct Indicator {
    order_indicator: usize,
    trade_indicator: usize,
    order_indicator_history: Vec<(Timestamp, usize)>,
    trade_indicator_history: Vec<(Timestamp, usize)>,
}

impl Indicator {
    /// The position of the current store.
    pub closed spec fn order(&self) -> usize {
        self.order_indicator
    }

    /// The position of the current summary row.
    pub closed spec fn trade(&self) -> usize {
        self.trade_indicator
    }

    /// The recorded stores.
    pub closed spec fn order_history(&self) -> Seq<(Timestamp, usize)> {
        self.order_indicator_history@
    }

    /// The recorded summary rows.
    pub closed spec fn trade_history(&self) -> Seq<(Timestamp, usize)> {
        self.trade_indicator_history@
    }

    /// An indicator over a new, empty store and a new, empty summary row.
    pub fn new<V: Number, S: IndicatorStore<V>>(pool: &mut IndicatorPool<V, S>) -> (result: Self)
        ensures
            final(pool).stores@.len() == old(pool).stores@.len() + 1,
            final(pool).stores@.drop_last() == old(pool).stores@,
            final(pool).stores@.last().columns().len() == 0,
            final(pool).rows@.len() == old(pool).rows@.len() + 1,
            final(pool).rows@.drop_last() == old(pool).rows@,
            final(pool).rows@.last()@.len() == 0,
            result.order() == old(pool).stores@.len(),
            result.trade() == old(pool).rows@.len(),
            result.order_history().len() == 0,
            result.trade_history().len() == 0,
    {
        Indicator::with_store(pool, S::fresh())
    }

    /// An indicator over the given store and a new, empty summary row.
    pub fn with_store<V: Number, S: IndicatorStoreAccess<V>>(pool: &mut IndicatorPool<V, S>, store: S) -> (result: Self)
        ensures
            final(pool).stores@ == old(pool).stores@.push(store),
            final(pool).stores@.drop_last() == old(pool).stores@,
            final(pool).rows@.len() == old(pool).rows@.len() + 1,
            final(pool).rows@.drop_last() == old(pool).rows@,
            final(pool).rows@.last()@.len() == 0,
            result.order() == old(pool).stores@.len(),
            result.trade() == old(pool).rows@.len(),
            result.order_history().len() == 0,
            result.trade_history().len() == 0,
    {
        let order_indicator: usize = pool.stores.len();
        let trade_indicator: usize = pool.rows.len();
        pool.stores.push(store);
        pool.rows.push(OrderedMap::new());
        proof {
            assert(pool.stores@.drop_last() =~= old(pool).stores@);
            assert(pool.rows@.drop_last() =~= old(pool).rows@);
        }
        Indicator {
            order_indicator,
            trade_indicator,
            order_indicator_history: Vec::new(),
            trade_indicator_history: Vec::new(),
        }
    }

    /// Starts a new store and a new summary row; what was recorded stays recorded.
    pub fn reset<V: Number, S: IndicatorStore<V>>(&mut self, pool: &mut IndicatorPool<V, S>)
        ensures
            final(pool).stores@.len() == old(pool).stores@.len() + 1,
            final(pool).stores@.drop_last() == old(pool).stores@,
            final(pool).stores@.last().columns().len() == 0,
            final(pool).rows@.len() == old(pool).rows@.len() + 1,
            final(pool).rows@.drop_last() == old(pool).rows@,
            final(pool).rows@.last()@.len() == 0,
            final(self).order() == old(pool).stores@.len(),
            final(self).trade() == old(pool).rows@.len(),
            final(self).order_history() == old(self).order_history(),
            final(self).trade_history() == old(self).trade_history(),
    {
        let fresh = Indicator::new(pool);
        self.order_indicator = fresh.order_indicator;
        self.trade_indicator = fresh.trade_indicator;
    }

    /// Records the current store and summary row. They stay current: later changes to them are
    /// seen through the record until the next reset.
    pub fn record(&mut self, trade_start_time: Timestamp)
        ensures
            final(self).order() == old(self).order(),
            final(self).trade() == old(self).trade(),
            final(self).order_history() == recorded(old(self).order_history(), trade_start_time, old(self).order()),
            final(self).trade_history() == recorded(old(self).trade_history(), trade_start_time, old(self).trade()),
    {
        record_into(&mut self.order_indicator_history, trade_start_time, self.order_indicator);
        record_into(&mut self.trade_indicator_history, trade_start_time, self.trade_indicator);
    }

    pub fn order_indicator(&self) -> (result: usize)
        ensures
            result == self.order(),
    {
        self.order_indicator
    }

    pub fn trade_indicator(&self) -> (result: usize)
        ensures
            result == self.trade(),
    {
        self.trade_indicator
    }

    pub fn order_indicator_history(&self) -> (result: &[(Timestamp, usize)])
        ensures
            result@ == self.order_history(),
    {
        self.order_indicator_history.as_slice()
    }

    pub fn trade_indicator_history(&self) -> (result: &[(Timestamp, usize)])
        ensures
            result@ == self.trade_history(),
    {
        self.trade_indicator_history.as_slice()
    }
}

/// Whether every metric of a store was taken, in order.
pub open spec fn snapshot_taken<V>(columns: Columns<V>, metrics: Seq<(String, MetricSnapshot<V>)>) -> bool {
    &&& metrics.len() == columns.len()
    &&& forall|i: int| 0 <= i < metrics.len() ==> (#[trigger] metrics[i]).0@ == columns[i].0
    &&& forall|i: int| 0 <= i < metrics.len() ==> value_of(columns, columns[i].0) == Some((#[trigger] metrics[i]).1@)
}

/// Every metric of a store, in column order.
pub fn order_snapshot<V: Number, S: IndicatorStoreAccess<V>>(store: &S) -> (result: Result<
    Vec<(String, MetricSnapshot<V>)>,
    IndicatorError,
>)
    ensures
        result matches Ok(metrics) && snapshot_taken(store.columns(), metrics@),
{
    let names = store.metric_names();
    let mut metrics: Vec<(String, MetricSnapshot<V>)> = Vec::new();
    let mut i: usize = 0;
    proof {
        assert(crate::metric_snapshot::texts(names@).len() == names_of(store.columns()).len());
    }
    while i < names.len()
        invariant
            i <= names@.len(),
            crate::metric_snapshot::texts(names@) == names_of(store.columns()),
            names@.len() == store.columns().len(),
            metrics@.len() == i,
            forall|j: int| 0 <= j < i ==> (#[trigger] metrics@[j]).0@ == store.columns()[j].0,
            forall|j: int|
                0 <= j < i ==> value_of(store.columns(), store.columns()[j].0) == Some((#[trigger] metrics@[j]).1@),
        decreases names@.len() - i,
    {
        proof {
            assert(crate::metric_snapshot::texts(names@)[i as int] == names_of(store.columns())[i as int]);
            crate::ordered::find_name_finds(store.columns(), store.columns()[i as int].0);
        }
        match store_metric(store, names[i].as_str()) {
            Ok(metric) => {
                metrics.push((names[i].clone(), metric));
            },
            Err(error) => {
                return Err(error);
            },
        }
        i += 1;
    }
    Ok(metrics)
}

/// A metric of a store under a stock.
pub open spec fn column_at<V: Number>(columns: Columns<V>, metric: Seq<char>, stock: Seq<char>) -> V {
    at_label(metric_or_empty(columns, metric), stock)
}

proof fn metrics_are_told_apart()
    ensures
        "amount"@.len() == 6,
        "inner_amount"@.len() == 12,
        "deal_amount"@.len() == 11 && "deal_amount"@[0] == 'd',
        "trade_price"@.len() == 11 && "trade_price"@[0] == 't' && "trade_price"@[6] == 'p',
        "trade_value"@.len() == 11 && "trade_value"@[0] == 't' && "trade_value"@[6] == 'v',
        "trade_cost"@.len() == 10 && "trade_cost"@[0] == 't',
        "trade_dir"@.len() == 9,
        "base_price"@.len() == 10 && "base_price"@[0] == 'b',
        "pa"@.len() == 2,
        "ffr"@.len() == 3 && "ffr"@[0] == 'f',
        "pos"@.len() == 3 && "pos"@[0] == 'p',
        "value"@.len() == 5 && "value"@[0] == 'v',
        "count"@.len() == 5 && "count"@[0] == 'c',
{
    reveal_strlit("amount");
    reveal_strlit("inner_amount");
    reveal_strlit("deal_amount");
    reveal_strlit("trade_price");
    reveal_strlit("trade_value");
    reveal_strlit("trade_cost");
    reveal_strlit("trade_dir");
    reveal_strlit("base_price");
    reveal_strlit("pa");
    reveal_strlit("ffr");
    reveal_strlit("pos");
    reveal_strlit("value");
    reveal_strlit("count");
}

/// What a metric of labelled rows holds under a name is the metric of the row under it.
proof fn rows_hold_their_metrics<V: Number>(
    rows: Seq<(Seq<char>, AtomicIndicatorRow<V>)>,
    field: AtomicField,
    stock: Seq<char>,
)
    requires
        value_of(rows, stock) is Some,
    ensures
        at_label(row_metric(rows, field), stock) == row_value(value_of(rows, stock)->Some_0, field),
{
    crate::ordered::find_name_finds(rows, stock);
    crate::ordered::same_names_same_place(rows, row_metric(rows, field), stock);
}

/// What an executed order leaves in a store: its amounts, price, cost and direction as they are, the
/// traded value with the sign of the order, no price advantage yet, and a fill rate which, times the
/// amount, is what was dealt. Of several orders of a stock the last one counts.
pub proof fn executions_are_read_back<S: IndicatorStoreAccess<Ticks>>(
    store: &mut S,
    executions: &[OrderExecution<Ticks>],
    place: int,
    other: Seq<char>,
)
    requires
        call_ensures(update_order_indicators::<Ticks, S>, (store, executions), ()),
        0 <= place < executions@.len(),
        forall|later: int|
            place < later < executions@.len() ==> (#[trigger] executions@[later]).stock_id@ != executions@[place].stock_id@,
    ensures
        ({
            let after = final(store).columns();
            let execution = executions@[place];
            let stock = execution.stock_id@;
            let rate = column_at(after, "ffr"@, stock);
            let value = column_at(after, "trade_value"@, stock);
            &&& column_at(after, "amount"@, stock) == execution.amount_delta
            &&& column_at(after, "inner_amount"@, stock) == execution.amount_delta
            &&& column_at(after, "deal_amount"@, stock) == execution.deal_amount_delta
            &&& column_at(after, "trade_price"@, stock) == execution.trade_price
            &&& column_at(after, "trade_cost"@, stock) == execution.trade_cost
            &&& column_at(after, "trade_dir"@, stock) == execution.direction
            &&& column_at(after, "pa"@, stock) == Ticks(Some(0))
            &&& execution.sign == Ticks(Some(1)) ==> value == execution.trade_value
            &&& execution.sign == ticks(-1) && value.0 is Some ==> execution.trade_value.0 is Some && held(value)
                + held(execution.trade_value) == 0
            &&& rate.0 is Some ==> held(rate) * held(execution.amount_delta) == if execution.deal_amount_delta.0 is Some {
                held(execution.deal_amount_delta)
            } else {
                0
            }
        }),
        other != "amount"@ && other != "inner_amount"@ && other != "deal_amount"@ && other != "trade_price"@ && other
            != "trade_value"@ && other != "trade_cost"@ && other != "trade_dir"@ && other != "pa"@ && other != "ffr"@
            ==> value_of(final(store).columns(), other) == value_of(old(store).columns(), other),
{
    let execution = executions@[place];
    let stock = execution.stock_id@;
    let added = execution_rows(executions@);
    let rows = with_entries(Seq::empty(), added);
    assert(added[place] == (stock, atomic_row(execution)));
    assert forall|later: int| place < later < added.len() implies (#[trigger] added[later]).0 != stock by {
        assert(executions@[later].stock_id@ != stock);
    }
    crate::ordered::last_entries_are_read_back(Seq::empty(), added, stock);
    assert(value_of(rows, stock) == Some(atomic_row(execution)));
    rows_hold_their_metrics(rows, AtomicField::Amount, stock);
    rows_hold_their_metrics(rows, AtomicField::DealAmount, stock);
    rows_hold_their_metrics(rows, AtomicField::TradePrice, stock);
    rows_hold_their_metrics(rows, AtomicField::TradeValue, stock);
    rows_hold_their_metrics(rows, AtomicField::TradeCost, stock);
    rows_hold_their_metrics(rows, AtomicField::TradeDir, stock);
    rows_hold_their_metrics(rows, AtomicField::Nothing, stock);
    let amount = row_metric(rows, AtomicField::Amount);
    let deal = row_metric(rows, AtomicField::DealAmount);
    rates_belong_to_their_amounts(amount, deal, stock);
    assert(value_of(amount, stock) is Some) by {
        crate::ordered::find_name_finds(rows, stock);
        crate::ordered::same_names_same_place(rows, amount, stock);
    }
    let rate = fill_rate(at_label(deal, stock), at_label(amount, stock));
    if rate.0 is Some {
        quotients_undo(
            if at_label(deal, stock).0 is None {
                Ticks(Some(0))
            } else {
                at_label(deal, stock)
            },
            at_label(amount, stock),
        );
    }
    metrics_are_told_apart();
    let c0 = old(store).columns();
    let c1 = with_entry(c0, "amount"@, amount);
    let c2 = with_entry(c1, "inner_amount"@, amount);
    let c3 = with_entry(c2, "deal_amount"@, deal);
    let c4 = with_entry(c3, "trade_price"@, row_metric(rows, AtomicField::TradePrice));
    let c5 = with_entry(c4, "trade_value"@, row_metric(rows, AtomicField::TradeValue));
    let c6 = with_entry(c5, "trade_cost"@, row_metric(rows, AtomicField::TradeCost));
    let c7 = with_entry(c6, "trade_dir"@, row_metric(rows, AtomicField::TradeDir));
    let c8 = with_entry(c7, "pa"@, row_metric(rows, AtomicField::Nothing));
    assert forall|name: Seq<char>| true implies #[trigger] value_of(final(store).columns(), name) == if name == "ffr"@ {
        Some(fill_rates(amount, deal))
    } else if name == "pa"@ {
        Some(row_metric(rows, AtomicField::Nothing))
    } else if name == "trade_dir"@ {
        Some(row_metric(rows, AtomicField::TradeDir))
    } else if name == "trade_cost"@ {
        Some(row_metric(rows, AtomicField::TradeCost))
    } else if name == "trade_value"@ {
        Some(row_metric(rows, AtomicField::TradeValue))
    } else if name == "trade_price"@ {
        Some(row_metric(rows, AtomicField::TradePrice))
    } else if name == "deal_amount"@ {
        Some(deal)
    } else if name == "inner_amount"@ || name == "amount"@ {
        Some(amount)
    } else {
        value_of(c0, name)
    } by {
        writes_are_read(c0, "amount"@, amount, name);
        writes_are_read(c1, "inner_amount"@, amount, name);
        writes_are_read(c2, "deal_amount"@, deal, name);
        writes_are_read(c3, "trade_price"@, row_metric(rows, AtomicField::TradePrice), name);
        writes_are_read(c4, "trade_value"@, row_metric(rows, AtomicField::TradeValue), name);
        writes_are_read(c5, "trade_cost"@, row_metric(rows, AtomicField::TradeCost), name);
        writes_are_read(c6, "trade_dir"@, row_metric(rows, AtomicField::TradeDir), name);
        writes_are_read(c7, "pa"@, row_metric(rows, AtomicField::Nothing), name);
        writes_are_read(c8, "ffr"@, fill_rates(amount, deal), name);
    }
    if execution.trade_value.0 is Some {
        let v = held(execution.trade_value);
        assert(v * 1 == v && v * -1 == -v);
    }
}

/// A column that is written is read back, and the others are as they were.
proof fn writes_are_read<V>(columns: Columns<V>, name: Seq<char>, metric: Entries<V>, other: Seq<char>)
    ensures
        value_of(with_entry(columns, name, metric), other) == if other == name {
            Some(metric)
        } else {
            value_of(columns, other)
        },
{
    if other == name {
        crate::ordered::read_after_write(columns, name, metric);
    } else {
        crate::ordered::write_keeps_others(columns, name, metric, other);
    }
}

/// The rate under a label is that of the amount and the deal under it.
proof fn rates_belong_to_their_amounts<V: Number>(amount: Entries<V>, deal: Entries<V>, stock: Seq<char>)
    ensures
        value_of(amount, stock) is Some ==> at_label(fill_rates(amount, deal), stock) == fill_rate(
            at_label(deal, stock),
            at_label(amount, stock),
        ),
        value_of(amount, stock) is None ==> value_of(fill_rates(amount, deal), stock) is None,
{
    crate::ordered::find_name_finds(amount, stock);
    crate::ordered::same_names_same_place(amount, fill_rates(amount, deal), stock);
}

/// Of several amounts of a stock the last one is its target, and no stock has a target that none of the
/// orders is for.
pub proof fn last_orders_set_the_target<V: Number>(orders: &[(String, V)], result: MetricSnapshot<V>, stock: Seq<char>)
    requires
        call_ensures(trade_amount_snapshot::<V>, (orders,), result),
    ensures
        forall|place: int|
            0 <= place < orders@.len() && (#[trigger] orders@[place]).0@ == stock && (forall|later: int|
                place < later < orders@.len() ==> (#[trigger] orders@[later]).0@ != stock) ==> value_of(result@, stock)
                == Some(orders@[place].1),
        (forall|place: int| 0 <= place < orders@.len() ==> (#[trigger] orders@[place]).0@ != stock) ==> value_of(
            result@,
            stock,
        ) is None,
{
    let added = order_amounts(orders@);
    crate::ordered::last_entries_are_read_back(Seq::empty(), added, stock);
    assert forall|place: int|
        0 <= place < orders@.len() && (#[trigger] orders@[place]).0@ == stock && (forall|later: int|
            place < later < orders@.len() ==> (#[trigger] orders@[later]).0@ != stock) implies value_of(result@, stock)
        == Some(orders@[place].1) by {
        assert(added[place].0 == stock);
        assert forall|later: int| place < later < added.len() implies (#[trigger] added[later]).0 != stock by {
            assert(orders@[later].0@ != stock);
        }
    }
    if forall|place: int| 0 <= place < orders@.len() ==> (#[trigger] orders@[place]).0@ != stock {
        assert forall|place: int| 0 <= place < added.len() implies (#[trigger] added[place]).0 != stock by {
            assert(orders@[place].0@ != stock);
        }
    }
}

/// New targets take the place of the old ones, the fill rates are those of the new targets, and nothing
/// else of the store changes.
pub proof fn new_targets_are_filled<S: IndicatorStoreAccess<Ticks>>(
    store: &mut S,
    amount: MetricSnapshot<Ticks>,
    stock: Seq<char>,
    other: Seq<char>,
)
    requires
        call_ensures(assign_outer_target_and_fill::<Ticks, S>, (store, amount), ()),
    ensures
        value_of(final(store).columns(), "amount"@) == Some(amount@),
        ({
            let rate = column_at(final(store).columns(), "ffr"@, stock);
            let deal = column_at(old(store).columns(), "deal_amount"@, stock);
            &&& rate.0 is Some ==> held(rate) * held(at_label(amount@, stock)) == if deal.0 is Some {
                held(deal)
            } else {
                0
            }
            &&& value_of(amount@, stock) is None ==> rate.0 is None
            &&& value_of(amount@, stock) is Some && held(at_label(amount@, stock)) > 0 && at_label(amount@, stock).0 is Some
                && deal.0 is None ==> rate == Ticks(Some(0))
        }),
        other != "amount"@ && other != "ffr"@ ==> value_of(final(store).columns(), other) == value_of(
            old(store).columns(),
            other,
        ),
{
    metrics_are_told_apart();
    let before = old(store).columns();
    let targeted = with_entry(before, "amount"@, amount@);
    let deals = metric_or_empty(before, "deal_amount"@);
    writes_are_read(before, "amount"@, amount@, "deal_amount"@);
    writes_are_read(before, "amount"@, amount@, "amount"@);
    writes_are_read(before, "amount"@, amount@, other);
    let rates = fill_rates(amount@, deals);
    writes_are_read(targeted, "ffr"@, rates, "amount"@);
    writes_are_read(targeted, "ffr"@, rates, "ffr"@);
    writes_are_read(targeted, "ffr"@, rates, other);
    rates_belong_to_their_amounts(amount@, deals, stock);
    let rate = at_label(rates, stock);
    let deal = at_label(deals, stock);
    let counted = if deal.0 is None {
        Ticks(Some(0))
    } else {
        deal
    };
    if rate.0 is Some {
        quotients_undo(counted, at_label(amount@, stock));
    }
    if value_of(amount@, stock) is Some && at_label(amount@, stock).0 is Some && held(at_label(amount@, stock)) > 0
        && deal.0 is None {
        vstd::arithmetic::div_mod::lemma_fundamental_div_mod_converse(0, held(at_label(amount@, stock)), 0, 0);
    }
}

/// A summary row tells how often a price advantage was positive, how much was dealt and traded without
/// regard to the side, and how many amounts there were.
pub proof fn summaries_count_what_was_traded<S: IndicatorStoreAccess<Ticks>>(
    store: S,
    row: &mut OrderedMap<Ticks>,
    config: IndicatorConfig,
    result: Result<(), IndicatorError>,
)
    requires
        call_ensures(calculate_trade_indicators::<Ticks, S>, (&store, row, config), result),
        result is Ok,
    ensures
        ({
            let after = final(row)@;
            let gains = values_of(metric_or_empty(store.columns(), "pa"@));
            let deals = values_of(metric_or_empty(store.columns(), "deal_amount"@));
            let traded = values_of(metric_or_empty(store.columns(), "trade_value"@));
            let amounts = values_of(metric_or_empty(store.columns(), "amount"@));
            let positive = at_label(after, "pos"@);
            let count = at_label(after, "count"@);
            let deal = at_label(after, "deal_amount"@);
            let value = at_label(after, "value"@);
            &&& positive.0 is Some ==> held(positive) * gains.filter(|gain: Ticks| gain.0 is Some).len() == gains.filter(
                |gain: Ticks| gain.0 is Some && gain.0->Some_0 > 0,
            ).len()
            &&& count.0 is Some ==> held(count) == amounts.filter(|amount: Ticks| amount.0 is Some).len()
            &&& deal.0 is Some ==> held(deal) == sizes_of(deals)
            &&& value.0 is Some ==> held(value) == sizes_of(traded)
        }),
{
    metrics_are_told_apart();
    let c = store.columns();
    let gains = values_of(metric_or_empty(c, "pa"@));
    let deals = values_of(metric_or_empty(c, "deal_amount"@));
    let traded = values_of(metric_or_empty(c, "trade_value"@));
    let amounts = values_of(metric_or_empty(c, "amount"@));
    let added = summary(
        config,
        metric_or_empty(c, "ffr"@),
        metric_or_empty(c, "pa"@),
        metric_or_empty(c, "deal_amount"@),
        metric_or_empty(c, "trade_value"@),
        metric_or_empty(c, "amount"@),
    );
    assert(final(row)@ == with_entries(old(row)@, added));
    crate::ordered::last_entries_are_read_back(old(row)@, added, "pos"@);
    crate::ordered::last_entries_are_read_back(old(row)@, added, "deal_amount"@);
    crate::ordered::last_entries_are_read_back(old(row)@, added, "value"@);
    crate::ordered::last_entries_are_read_back(old(row)@, added, "count"@);
    assert(added.len() == 6 && added[2].0 == "pos"@ && added[3].0 == "deal_amount"@ && added[4].0 == "value"@ && added[5].0
        == "count"@);
    assert(at_label(final(row)@, "pos"@) == added[2].1);
    assert(at_label(final(row)@, "deal_amount"@) == added[3].1);
    assert(at_label(final(row)@, "value"@) == added[4].1);
    assert(at_label(final(row)@, "count"@) == added[5].1);
    present_quantities_are_held(gains);
    present_quantities_are_held(amounts);
    positive_quantities_are_held(gains);
    if added[2].1.0 is Some {
        quotients_undo(Ticks::count_spec(positive_count(gains)), Ticks::count_spec(present_count(gains)));
    }
    if added[3].1.0 is Some {
        sizes_add_up(deals);
    }
    if added[4].1.0 is Some {
        sizes_add_up(traded);
    }
}

/// What quantities come to without their signs; what is missing is left out.
pub open spec fn sizes_of(values: Seq<Ticks>) -> int
    decreases values.len(),
{
    if values.len() == 0 {
        0
    } else {
        sizes_of(values.drop_last()) + if values.last().0 is None {
            0
        } else if held(values.last()) < 0 {
            -held(values.last())
        } else {
            held(values.last())
        }
    }
}

proof fn present_quantities_are_held(values: Seq<Ticks>)
    ensures
        present_count(values) == values.filter(|value: Ticks| value.0 is Some).len(),
    decreases values.len(),
{
    reveal(Seq::filter);
    if values.len() > 0 {
        present_quantities_are_held(values.drop_last());
    }
}

proof fn positive_quantities_are_held(values: Seq<Ticks>)
    ensures
        positive_count(values) == values.filter(|value: Ticks| value.0 is Some && value.0->Some_0 > 0).len(),
    decreases values.len(),
{
    reveal(Seq::filter);
    if values.len() > 0 {
        positive_quantities_are_held(values.drop_last());
    }
}

proof fn sizes_add_up(values: Seq<Ticks>)
    requires
        sum_of(absolutes(crate::number::present(values))).0 is Some,
    ensures
        held(sum_of(absolutes(crate::number::present(values)))) == sizes_of(values),
    decreases values.len(),
{
    if values.len() > 0 {
        let fewer = values.drop_last();
        let last = values.last();
        assert(fewer.push(last) =~= values);
        crate::number::present_push(fewer, last);
        if last.0 is Some {
            let before = crate::number::present(fewer);
            assert(absolutes(before.push(last)) =~= absolutes(before).push(last.absolute_spec()));
            crate::number::sum_push(absolutes(before), last.absolute_spec());
        }
        sizes_add_up(fewer);
    } else {
        reveal(Seq::filter);
        assert(absolutes(crate::number::present(values)) =~= Seq::empty());
    }
}

/// The price advantage of a store that follows the directions: where the result is there, it times the
/// base price is what the trade price gained on it, for a sell, or saved, for a buy. Without trade
/// prices there is none, and nothing else of the store changes.
pub proof fn stores_gain_by_their_direction<S: IndicatorStoreAccess<Ticks>>(
    store: &mut S,
    result: Result<(), IndicatorError>,
    place: int,
    other: Seq<char>,
)
    requires
        call_ensures(aggregate_order_price_advantage::<Ticks, S>, (store,), result),
    ensures
        result is Err ==> final(store).columns() == old(store).columns(),
        result is Ok ==> ({
            let before = old(store).columns();
            let gains = metric_or_empty(final(store).columns(), "pa"@);
            let (stock, gain) = gains[place];
            let price = held(column_at(before, "trade_price"@, stock));
            let base = held(column_at(before, "base_price"@, stock));
            let dir = column_at(before, "trade_dir"@, stock);
            &&& metric_or_empty(before, "trade_price"@).len() == 0 ==> gains.len() == 0
            &&& 0 <= place < gains.len() && gain.0 is Some ==> base > 0 && (dir == Ticks(Some(0)) ==> held(gain) * base
                == price - base) && (dir == Ticks(Some(1)) ==> held(gain) * base == base - price)
            &&& other != "pa"@ ==> value_of(final(store).columns(), other) == value_of(before, other)
        }),
{
    if result is Ok {
        let before = old(store).columns();
        let after = final(store).columns();
        let (price, dir, base) = (
            metric_or_empty(before, "trade_price"@),
            metric_or_empty(before, "trade_dir"@),
            metric_or_empty(before, "base_price"@),
        );
        if price.len() == 0 {
            writes_are_read(before, "pa"@, Seq::empty(), "pa"@);
            writes_are_read(before, "pa"@, Seq::empty(), other);
        } else {
            let gains = choose|gain: Entries<Ticks>| #[trigger]
                is_advantage(gain, old(store).mode(), dir, price, base) && after == with_entry(before, "pa"@, gain);
            writes_are_read(before, "pa"@, gains, "pa"@);
            writes_are_read(before, "pa"@, gains, other);
            if 0 <= place < gains.len() && gains[place].1.0 is Some {
                let stock = gains[place].0;
                let (d, p, b) = (at_label(dir, stock), at_label(price, stock), at_label(base, stock));
                assert(gains[place].1 == advantage(d, p, b));
                let share = p.over_spec(b);
                assert(share.0 is Some);
                quotients_undo(p, b);
                let (s, low) = (held(share), held(b));
                assert((s - 1) * low == s * low - low) by (nonlinear_arith);
                assert((-1 * (s - 1)) * low == low - s * low) by (nonlinear_arith);
                assert(0 * 2 == 0 && 1 * 2 == 2 && 1 * (s - 1) == s - 1);
            }
        }
    }
}

/// Sums without signs are there wherever they can be held.
proof fn sizes_are_there(values: Seq<Ticks>)
    requires
        sizes_of(values) <= i64::MAX,
    ensures
        sizes_of(values) >= 0,
        sum_of(absolutes(crate::number::present(values))).0 is Some,
        held(sum_of(absolutes(crate::number::present(values)))) == sizes_of(values),
    decreases values.len(),
{
    if values.len() > 0 {
        let fewer = values.drop_last();
        let last = values.last();
        assert(fewer.push(last) =~= values);
        crate::number::present_push(fewer, last);
        sizes_are_not_negative(fewer);
        sizes_are_there(fewer);
        if last.0 is Some {
            let before = crate::number::present(fewer);
            assert(absolutes(before.push(last)) =~= absolutes(before).push(last.absolute_spec()));
            crate::number::sum_push(absolutes(before), last.absolute_spec());
        }
    } else {
        reveal(Seq::filter);
        assert(absolutes(crate::number::present(values)) =~= Seq::empty());
    }
}

proof fn sizes_are_not_negative(values: Seq<Ticks>)
    ensures
        sizes_of(values) >= 0,
    decreases values.len(),
{
    if values.len() > 0 {
        sizes_are_not_negative(values.drop_last());
    }
}

/// A summary has its amounts, values and counts whatever is missing among the metrics: what is missing is
/// left out, and only what cannot be held is not there.
pub proof fn summaries_leave_out_what_is_missing<S: IndicatorStoreAccess<Ticks>>(
    store: S,
    row: &mut OrderedMap<Ticks>,
    config: IndicatorConfig,
    result: Result<(), IndicatorError>,
)
    requires
        call_ensures(calculate_trade_indicators::<Ticks, S>, (&store, row, config), result),
        result is Ok,
    ensures
        ({
            let deals = values_of(metric_or_empty(store.columns(), "deal_amount"@));
            let traded = values_of(metric_or_empty(store.columns(), "trade_value"@));
            let amounts = values_of(metric_or_empty(store.columns(), "amount"@));
            &&& sizes_of(deals) <= i64::MAX ==> at_label(final(row)@, "deal_amount"@) == ticks(sizes_of(deals))
            &&& sizes_of(traded) <= i64::MAX ==> at_label(final(row)@, "value"@) == ticks(sizes_of(traded))
            &&& amounts.len() <= i64::MAX ==> at_label(final(row)@, "count"@) == ticks(
                amounts.filter(|amount: Ticks| amount.0 is Some).len() as int,
            )
        }),
{
    metrics_are_told_apart();
    let c = store.columns();
    let deals = values_of(metric_or_empty(c, "deal_amount"@));
    let traded = values_of(metric_or_empty(c, "trade_value"@));
    let amounts = values_of(metric_or_empty(c, "amount"@));
    let added = summary(
        config,
        metric_or_empty(c, "ffr"@),
        metric_or_empty(c, "pa"@),
        metric_or_empty(c, "deal_amount"@),
        metric_or_empty(c, "trade_value"@),
        metric_or_empty(c, "amount"@),
    );
    assert(final(row)@ == with_entries(old(row)@, added));
    crate::ordered::last_entries_are_read_back(old(row)@, added, "deal_amount"@);
    crate::ordered::last_entries_are_read_back(old(row)@, added, "value"@);
    crate::ordered::last_entries_are_read_back(old(row)@, added, "count"@);
    assert(added.len() == 6 && added[2].0 == "pos"@ && added[3].0 == "deal_amount"@ && added[4].0 == "value"@ && added[5].0
        == "count"@);
    assert(at_label(final(row)@, "deal_amount"@) == added[3].1);
    assert(at_label(final(row)@, "value"@) == added[4].1);
    assert(at_label(final(row)@, "count"@) == added[5].1);
    present_quantities_are_held(amounts);
    if sizes_of(deals) <= i64::MAX {
        sizes_are_there(deals);
    }
    if sizes_of(traded) <= i64::MAX {
        sizes_are_there(traded);
    }
}

} // verus!
