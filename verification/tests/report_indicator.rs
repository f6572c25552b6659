//! Order indicators on concrete stores.
use qlib_core::base_price_aggregation::{
    base_price_direction, BasePriceAction, BasePriceRun, BaseVolumePrice,
};
use qlib_core::indicator::{
    aggregate_local_stages, aggregate_order_price_advantage, assign_outer_target_and_fill, calculate_trade_indicators,
    order_snapshot, parse_indicator_config, trade_amount_snapshot, update_order_fulfill_rate, update_order_indicators,
    Indicator, IndicatorPool, OrderExecution,
};
use qlib_core::indicator_store::{
    aggregate_columns, aggregate_stores, store_metric, transform_trade_notional, DenseStore, IndicatorStore,
    IndicatorStoreAccess, MetricColumns,
};
use qlib_core::level_indicator::base_metrics;
use qlib_core::metric_snapshot::{reindex_values, same_stock_set, sorted_union};
use qlib_core::number::{nan_mean, non_nan_count, sum_abs, sum_present, Number, Ticks};
use qlib_core::order::{OrderDir, Timestamp};
use qlib_core::order_indicator_run::{AggregateOrderIndicatorsError, OrderIndicatorAction, OrderIndicatorRun};
use qlib_core::ordered::OrderedMap;
use qlib_core::report_indicator::{
    aggregate_metric, aggregate_weighted, calculate_fulfillment_rate, calculate_price_advantage, divide_trade_price,
    multiply_metrics, parse_weight_method, weighted_mean, IndicatorAggregationMode, IndicatorConfig, IndicatorError,
    IndicatorWeightMethod, MetricSnapshot,
};
use qlib_core::trade_report::TradeIndicatorReport;

#[derive(Clone, Copy, Debug, PartialEq)]
struct Real(f64);

impl Number for Real {
    fn is_missing(self) -> bool {
        self.0.is_nan()
    }

    fn nothing() -> Self {
        Real(f64::NAN)
    }

    fn zero() -> Self {
        Real(0.0)
    }

    fn one() -> Self {
        Real(1.0)
    }

    fn count(count: usize) -> Self {
        Real(count as f64)
    }

    fn plus(self, other: Self) -> Self {
        Real(self.0 + other.0)
    }

    fn minus(self, other: Self) -> Self {
        Real(self.0 - other.0)
    }

    fn times(self, other: Self) -> Self {
        Real(self.0 * other.0)
    }

    fn over(self, other: Self) -> Self {
        Real(self.0 / other.0)
    }

    fn absolute(self) -> Self {
        Real(self.0.abs())
    }

    fn below(self, other: Self) -> bool {
        self.0 < other.0
    }

    fn equals(self, other: Self) -> bool {
        self.0 == other.0
    }
}

fn metric(stocks: &[&str], values: &[f64]) -> MetricSnapshot<Real> {
    MetricSnapshot::try_new(
        stocks.iter().map(|stock| stock.to_string()).collect(),
        values.iter().map(|value| Real(*value)).collect(),
    )
    .unwrap()
}

fn values(metric: &MetricSnapshot<Real>) -> Vec<f64> {
    metric.values().iter().map(|value| value.0).collect()
}

const DENSE: IndicatorAggregationMode = IndicatorAggregationMode::DenseZeroFill;
const FILLED: IndicatorAggregationMode = IndicatorAggregationMode::PandasFillValue;

struct RecordedColumns {
    fail_read: Option<usize>,
    fail_write: Option<usize>,
    reads: usize,
    writes: Vec<(String, MetricSnapshot<Real>)>,
}

impl MetricColumns<Real> for RecordedColumns {
    fn read(&mut self, _store: usize, name: &str) -> Result<MetricSnapshot<Real>, IndicatorError> {
        if self.fail_read == Some(self.reads) {
            return Err(IndicatorError::MissingMetric(name.to_owned()));
        }
        self.reads += 1;
        MetricSnapshot::try_new(vec!["A".to_owned()], vec![Real(2.0)])
    }

    fn write(&mut self, name: &str, metric: MetricSnapshot<Real>) -> Result<(), IndicatorError> {
        if self.fail_write == Some(self.writes.len()) {
            return Err(IndicatorError::OrderStorePoisoned);
        }
        self.writes.push((name.to_owned(), metric));
        Ok(())
    }
}

#[test]
fn poisoned_output_between_trade_and_target_keeps_completed_trade_stage() {
    let fresh = || -> Vec<DenseStore<Real>> { vec![DenseStore::fresh(), DenseStore::fresh()] };
    let mut quotes = 0;
    let mut finish = |stores: &mut Vec<DenseStore<Real>>,
                      inner: Vec<usize>,
                      steps: usize,
                      amounts: Result<Vec<(String, Real)>, IndicatorError>| {
        let mut run: OrderIndicatorRun<Real> = OrderIndicatorRun::after_trade(0, inner, steps);
        run.target(stores, amounts)?;
        loop {
            match run.next(stores)? {
                OrderIndicatorAction::Continue => {}
                OrderIndicatorAction::Quote(step, request) => {
                    assert_eq!((step, request.stock.as_str()), (0, "A"));
                    quotes += 1;
                    run.answer(Err("price unavailable".to_owned()))?;
                }
                OrderIndicatorAction::Finished => return Ok(()),
            }
        }
    };
    let mut success = fresh();
    OrderIndicatorRun::begin(&mut success, 0, vec![], 0).unwrap();
    let done: Result<(), AggregateOrderIndicatorsError<Real>> = finish(&mut success, vec![], 0, Ok(vec![]));
    done.unwrap();
    assert!(success[0].metric_snapshot("pa").unwrap().is_empty());

    for name in ["trade_dir", "trade_price", "deal_amount"] {
        success[0].assign_snapshot(name, MetricSnapshot::try_new(vec!["A".to_owned()], vec![Real(1.0)]).unwrap());
    }
    assert!(matches!(
        finish(&mut success, vec![1], 1, Ok(vec![])),
        Err(AggregateOrderIndicatorsError::Quote(message)) if message == "price unavailable"
    ));
    assert!(matches!(
        finish(&mut success, vec![], 0, Ok(vec![])),
        Err(AggregateOrderIndicatorsError::Indicator(IndicatorError::IndexMismatch { .. }))
    ));
    assert!(success[0].metric_snapshot("base_price").unwrap().is_empty());

    let mut output = fresh();
    OrderIndicatorRun::begin(&mut output, 0, vec![], 0).unwrap();
    let completed = output[0].metric_names();
    assert_eq!(completed.len(), 6);
    let held: Vec<MetricSnapshot<Real>> = completed.iter().map(|name| output[0].metric_snapshot(name).unwrap()).collect();
    assert!(matches!(
        finish(&mut output, vec![], 0, Err(IndicatorError::OrderStorePoisoned)),
        Err(AggregateOrderIndicatorsError::Indicator(IndicatorError::OrderStorePoisoned))
    ));
    for (name, expected) in completed.iter().zip(&held) {
        let found = output[0].metric_snapshot(name).unwrap();
        assert_eq!((found.index(), values(&found)), (expected.index(), values(expected)));
    }
    assert!(output[0].metric_snapshot("amount").is_none());
    assert!(output[0].metric_snapshot("ffr").is_none());
    assert_eq!(quotes, 1);
}

#[test]
fn order_indicators_are_aggregated_in_stages() {
    let mut stores: Vec<DenseStore<Real>> = vec![DenseStore::fresh(), filled_store()];
    let mut run = OrderIndicatorRun::begin(&mut stores, 0, vec![1], 1).unwrap();
    run.target(&mut stores, Ok(vec![("A".to_owned(), Real(8.0))])).unwrap();
    assert!(matches!(run.next(&mut stores), Ok(OrderIndicatorAction::Continue)));
    assert!(matches!(run.next(&mut stores), Ok(OrderIndicatorAction::Quote(0, request)) if request.stock == "A"));
    run.answer(Ok(Some(BaseVolumePrice { base_price: Real(8.0), base_volume: Real(1.0) }))).unwrap();
    assert!(matches!(run.next(&mut stores), Ok(OrderIndicatorAction::Continue)));
    assert!(matches!(run.next(&mut stores), Ok(OrderIndicatorAction::Finished)));
    assert_eq!(values(&store_metric(&stores[0], "base_price").unwrap()), &[8.0]);
    assert_eq!(values(&store_metric(&stores[0], "ffr").unwrap()), &[0.25]);
    assert!(stores[0].metric_snapshot("pa").is_some());
}

#[test]
fn column_writer_failure_keeps_exactly_the_preceding_assignments() {
    let names = [
        "inner_amount",
        "deal_amount",
        "trade_price",
        "trade_value",
        "trade_cost",
        "trade_dir",
        "trade_price",
        "trade_dir",
    ];
    let cases = [DENSE, FILLED].into_iter().flat_map(|mode| {
        let initial_read = usize::from(mode == DENSE);
        (0..8)
            .map(move |index| (mode, None, Some(index)))
            .chain((0..6 + initial_read).map(move |index| (mode, Some(index), None)))
            .chain(std::iter::once((mode, None, None)))
    });
    for (mode, fail_read, fail_write) in cases {
        let mut columns = RecordedColumns { fail_read, fail_write, reads: 0, writes: Vec::new() };
        let result = aggregate_columns(mode, 1, &mut columns);
        let expected_writes = if let Some(index) = fail_read {
            let column = index.saturating_sub(usize::from(mode == DENSE));
            assert_eq!(result, Err(IndicatorError::MissingMetric(names[column].to_owned())));
            column
        } else if let Some(index) = fail_write {
            assert_eq!(result, Err(IndicatorError::OrderStorePoisoned));
            index
        } else {
            assert_eq!(result, Ok(()));
            names.len()
        };
        assert_eq!(
            columns.writes.iter().map(|(name, _)| name.as_str()).collect::<Vec<_>>(),
            names[..expected_writes]
        );
        if expected_writes >= 7 {
            assert_eq!(values(&columns.writes[2].1), &[2.0]);
            assert_eq!(values(&columns.writes[6].1), &[1.0]);
        }
    }
}

#[test]
fn numbers_reduce_without_what_is_missing() {
    let list = [Real(1.0), Real(f64::NAN), Real(-3.0)];
    assert_eq!(non_nan_count(&list), 2);
    assert_eq!(sum_present(&list), Real(-2.0));
    assert_eq!(sum_abs(&list), Real(4.0));
    assert_eq!(nan_mean(&list), Real(-1.0));
    assert!(nan_mean(&[Real(f64::NAN)]).is_missing());
    assert_eq!(Ticks(Some(i64::MAX)).plus(Ticks(Some(1))), Ticks(None));
    assert_eq!(Ticks(Some(6)).over(Ticks(Some(3))), Ticks(Some(2)));
    assert_eq!(Ticks(Some(7)).over(Ticks(Some(3))), Ticks(None));
}

#[test]
fn snapshots_refuse_bad_labels() {
    assert_eq!(
        MetricSnapshot::try_new(vec!["A".to_owned()], vec![Real(1.0), Real(2.0)]).err(),
        Some(IndicatorError::LengthMismatch { index: 1, values: 2 })
    );
    assert_eq!(
        MetricSnapshot::try_new(vec!["A".to_owned(), "A".to_owned()], vec![Real(1.0), Real(2.0)]).err(),
        Some(IndicatorError::DuplicateStock("A".to_owned()))
    );
    let one = metric(&["B", "A"], &[2.0, 1.0]);
    let other = metric(&["A", "C"], &[1.0, 3.0]);
    assert_eq!(sorted_union(&[&one, &other]), vec!["A", "B", "C"]);
    assert!(!same_stock_set(&one, &other));
    let list = reindex_values(&one, &["A".to_owned(), "C".to_owned()]);
    assert_eq!(list[0], Real(1.0));
    assert!(list[1].is_missing());
    assert!(MetricSnapshot::<Real>::empty().is_empty());
    assert_eq!(one.lookup("B"), Real(2.0));
}

#[test]
fn products_follow_their_mode() {
    let left = metric(&["B", "A"], &[2.0, 3.0]);
    let right = metric(&["A", "B"], &[5.0, 7.0]);
    let dense = multiply_metrics(DENSE, &left, &right).unwrap();
    assert_eq!(dense.index(), &["B".to_owned(), "A".to_owned()]);
    assert_eq!(values(&dense), &[14.0, 15.0]);
    let other = metric(&["A"], &[1.0]);
    assert!(multiply_metrics(DENSE, &left, &other).is_err());
    let filled = multiply_metrics(FILLED, &left, &other).unwrap();
    assert_eq!(filled.len(), 2);
    let sum = aggregate_metric(FILLED, &[&left, &right], None);
    assert_eq!(sum.index(), &["A".to_owned(), "B".to_owned()]);
    assert_eq!(values(&sum), &[8.0, 9.0]);
}

#[test]
fn prices_and_rates_have_their_formulas() {
    let price = metric(&["A", "B"], &[20.0, 5.0]);
    let amount = metric(&["A"], &[4.0]);
    let unit = divide_trade_price(&price, &amount);
    assert_eq!(unit.lookup("A"), Real(5.0));
    let rate = calculate_fulfillment_rate(&metric(&["A", "B"], &[8.0, 4.0]), &metric(&["A"], &[2.0]));
    assert_eq!(values(&rate), &[0.25, 0.0]);
    assert_eq!(rate.index(), &["A".to_owned(), "B".to_owned()]);
    let buy = metric(&["A"], &[1.0]);
    let gain = calculate_price_advantage(DENSE, &buy, &metric(&["A"], &[11.0]), &metric(&["A"], &[10.0])).unwrap();
    assert!((gain.values()[0].0 - -0.1).abs() < 1e-12);
    assert!(calculate_price_advantage(DENSE, &buy, &metric(&["B"], &[1.0]), &metric(&["A"], &[1.0])).is_err());
}

#[test]
fn weights_average_by_their_method() {
    let rates = metric(&["A", "B"], &[1.0, 3.0]);
    let weights = metric(&["A", "B"], &[3.0, 1.0]);
    assert_eq!(weighted_mean("ffr", &rates, "deal_amount", &weights), Ok(Real(1.5)));
    assert!(matches!(
        weighted_mean("ffr", &rates, "deal_amount", &metric(&["C"], &[1.0])),
        Err(IndicatorError::IndexMismatch { .. })
    ));
    assert_eq!(
        aggregate_weighted("ffr", &rates, IndicatorWeightMethod::Mean, &weights, &weights),
        Ok(Real(2.0))
    );
    assert_eq!(parse_weight_method("mean"), Ok(IndicatorWeightMethod::Mean));
    assert_eq!(parse_weight_method("amount_weighted"), Ok(IndicatorWeightMethod::AmountWeighted));
    assert_eq!(parse_weight_method("value_weighted"), Ok(IndicatorWeightMethod::ValueWeighted));
    assert_eq!(parse_weight_method("other"), Err(IndicatorError::UnsupportedWeightMethod("other".to_owned())));
    assert!(parse_indicator_config("mean", "nothing").is_err());
}

fn filled_store() -> DenseStore<Real> {
    let mut store: DenseStore<Real> = DenseStore::fresh();
    for (name, value) in [
        ("inner_amount", 4.0),
        ("deal_amount", 2.0),
        ("trade_price", 10.0),
        ("trade_value", 20.0),
        ("trade_cost", 1.0),
        ("trade_dir", 1.0),
    ] {
        store.assign_snapshot(name, metric(&["A"], &[value]));
    }
    store
}

#[test]
fn stores_aggregate_with_repeated_inputs() {
    let mut store = filled_store();
    transform_trade_notional(&mut store, DENSE).unwrap();
    assert_eq!(values(&store_metric(&store, "trade_price").unwrap()), &[20.0]);
    assert_eq!(store_metric(&store, "nothing").err(), Some(IndicatorError::MissingMetric("nothing".to_owned())));
    let mut stores = vec![filled_store(), filled_store(), DenseStore::fresh()];
    aggregate_stores(&mut stores, &vec![0, 1], 2).unwrap();
    assert_eq!(values(&store_metric(&stores[2], "deal_amount").unwrap()), &[4.0]);
    assert_eq!(values(&store_metric(&stores[2], "trade_price").unwrap()), &[10.0]);
    assert_eq!(values(&store_metric(&stores[2], "trade_value").unwrap()), &[40.0]);
    let mut missing = vec![DenseStore::<Real>::fresh(), DenseStore::fresh()];
    assert!(matches!(aggregate_stores(&mut missing, &vec![0], 1), Err(IndicatorError::MissingMetric(_))));
}

#[test]
fn local_stages_set_targets_and_fill_rates() {
    let mut stores = vec![filled_store(), DenseStore::fresh()];
    aggregate_local_stages(&mut stores, &vec![0], 1, metric(&["A"], &[8.0])).unwrap();
    assert_eq!(values(&store_metric(&stores[1], "amount").unwrap()), &[8.0]);
    assert_eq!(values(&store_metric(&stores[1], "ffr").unwrap()), &[0.25]);
    let mut store: DenseStore<Real> = DenseStore::fresh();
    assert_eq!(update_order_fulfill_rate(&mut store), Err(IndicatorError::MissingMetric("deal_amount".to_owned())));
    assign_outer_target_and_fill(&mut store, metric(&["B"], &[2.0]));
    assert_eq!(values(&store_metric(&store, "ffr").unwrap()), &[0.0]);
}

#[test]
fn base_prices_keep_what_is_held_and_ask_for_the_rest() {
    assert_eq!(base_price_direction("A", Real(0.0)).unwrap(), OrderDir::Sell);
    assert!(base_price_direction("A", Real(2.0)).is_err());
    assert!(BasePriceRun::begin(MetricSnapshot::<Real>::empty(), 1, 1).is_none());
    let mut run = BasePriceRun::begin(metric(&["A", "B"], &[1.0, 0.0]), 1, 3).unwrap();
    assert!(matches!(run.next(), Ok(BasePriceAction::ReadInput(0))));
    run.input_read(Some(metric(&["A"], &[10.0])), Some(metric(&["A"], &[2.0])));
    match run.next().unwrap() {
        BasePriceAction::Quote(request) => {
            assert_eq!(request.stock, "B");
            assert_eq!(request.direction, OrderDir::Sell);
        }
        _ => panic!("a quote is due"),
    }
    run.quote(Some(BaseVolumePrice { base_price: Real(7.0), base_volume: Real(3.0) }));
    assert!(matches!(run.next(), Ok(BasePriceAction::Publish)));
    let mut store: DenseStore<Real> = DenseStore::fresh();
    run.publish(&mut store);
    assert_eq!(values(&store_metric(&store, "base_volume").unwrap()), &[2.0, 3.0]);
    assert_eq!(values(&store_metric(&store, "base_price").unwrap()), &[10.0, 7.0]);
    assert_eq!(store.metric_names(), vec!["base_volume", "base_price"]);
}

#[test]
fn base_prices_are_weighted_over_steps() {
    let mut run = BasePriceRun::begin(metric(&["A"], &[1.0]), 2, 2).unwrap();
    let _ = run.next();
    run.input_read(Some(metric(&["A"], &[10.0])), Some(metric(&["A"], &[1.0])));
    let _ = run.next();
    run.input_read(Some(metric(&["A"], &[20.0])), Some(metric(&["A"], &[3.0])));
    assert!(matches!(run.next(), Ok(BasePriceAction::Publish)));
    let mut store: DenseStore<Real> = DenseStore::fresh();
    run.publish(&mut store);
    assert_eq!(values(&store_metric(&store, "base_price").unwrap()), &[17.5]);
}

#[test]
fn price_advantage_needs_its_metrics_in_order() {
    let mut store: DenseStore<Real> = DenseStore::fresh();
    assert_eq!(
        aggregate_order_price_advantage(&mut store),
        Err(IndicatorError::MissingMetric("trade_price".to_owned()))
    );
    store.assign_snapshot("trade_price", MetricSnapshot::empty());
    aggregate_order_price_advantage(&mut store).unwrap();
    assert!(store_metric(&store, "pa").unwrap().is_empty());
    store.assign_snapshot("trade_price", metric(&["A"], &[9.0]));
    assert_eq!(
        aggregate_order_price_advantage(&mut store),
        Err(IndicatorError::MissingMetric("trade_dir".to_owned()))
    );
    store.assign_snapshot("trade_dir", metric(&["A"], &[1.0]));
    store.assign_snapshot("base_price", metric(&["A"], &[10.0]));
    aggregate_order_price_advantage(&mut store).unwrap();
    assert!((store_metric(&store, "pa").unwrap().values()[0].0 - 0.1).abs() < 1e-12);
}

fn execution(stock: &str, deal: f64) -> OrderExecution<Real> {
    OrderExecution {
        stock_id: stock.to_owned(),
        amount_delta: Real(4.0),
        deal_amount_delta: Real(deal),
        sign: Real(1.0),
        direction: Real(1.0),
        trade_value: Real(10.0 * deal),
        trade_cost: Real(0.5),
        trade_price: Real(10.0),
    }
}

#[test]
fn executions_become_indicators_and_summaries() {
    let mut store: DenseStore<Real> = DenseStore::fresh();
    update_order_indicators(&mut store, &[execution("A", 4.0), execution("B", 2.0)]);
    assert_eq!(values(&store_metric(&store, "ffr").unwrap()), &[1.0, 0.5]);
    assert_eq!(order_snapshot(&store).unwrap().len(), store.metric_names().len());
    let mut row: OrderedMap<Real> = OrderedMap::new();
    let config = IndicatorConfig {
        fulfill_rate: IndicatorWeightMethod::Mean,
        price_advantage: IndicatorWeightMethod::Mean,
    };
    calculate_trade_indicators(&store, &mut row, config).unwrap();
    assert_eq!(row.get("ffr"), Some(&Real(0.75)));
    assert_eq!(row.get("count"), Some(&Real(2.0)));
    let amounts = trade_amount_snapshot(&[("A".to_owned(), Real(1.0)), ("B".to_owned(), Real(2.0)), ("A".to_owned(), Real(3.0))]);
    assert_eq!(amounts.index(), &["A".to_owned(), "B".to_owned()]);
    assert_eq!(values(&amounts), &[3.0, 2.0]);
}

#[test]
fn recorded_indicators_are_read_back() {
    let mut pool: IndicatorPool<Real, DenseStore<Real>> = IndicatorPool { stores: Vec::new(), rows: Vec::new() };
    let mut indicator = Indicator::new(&mut pool);
    let time = Timestamp { seconds: 60, nanos: 0 };
    pool.rows[indicator.trade_indicator()].insert("ffr".to_owned(), Real(0.5));
    indicator.record(time);
    assert_eq!(indicator.trade_indicator_history(), &[(time, indicator.trade_indicator())]);
    assert_eq!(indicator.order_indicator_history().len(), 1);
    let report = TradeIndicatorReport::from_shared_history(&indicator, &pool);
    assert_eq!(report.names, vec!["ffr"]);
    assert_eq!(report.timestamps, vec![time]);
    assert_eq!(report.columns[0][0], Real(0.5));
    let before = indicator.order_indicator();
    indicator.reset(&mut pool);
    assert_ne!(indicator.order_indicator(), before);
}

#[test]
fn levels_work_on_their_current_store() {
    let mut pool: IndicatorPool<Real, DenseStore<Real>> =
        IndicatorPool { stores: vec![filled_store(), filled_store()], rows: Vec::new() };
    let indicator = Indicator::new(&mut pool);
    indicator.aggregate_order_trade_info(&mut pool, &vec![0, 1]).unwrap();
    indicator.update_trade_amount(&mut pool, &[("A".to_owned(), Real(8.0))]);
    indicator.update_order_fulfill_rate(&mut pool).unwrap();
    let current = indicator.order_indicator();
    assert_eq!(values(&store_metric(&pool.stores[current], "ffr").unwrap()), &[0.5]);
    let mut run = indicator.aggregate_base_price(&pool, 2, 1).unwrap();
    assert!(matches!(run.next(), Ok(BasePriceAction::ReadInput(0))));
    let (price, volume) = base_metrics(&pool.stores[0]);
    assert!(price.is_none() && volume.is_none());
    run.input_read(price, volume);
    assert!(matches!(run.next(), Ok(BasePriceAction::Quote(_))));
    run.quote(Some(BaseVolumePrice { base_price: Real(8.0), base_volume: Real(1.0) }));
    assert!(matches!(run.next(), Ok(BasePriceAction::Publish)));
    indicator.publish_base_price(&mut pool, run);
    indicator.aggregate_order_price_advantage(&mut pool).unwrap();
    indicator.calculate_trade_indicators_str(&mut pool, "mean", "value_weighted").unwrap();
    let row = &pool.rows[indicator.trade_indicator()];
    assert_eq!(row.get("ffr"), Some(&Real(0.5)));
    assert!((row.get("pa").unwrap().0 - -0.25).abs() < 1e-12);
    assert_eq!(
        indicator.calculate_trade_indicators_str(&mut pool, "mean", "other"),
        Err(IndicatorError::UnsupportedWeightMethod("other".to_owned()))
    );
    assert_eq!(indicator.order_snapshot(&pool).unwrap().len(), pool.stores[current].metric_names().len());
    indicator.update_order_indicators(&mut pool, &[execution("B", 4.0)]);
    assert_eq!(values(&store_metric(&pool.stores[current], "deal_amount").unwrap()), &[4.0]);
    indicator.update_outer_target_and_fill(&mut pool, &[("B".to_owned(), Real(2.0))]);
    assert_eq!(values(&store_metric(&pool.stores[current], "ffr").unwrap()), &[2.0]);
    assert_eq!(values(&store_metric(&pool.stores[0], "deal_amount").unwrap()), &[2.0]);
}

#[test]
fn reports_leave_gaps_open() {
    let mut first: OrderedMap<Real> = OrderedMap::new();
    first.insert("a".to_owned(), Real(1.0));
    let mut second: OrderedMap<Real> = OrderedMap::new();
    second.insert("b".to_owned(), Real(2.0));
    let early = Timestamp { seconds: 1, nanos: 0 };
    let late = Timestamp { seconds: 2, nanos: 0 };
    let report = TradeIndicatorReport::from_history(&[(early, &first), (late, &second)]);
    assert_eq!(report.names, vec!["a", "b"]);
    assert_eq!(report.timestamps.len(), 2);
    assert!(report.columns[0][1].is_missing());
    assert_eq!(report.columns[1][1], Real(2.0));
}
