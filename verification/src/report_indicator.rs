//! Order and trade indicators of one execution level.
use vstd::prelude::*;

pub use crate::metric_snapshot::MetricSnapshot;
use crate::metric_snapshot::{
    all_entries, at_label, increasing_is_distinct, is_sorted_union, label_list, same_labels, same_stock_set,
    sorted_union, texts, zipped, Entries,
};
use crate::number::{
    fits, held, mean_of_present, nan_mean, present, present_count, present_push, present_total, quotients_undo, sum_of,
    sum_push, ticks, Number, Ticks,
};
use crate::ordered::{distinct_names, names_of};
use crate::text::same_text;

verus! {

/// Missing-value and stock-union behaviour of a store.
#[derive(Clone, Copy, Debug, PartialEq, Eq, Structural)]
pub enum IndicatorAggregationMode {
    /// The stock universe is fixed first; missing values count as zero.
    DenseZeroFill,
    /// Labels are resolved per column; a stock without any value stays missing.
    PandasFillValue,
}

/// How a metric is averaged over stocks.
#[derive(Clone, Copy, Debug, PartialEq, Eq, Structural)]
pub enum IndicatorWeightMethod {
    Mean,
    AmountWeighted,
    ValueWeighted,
}

/// The averages used for the two rates of a trade summary.
#[derive(Clone, Copy, Debug, PartialEq, Eq, Structural)]
pub struct IndicatorConfig {
    pub fulfill_rate: IndicatorWeightMethod,
    pub price_advantage: IndicatorWeightMethod,
}

impl Default for IndicatorConfig {
    fn default() -> (result: Self)
        ensures
            result.fulfill_rate == IndicatorWeightMethod::Mean,
            result.price_advantage == IndicatorWeightMethod::Mean,
    {
        IndicatorConfig {
            fulfill_rate: IndicatorWeightMethod::Mean,
            price_advantage: IndicatorWeightMethod::Mean,
        }
    }
}

/// The settings of order-indicator aggregation.
#[derive(Clone, Copy, Debug, PartialEq, Eq)]
pub struct OrderIndicatorAggregationConfig<B> {
    /// Baseline-price source and aggregation rules.
    pub base_price: B,
}

/// Failures of indicator operations.
#[derive(Debug, PartialEq, Eq)]
pub enum IndicatorError {
    ExecutionListPoisoned,
    ExecutionOrderPoisoned(usize),
    OrderStorePoisoned,
    TradeRowPoisoned,
    LengthMismatch { index: usize, values: usize },
    DuplicateStock(String),
    MissingMetric(String),
    IndexMismatch { metric: String, weight: String },
    UnsupportedWeightMethod(String),
}


/// Whether labels with any values are distinct: the values do not matter.
proof fn distinct_for_any_values<V, W>(index: Seq<String>, values: Seq<V>, entries: Entries<W>)
    requires
        texts(index) == names_of(entries),
        distinct_names(entries),
    ensures
        distinct_names(zipped(index, values)),
{
    let fresh = zipped(index, values);
    assert(index.len() == names_of(entries).len());
    assert forall|i: int, j: int| 0 <= i < j < fresh.len() implies fresh[i].0 != fresh[j].0 by {
        assert(texts(index)[i] == names_of(entries)[i]);
        assert(texts(index)[j] == names_of(entries)[j]);
        assert(entries[i].0 != entries[j].0);
    }
}

/// The product of two metrics.
///
/// Dense metrics must carry the same stocks and keep the left order. Otherwise the stocks of the
/// left metric are kept where the two agree on them, and the sorted union is taken where they do
/// not; a stock that one side lacks is missing.
pub fn multiply_metrics<V: Number>(
    mode: IndicatorAggregationMode,
    left: &MetricSnapshot<V>,
    right: &MetricSnapshot<V>,
) -> (result: Result<MetricSnapshot<V>, IndicatorError>)
    ensures
        result is Err <==> mode == IndicatorAggregationMode::DenseZeroFill && !same_labels(left@, right@),
        match result {
            Ok(product) => {
                &&& same_labels(left@, right@) ==> names_of(product@) == names_of(left@)
                &&& !same_labels(left@, right@) ==> is_sorted_union(names_of(product@), seq![left@, right@])
                &&& forall|i: int|
                    0 <= i < product@.len() ==> (#[trigger] product@[i]).1 == at_label(left@, product@[i].0).times_spec(
                        at_label(right@, product@[i].0),
                    )
            },
            Err(IndicatorError::IndexMismatch { metric, weight }) => metric@ == "deal_amount"@ && weight@
                == "trade_price"@,
            Err(_) => false,
        },
{
    let same = same_stock_set(left, right);
    let index = if same {
        label_list(left)
    } else {
        match mode {
            IndicatorAggregationMode::DenseZeroFill => {
                return Err(
                    IndicatorError::IndexMismatch {
                        metric: "deal_amount".to_owned(),
                        weight: "trade_price".to_owned(),
                    },
                );
            },
            IndicatorAggregationMode::PandasFillValue => {
                let both = [left, right];
                proof {
                    assert(all_entries(both@) =~= seq![left@, right@]);
                }
                sorted_union(&both)
            },
        }
    };
    let mut values: Vec<V> = Vec::new();
    let mut row: usize = 0;
    while row < index.len()
        invariant
            row <= index@.len(),
            values@.len() == row,
            forall|i: int|
                0 <= i < row ==> #[trigger] values@[i] == at_label(left@, index@[i]@).times_spec(
                    at_label(right@, index@[i]@),
                ),
        decreases index@.len() - row,
    {
        let stock = index[row].as_str();
        values.push(left.lookup(stock).times(right.lookup(stock)));
        row += 1;
    }
    proof {
        if same {
            distinct_for_any_values(index@, values@, left@);
        } else {
            increasing_is_distinct(index@, values@);
        }
        assert(names_of(zipped(index@, values@)) =~= texts(index@));
    }
    Ok(MetricSnapshot::from_parts(index, values))
}


/// The values of one stock in several metrics.
pub open spec fn stock_values<V: Number>(metrics: Seq<Entries<V>>, stock: Seq<char>) -> Seq<V> {
    metrics.map_values(|entries: Entries<V>| at_label(entries, stock))
}

/// The values with zero in place of what is missing.
pub open spec fn zero_filled<V: Number>(values: Seq<V>) -> Seq<V> {
    values.map_values(|value: V| if value.missing() { V::zero_spec() } else { value })
}

/// What several values of one stock add up to.
pub open spec fn column_value<V: Number>(mode: IndicatorAggregationMode, values: Seq<V>) -> V {
    match mode {
        IndicatorAggregationMode::DenseZeroFill => sum_of(zero_filled(values)),
        IndicatorAggregationMode::PandasFillValue => if present_count(values) == 0 {
            V::nothing_spec()
        } else {
            sum_of(present(values))
        },
    }
}

/// Whether `entries` is the stock-wise sum of several metrics, over the given stock universe or
/// over the sorted union of their stocks.
pub open spec fn is_aggregate<V: Number>(
    entries: Entries<V>,
    mode: IndicatorAggregationMode,
    metrics: Seq<Entries<V>>,
    universe: Option<Seq<Seq<char>>>,
) -> bool {
    &&& match universe {
        Some(names) => names_of(entries) == names,
        None => is_sorted_union(names_of(entries), metrics),
    }
    &&& forall|i: int|
        0 <= i < entries.len() ==> (#[trigger] entries[i]).1 == column_value(mode, stock_values(metrics, entries[i].0))
}

/// What several metrics add up to for one stock.
fn stock_total<V: Number>(
    mode: IndicatorAggregationMode,
    metrics: &[&MetricSnapshot<V>],
    stock: &str,
) -> (result: V)
    ensures
        result == column_value(mode, stock_values(all_entries(metrics@), stock@)),
{
    let ghost values = stock_values(all_entries(metrics@), stock@);
    let mut sum: V = V::zero();
    let mut has_value = false;
    let mut i: usize = 0;
    proof {
        reveal(Seq::filter);
        assert(zero_filled(values.take(0)) =~= Seq::<V>::empty());
    }
    while i < metrics.len()
        invariant
            i <= metrics@.len(),
            values == stock_values(all_entries(metrics@), stock@),
            match mode {
                IndicatorAggregationMode::DenseZeroFill => sum == sum_of(zero_filled(values.take(i as int))),
                IndicatorAggregationMode::PandasFillValue => sum == sum_of(present(values.take(i as int)))
                    && has_value == (present(values.take(i as int)).len() > 0),
            },
        decreases metrics@.len() - i,
    {
        let value = metrics[i].lookup(stock);
        proof {
            let narrow = values.take(i as int);
            assert(value == values[i as int]);
            assert(values.take(i + 1) =~= narrow.push(value));
            present_push(narrow, value);
            sum_push(present(narrow), value);
            let filled = if value.missing() { V::zero_spec() } else { value };
            sum_push(zero_filled(narrow), filled);
            assert(zero_filled(narrow.push(value)) =~= zero_filled(narrow).push(filled));
        }
        match mode {
            IndicatorAggregationMode::DenseZeroFill => {
                sum = sum.plus(
                    if value.is_missing() {
                        V::zero()
                    } else {
                        value
                    },
                );
            },
            IndicatorAggregationMode::PandasFillValue => {
                if !value.is_missing() {
                    sum = sum.plus(value);
                    has_value = true;
                }
            },
        }
        i += 1;
    }
    assert(values.take(i as int) =~= values);
    match mode {
        IndicatorAggregationMode::DenseZeroFill => sum,
        IndicatorAggregationMode::PandasFillValue => if has_value {
            sum
        } else {
            V::nothing()
        },
    }
}

/// A list of texts with the same characters.
pub(crate) fn copy_texts(names: &[String]) -> (result: Vec<String>)
    ensures
        texts(result@) == texts(names@),
{
    let mut copy: Vec<String> = Vec::new();
    let mut i: usize = 0;
    while i < names.len()
        invariant
            i <= names@.len(),
            copy@.len() == i,
            forall|j: int| 0 <= j < i ==> (#[trigger] copy@[j])@ == names@[j]@,
        decreases names@.len() - i,
    {
        copy.push(names[i].clone());
        i += 1;
    }
    assert(texts(copy@) =~= texts(names@));
    copy
}

/// The stock-wise sum of several metrics.
pub fn aggregate_metric<V: Number>(
    mode: IndicatorAggregationMode,
    metrics: &[&MetricSnapshot<V>],
    dense_index: Option<&[String]>,
) -> (result: MetricSnapshot<V>)
    requires
        dense_index matches Some(names) ==> distinct_names(zipped(names@, names@)),
    ensures
        is_aggregate(
            result@,
            mode,
            all_entries(metrics@),
            match dense_index {
                Some(names) => Some(texts(names@)),
                None => None,
            },
        ),
{
    let index = match dense_index {
        Some(names) => copy_texts(names),
        None => sorted_union(metrics),
    };
    let mut values: Vec<V> = Vec::new();
    let mut row: usize = 0;
    while row < index.len()
        invariant
            row <= index@.len(),
            values@.len() == row,
            forall|i: int|
                0 <= i < row ==> #[trigger] values@[i] == column_value(
                    mode,
                    stock_values(all_entries(metrics@), index@[i]@),
                ),
        decreases index@.len() - row,
    {
        values.push(stock_total(mode, metrics, index[row].as_str()));
        row += 1;
    }
    proof {
        match dense_index {
            Some(names) => {
                assert(names_of(zipped(names@, names@)) =~= texts(names@));
                distinct_for_any_values(index@, values@, zipped(names@, names@));
            },
            None => {
                increasing_is_distinct(index@, values@);
            },
        }
        assert(names_of(zipped(index@, values@)) =~= texts(index@));
    }
    MetricSnapshot::from_parts(index, values)
}

/// A traded notional divided by the traded amount.
pub open spec fn unit_price<V: Number>(notional: V, amount: V) -> V {
    notional.over_spec(
        if amount.equals_spec(V::zero_spec()) {
            V::nothing_spec()
        } else {
            amount
        },
    )
}

/// Turns traded notionals back into prices; an amount of zero gives a missing divisor.
pub fn divide_trade_price<V: Number>(price: &MetricSnapshot<V>, amount: &MetricSnapshot<V>) -> (result: MetricSnapshot<
    V,
>)
    ensures
        is_sorted_union(names_of(result@), seq![price@, amount@]),
        forall|i: int|
            0 <= i < result@.len() ==> (#[trigger] result@[i]).1 == unit_price(
                at_label(price@, result@[i].0),
                at_label(amount@, result@[i].0),
            ),
{
    let both = [price, amount];
    proof {
        assert(all_entries(both@) =~= seq![price@, amount@]);
    }
    let index = sorted_union(&both);
    let mut values: Vec<V> = Vec::new();
    let mut row: usize = 0;
    while row < index.len()
        invariant
            row <= index@.len(),
            values@.len() == row,
            forall|i: int|
                0 <= i < row ==> #[trigger] values@[i] == unit_price(
                    at_label(price@, index@[i]@),
                    at_label(amount@, index@[i]@),
                ),
        decreases index@.len() - row,
    {
        let stock = index[row].as_str();
        let traded = amount.lookup(stock);
        let divisor = if traded.equals(V::zero()) {
            V::nothing()
        } else {
            traded
        };
        values.push(price.lookup(stock).over(divisor));
        row += 1;
    }
    proof {
        increasing_is_distinct(index@, values@);
        assert(names_of(zipped(index@, values@)) =~= texts(index@));
    }
    MetricSnapshot::from_parts(index, values)
}

/// The signed advantage of an execution price over a base price.
pub open spec fn advantage<V: Number>(direction: V, price: V, base: V) -> V {
    V::one_spec().minus_spec(direction.times_spec(V::count_spec(2))).times_spec(
        price.over_spec(base).minus_spec(V::one_spec()),
    )
}

/// The signed advantage of execution prices over base prices, per stock.
///
/// Dense metrics must carry the same stocks: prices are held against base prices first, then
/// directions against prices.
pub fn calculate_price_advantage<V: Number>(
    mode: IndicatorAggregationMode,
    trade_dir: &MetricSnapshot<V>,
    trade_price: &MetricSnapshot<V>,
    base_price: &MetricSnapshot<V>,
) -> (result: Result<MetricSnapshot<V>, IndicatorError>)
    ensures
        result is Err <==> mode == IndicatorAggregationMode::DenseZeroFill && !(same_labels(
            trade_price@,
            base_price@,
        ) && same_labels(trade_dir@, trade_price@)),
        match result {
            Ok(gain) => {
                &&& match mode {
                    IndicatorAggregationMode::DenseZeroFill => names_of(gain@) == names_of(trade_dir@),
                    IndicatorAggregationMode::PandasFillValue => is_sorted_union(
                        names_of(gain@),
                        seq![trade_dir@, trade_price@, base_price@],
                    ),
                }
                &&& forall|i: int|
                    0 <= i < gain@.len() ==> (#[trigger] gain@[i]).1 == advantage(
                        at_label(trade_dir@, gain@[i].0),
                        at_label(trade_price@, gain@[i].0),
                        at_label(base_price@, gain@[i].0),
                    )
            },
            Err(IndicatorError::IndexMismatch { metric, weight }) => if same_labels(trade_price@, base_price@) {
                metric@ == "trade_dir"@ && weight@ == "trade_price"@
            } else {
                metric@ == "trade_price"@ && weight@ == "base_price"@
            },
            Err(_) => false,
        },
{
    let index = match mode {
        IndicatorAggregationMode::DenseZeroFill => {
            if !same_stock_set(trade_price, base_price) {
                return Err(
                    IndicatorError::IndexMismatch {
                        metric: "trade_price".to_owned(),
                        weight: "base_price".to_owned(),
                    },
                );
            }
            if !same_stock_set(trade_dir, trade_price) {
                return Err(
                    IndicatorError::IndexMismatch {
                        metric: "trade_dir".to_owned(),
                        weight: "trade_price".to_owned(),
                    },
                );
            }
            label_list(trade_dir)
        },
        IndicatorAggregationMode::PandasFillValue => {
            let all = [trade_dir, trade_price, base_price];
            proof {
                assert(all_entries(all@) =~= seq![trade_dir@, trade_price@, base_price@]);
            }
            sorted_union(&all)
        },
    };
    let mut values: Vec<V> = Vec::new();
    let mut row: usize = 0;
    while row < index.len()
        invariant
            row <= index@.len(),
            values@.len() == row,
            forall|i: int|
                0 <= i < row ==> #[trigger] values@[i] == advantage(
                    at_label(trade_dir@, index@[i]@),
                    at_label(trade_price@, index@[i]@),
                    at_label(base_price@, index@[i]@),
                ),
        decreases index@.len() - row,
    {
        let stock = index[row].as_str();
        let sign = V::one().minus(trade_dir.lookup(stock).times(V::count(2)));
        let gain = trade_price.lookup(stock).over(base_price.lookup(stock)).minus(V::one());
        values.push(sign.times(gain));
        row += 1;
    }
    proof {
        match mode {
            IndicatorAggregationMode::DenseZeroFill => {
                distinct_for_any_values(index@, values@, trade_dir@);
            },
            IndicatorAggregationMode::PandasFillValue => {
                increasing_is_distinct(index@, values@);
            },
        }
        assert(names_of(zipped(index@, values@)) =~= texts(index@));
    }
    Ok(MetricSnapshot::from_parts(index, values))
}

/// The share of a target amount that was dealt; a missing deal counts as zero.
pub open spec fn fill_rate<V: Number>(deal: V, amount: V) -> V {
    (if deal.missing() { V::zero_spec() } else { deal }).over_spec(amount)
}

/// The share of every target amount that was dealt. Labels and order follow the targets.
pub fn calculate_fulfillment_rate<V: Number>(
    amount: &MetricSnapshot<V>,
    deal_amount: &MetricSnapshot<V>,
) -> (result: MetricSnapshot<V>)
    ensures
        names_of(result@) == names_of(amount@),
        forall|i: int|
            0 <= i < result@.len() ==> (#[trigger] result@[i]).1 == fill_rate(
                at_label(deal_amount@, result@[i].0),
                amount@[i].1,
            ),
{
    let index = label_list(amount);
    let length: usize = amount.len();
    let mut values: Vec<V> = Vec::new();
    let mut row: usize = 0;
    proof {
        assert(index@.len() == texts(index@).len());
        assert(names_of(amount@).len() == amount@.len());
    }
    while row < length
        invariant
            row <= length,
            length == amount@.len(),
            length == index@.len(),
            values@.len() == row,
            forall|i: int|
                0 <= i < row ==> #[trigger] values@[i] == fill_rate(
                    at_label(deal_amount@, index@[i]@),
                    amount@[i].1,
                ),
        decreases length - row,
    {
        let deal = deal_amount.lookup(index[row].as_str());
        let dealt = if deal.is_missing() {
            V::zero()
        } else {
            deal
        };
        values.push(dealt.over(amount.value(row)));
        row += 1;
    }
    proof {
        distinct_for_any_values(index@, values@, amount@);
        assert(names_of(zipped(index@, values@)) =~= texts(index@));
    }
    MetricSnapshot::from_parts(index, values)
}

/// The absolute weights that are not missing, in the order of the rows.
pub open spec fn row_weights<V: Number>(rows: Entries<V>, weights: Entries<V>) -> Seq<V>
    decreases rows.len(),
{
    if rows.len() == 0 {
        Seq::empty()
    } else {
        let weight = at_label(weights, rows.last().0).absolute_spec();
        let earlier = row_weights(rows.drop_last(), weights);
        if weight.missing() {
            earlier
        } else {
            earlier.push(weight)
        }
    }
}

/// The weighted values that are not missing, of the rows whose weight is not missing.
pub open spec fn row_products<V: Number>(rows: Entries<V>, weights: Entries<V>) -> Seq<V>
    decreases rows.len(),
{
    if rows.len() == 0 {
        Seq::empty()
    } else {
        let weight = at_label(weights, rows.last().0).absolute_spec();
        let product = rows.last().1.times_spec(weight);
        let earlier = row_products(rows.drop_last(), weights);
        if weight.missing() || product.missing() {
            earlier
        } else {
            earlier.push(product)
        }
    }
}

/// The mean of a metric under absolute weights; both must carry the same stocks.
pub fn weighted_mean<V: Number>(
    metric_name: &str,
    metric: &MetricSnapshot<V>,
    weight_name: &str,
    weights: &MetricSnapshot<V>,
) -> (result: Result<V, IndicatorError>)
    ensures
        result is Err <==> !same_labels(metric@, weights@),
        match result {
            Ok(mean) => mean == sum_of(row_products(metric@, weights@)).over_spec(
                sum_of(row_weights(metric@, weights@)),
            ),
            Err(IndicatorError::IndexMismatch { metric: left, weight: right }) => left@ == metric_name@ && right@
                == weight_name@,
            Err(_) => false,
        },
{
    if !same_stock_set(metric, weights) {
        return Err(
            IndicatorError::IndexMismatch { metric: metric_name.to_owned(), weight: weight_name.to_owned() },
        );
    }
    let mut numerator: V = V::zero();
    let mut denominator: V = V::zero();
    let length: usize = metric.len();
    let mut row: usize = 0;
    while row < length
        invariant
            row <= length,
            length == metric@.len(),
            numerator == sum_of(row_products(metric@.take(row as int), weights@)),
            denominator == sum_of(row_weights(metric@.take(row as int), weights@)),
        decreases length - row,
    {
        proof {
            let narrow = metric@.take(row as int);
            let wide = metric@.take(row + 1);
            assert(wide.drop_last() =~= narrow);
            assert(wide.last() == metric@[row as int]);
            let weight = at_label(weights@, metric@[row as int].0).absolute_spec();
            sum_push(row_weights(narrow, weights@), weight);
            sum_push(row_products(narrow, weights@), metric@[row as int].1.times_spec(weight));
        }
        let weight = weights.lookup(metric.stock(row).as_str()).absolute();
        if !weight.is_missing() {
            denominator = denominator.plus(weight);
            let product = metric.value(row).times(weight);
            if !product.is_missing() {
                numerator = numerator.plus(product);
            }
        }
        row += 1;
    }
    assert(metric@.take(row as int) =~= metric@);
    Ok(numerator.over(denominator))
}

/// The method that a name stands for.
pub open spec fn weight_method(name: Seq<char>) -> Option<IndicatorWeightMethod> {
    if name == "mean"@ {
        Some(IndicatorWeightMethod::Mean)
    } else if name == "amount_weighted"@ {
        Some(IndicatorWeightMethod::AmountWeighted)
    } else if name == "value_weighted"@ {
        Some(IndicatorWeightMethod::ValueWeighted)
    } else {
        None
    }
}

/// Reads the name of a weight method.
pub fn parse_weight_method(value: &str) -> (result: Result<IndicatorWeightMethod, IndicatorError>)
    ensures
        match result {
            Ok(method) => weight_method(value@) == Some(method),
            Err(IndicatorError::UnsupportedWeightMethod(name)) => weight_method(value@) is None && name@ == value@,
            Err(_) => false,
        },
{
    if same_text(value, "mean") {
        Ok(IndicatorWeightMethod::Mean)
    } else if same_text(value, "amount_weighted") {
        Ok(IndicatorWeightMethod::AmountWeighted)
    } else if same_text(value, "value_weighted") {
        Ok(IndicatorWeightMethod::ValueWeighted)
    } else {
        Err(IndicatorError::UnsupportedWeightMethod(value.to_owned()))
    }
}

impl IndicatorWeightMethod {
    /// The name of the method.
    pub fn name(self) -> (result: String)
        ensures
            result@ == match self {
                IndicatorWeightMethod::Mean => "mean"@,
                IndicatorWeightMethod::AmountWeighted => "amount_weighted"@,
                IndicatorWeightMethod::ValueWeighted => "value_weighted"@,
            },
    {
        match self {
            IndicatorWeightMethod::Mean => "mean".to_owned(),
            IndicatorWeightMethod::AmountWeighted => "amount_weighted".to_owned(),
            IndicatorWeightMethod::ValueWeighted => "value_weighted".to_owned(),
        }
    }
}

/// The average of a metric under a weight method.
pub open spec fn averaged<V: Number>(
    metric: Entries<V>,
    method: IndicatorWeightMethod,
    deal_amount: Entries<V>,
    trade_value: Entries<V>,
) -> V {
    match method {
        IndicatorWeightMethod::Mean => mean_of_present(metric.map_values(|entry: (Seq<char>, V)| entry.1)),
        IndicatorWeightMethod::AmountWeighted => sum_of(row_products(metric, deal_amount)).over_spec(
            sum_of(row_weights(metric, deal_amount)),
        ),
        IndicatorWeightMethod::ValueWeighted => sum_of(row_products(metric, trade_value)).over_spec(
            sum_of(row_weights(metric, trade_value)),
        ),
    }
}

/// The label of the weights of a method that carry other stocks than the metric.
pub open spec fn mismatched_weights<V: Number>(
    metric: Entries<V>,
    method: IndicatorWeightMethod,
    deal_amount: Entries<V>,
    trade_value: Entries<V>,
) -> Option<Seq<char>> {
    match method {
        IndicatorWeightMethod::Mean => None,
        IndicatorWeightMethod::AmountWeighted => if same_labels(metric, deal_amount) {
            None
        } else {
            Some("deal_amount"@)
        },
        IndicatorWeightMethod::ValueWeighted => if same_labels(metric, trade_value) {
            None
        } else {
            Some("trade_value"@)
        },
    }
}

/// Averages a metric over its stocks.
pub fn aggregate_weighted<V: Number>(
    metric_name: &str,
    metric: &MetricSnapshot<V>,
    method: IndicatorWeightMethod,
    deal_amount: &MetricSnapshot<V>,
    trade_value: &MetricSnapshot<V>,
) -> (result: Result<V, IndicatorError>)
    ensures
        match result {
            Ok(value) => mismatched_weights(metric@, method, deal_amount@, trade_value@) is None && value == averaged(
                metric@,
                method,
                deal_amount@,
                trade_value@,
            ),
            Err(IndicatorError::IndexMismatch { metric: left, weight: right }) => left@ == metric_name@
                && mismatched_weights(metric@, method, deal_amount@, trade_value@) == Some(right@),
            Err(_) => false,
        },
{
    match method {
        IndicatorWeightMethod::Mean => Ok(nan_mean(metric.values())),
        IndicatorWeightMethod::AmountWeighted => weighted_mean(metric_name, metric, "deal_amount", deal_amount),
        IndicatorWeightMethod::ValueWeighted => weighted_mean(metric_name, metric, "trade_value", trade_value),
    }
}

// ---- laws -------------------------------------------------------------------------------------

/// The product of two metrics is, stock by stock, the product of what they hold, whichever of them
/// comes first.
pub proof fn products_multiply_their_metrics(
    mode: IndicatorAggregationMode,
    left: MetricSnapshot<Ticks>,
    right: MetricSnapshot<Ticks>,
    result: Result<MetricSnapshot<Ticks>, IndicatorError>,
    turned: Result<MetricSnapshot<Ticks>, IndicatorError>,
    place: int,
    other: int,
)
    requires
        call_ensures(multiply_metrics::<Ticks>, (mode, &left, &right), result),
        call_ensures(multiply_metrics::<Ticks>, (mode, &right, &left), turned),
        result is Ok && turned is Ok,
        0 <= place < result->Ok_0@.len(),
        0 <= other < turned->Ok_0@.len(),
        result->Ok_0@[place].0 == turned->Ok_0@[other].0,
    ensures
        result->Ok_0@[place].1 == turned->Ok_0@[other].1,
        result->Ok_0@[place].1.0 is Some ==> held(result->Ok_0@[place].1) == held(
            at_label(left@, result->Ok_0@[place].0),
        ) * held(at_label(right@, result->Ok_0@[place].0)),
        result->Ok_0@[place].1.0 is None ==> {
            let (a, b) = (at_label(left@, result->Ok_0@[place].0), at_label(right@, result->Ok_0@[place].0));
            a.0 is None || b.0 is None || !fits(held(a) * held(b))
        },
{
    let stock = result->Ok_0@[place].0;
    let (a, b) = (at_label(left@, stock), at_label(right@, stock));
    if a.0 is Some && b.0 is Some {
        assert(held(a) * held(b) == held(b) * held(a)) by (nonlinear_arith);
    }
}

/// The sum of present quantities and the sum of quantities with zeros in place of missing ones are
/// what the present ones come to.
pub proof fn present_sums_add_up(values: Seq<Ticks>)
    ensures
        sum_of(present(values)).0 is Some ==> held(sum_of(present(values))) == present_total(values),
        sum_of(zero_filled(values)).0 is Some ==> held(sum_of(zero_filled(values))) == present_total(values),
        present_count(values) == 0 <==> forall|i: int| 0 <= i < values.len() ==> (#[trigger] values[i]).0 is None,
    decreases values.len(),
{
    reveal(Seq::filter);
    if values.len() > 0 {
        let fewer = values.drop_last();
        present_sums_add_up(fewer);
        assert(fewer.push(values.last()) =~= values);
        present_push(fewer, values.last());
        sum_push(present(fewer), values.last());
        assert(zero_filled(values).drop_last() =~= zero_filled(fewer));
        if values.last().0 is Some {
            assert(values[values.len() - 1].0 is Some);
        }
        if forall|i: int| 0 <= i < values.len() ==> (#[trigger] values[i]).0 is None {
            assert forall|i: int| 0 <= i < fewer.len() implies (#[trigger] fewer[i]).0 is None by {
                assert(values[i].0 is None);
            }
        }
        if forall|i: int| 0 <= i < fewer.len() ==> (#[trigger] fewer[i]).0 is None {
            assert forall|i: int| 0 <= i < values.len() && values.last().0 is None implies (#[trigger] values[i]).0 is None by {
                if i < fewer.len() {
                    assert(fewer[i].0 is None);
                }
            }
        }
    } else {
        assert(present(values) =~= Seq::<Ticks>::empty());
        assert(zero_filled(values) =~= Seq::<Ticks>::empty());
    }
}

/// What several metrics hold of a stock.
pub open spec fn held_of(metrics: Seq<&MetricSnapshot<Ticks>>, stock: Seq<char>) -> Seq<Ticks> {
    Seq::new(metrics.len(), |i: int| at_label(metrics[i]@, stock))
}

/// Metrics add up stock by stock: what is missing counts for nothing. Where all of them miss a stock,
/// the sum is zero among dense metrics and missing otherwise.
pub proof fn aggregates_add_up_what_is_there(
    mode: IndicatorAggregationMode,
    metrics: &[&MetricSnapshot<Ticks>],
    dense_index: Option<&[String]>,
    result: MetricSnapshot<Ticks>,
    place: int,
)
    requires
        call_ensures(aggregate_metric::<Ticks>, (mode, metrics, dense_index), result),
        0 <= place < result@.len(),
    ensures
        ({
            let values = held_of(metrics@, result@[place].0);
            let none = forall|i: int| 0 <= i < values.len() ==> (#[trigger] values[i]).0 is None;
            &&& result@[place].1.0 is Some ==> held(result@[place].1) == present_total(values)
            &&& none && mode == IndicatorAggregationMode::DenseZeroFill ==> result@[place].1 == Ticks(Some(0))
            &&& none && mode == IndicatorAggregationMode::PandasFillValue ==> result@[place].1.0 is None
        }),
{
    let stock = result@[place].0;
    let values = held_of(metrics@, stock);
    assert(result@[place].1 == column_value(mode, stock_values(all_entries(metrics@), stock)));
    assert(stock_values(all_entries(metrics@), stock) =~= values);
    present_sums_add_up(values);
    if forall|i: int| 0 <= i < values.len() ==> (#[trigger] values[i]).0 is None {
        zeros_stay_zero(values);
    }
}

proof fn zeros_stay_zero(values: Seq<Ticks>)
    requires
        forall|i: int| 0 <= i < values.len() ==> (#[trigger] values[i]).0 is None,
    ensures
        sum_of(zero_filled(values)) == Ticks(Some(0)),
    decreases values.len(),
{
    if values.len() > 0 {
        let fewer = values.drop_last();
        assert forall|i: int| 0 <= i < fewer.len() implies (#[trigger] fewer[i]).0 is None by {
            assert(values[i].0 is None);
        }
        zeros_stay_zero(fewer);
        assert(values[values.len() - 1].0 is None);
        assert(zero_filled(values).drop_last() =~= zero_filled(fewer));
    } else {
        assert(zero_filled(values) =~= Seq::<Ticks>::empty());
    }
}

/// A price that is there, times the amount, is the notional it came of; an amount of zero has no price.
pub proof fn prices_times_amounts_are_notionals(
    notional: MetricSnapshot<Ticks>,
    amount: MetricSnapshot<Ticks>,
    result: MetricSnapshot<Ticks>,
    place: int,
)
    requires
        call_ensures(divide_trade_price::<Ticks>, (&notional, &amount), result),
        0 <= place < result@.len(),
    ensures
        result@[place].1.0 is Some ==> held(result@[place].1) * held(at_label(amount@, result@[place].0)) == held(
            at_label(notional@, result@[place].0),
        ),
        at_label(amount@, result@[place].0) == Ticks(Some(0)) ==> result@[place].1.0 is None,
{
    let stock = result@[place].0;
    assert(result@[place].1 == unit_price(at_label(notional@, stock), at_label(amount@, stock)));
    if result@[place].1.0 is Some {
        quotients_undo(at_label(notional@, stock), at_label(amount@, stock));
    }
}

/// The advantage of a price follows the direction. A sell gains what it gets above the base price, in
/// base prices, and a buy what it pays below it.
pub proof fn advantages_follow_the_direction(
    mode: IndicatorAggregationMode,
    trade_dir: MetricSnapshot<Ticks>,
    trade_price: MetricSnapshot<Ticks>,
    base_price: MetricSnapshot<Ticks>,
    result: Result<MetricSnapshot<Ticks>, IndicatorError>,
    place: int,
)
    requires
        call_ensures(calculate_price_advantage::<Ticks>, (mode, &trade_dir, &trade_price, &base_price), result),
        result is Ok,
        0 <= place < result->Ok_0@.len(),
        result->Ok_0@[place].1.0 is Some,
    ensures
        ({
            let (stock, gain) = (result->Ok_0@[place].0, held(result->Ok_0@[place].1));
            let price = held(at_label(trade_price@, stock));
            let base = held(at_label(base_price@, stock));
            &&& base > 0
            &&& at_label(trade_dir@, stock) == Ticks(Some(0)) ==> gain * base == price - base
            &&& at_label(trade_dir@, stock) == Ticks(Some(1)) ==> gain * base == base - price
        }),
{
    let stock = result->Ok_0@[place].0;
    let (dir, price, base) = (at_label(trade_dir@, stock), at_label(trade_price@, stock), at_label(base_price@, stock));
    let share = price.over_spec(base);
    assert(share.0 is Some);
    quotients_undo(price, base);
    let (s, b) = (held(share), held(base));
    assert((s - 1) * b == s * b - b) by (nonlinear_arith);
    assert((-1 * (s - 1)) * b == b - s * b) by (nonlinear_arith);
    assert(0 * 2 == 0 && 1 * 2 == 2 && 1 * (s - 1) == s - 1);
}

/// For the same two prices a buy loses what a sell gains.
pub proof fn buys_lose_what_sells_gain(
    mode: IndicatorAggregationMode,
    sells: MetricSnapshot<Ticks>,
    buys: MetricSnapshot<Ticks>,
    trade_price: MetricSnapshot<Ticks>,
    base_price: MetricSnapshot<Ticks>,
    gained: Result<MetricSnapshot<Ticks>, IndicatorError>,
    lost: Result<MetricSnapshot<Ticks>, IndicatorError>,
    place: int,
    other: int,
)
    requires
        call_ensures(calculate_price_advantage::<Ticks>, (mode, &sells, &trade_price, &base_price), gained),
        call_ensures(calculate_price_advantage::<Ticks>, (mode, &buys, &trade_price, &base_price), lost),
        gained is Ok && lost is Ok,
        0 <= place < gained->Ok_0@.len(),
        0 <= other < lost->Ok_0@.len(),
        gained->Ok_0@[place].0 == lost->Ok_0@[other].0,
        at_label(sells@, gained->Ok_0@[place].0) == Ticks(Some(0)),
        at_label(buys@, gained->Ok_0@[place].0) == Ticks(Some(1)),
        gained->Ok_0@[place].1.0 is Some,
    ensures
        lost->Ok_0@[other].1.0 is Some,
        held(gained->Ok_0@[place].1) + held(lost->Ok_0@[other].1) == 0,
{
    let stock = gained->Ok_0@[place].0;
    let share = at_label(trade_price@, stock).over_spec(at_label(base_price@, stock));
    let s = held(share);
    assert(0 * 2 == 0 && 1 * 2 == 2 && 1 * (s - 1) == s - 1 && -1 * (s - 1) == 1 - s);
}

/// A fill rate that is there, times the target, is what was dealt; where nothing is known to be dealt,
/// nothing was.
pub proof fn fill_rates_times_targets_are_deals(
    amount: MetricSnapshot<Ticks>,
    deal_amount: MetricSnapshot<Ticks>,
    result: MetricSnapshot<Ticks>,
    place: int,
)
    requires
        call_ensures(calculate_fulfillment_rate::<Ticks>, (&amount, &deal_amount), result),
        0 <= place < result@.len(),
        result@[place].1.0 is Some,
    ensures
        result@.len() == amount@.len(),
        result@[place].0 == amount@[place].0,
        ({
            let deal = at_label(deal_amount@, amount@[place].0);
            held(result@[place].1) * held(amount@[place].1) == if deal.0 is Some {
                held(deal)
            } else {
                0
            }
        }),
{
    assert(names_of(result@).len() == names_of(amount@).len());
    assert(names_of(result@)[place] == names_of(amount@)[place]);
    let deal = at_label(deal_amount@, result@[place].0);
    quotients_undo(
        if deal.0 is None {
            Ticks(Some(0))
        } else {
            deal
        },
        amount@[place].1,
    );
}

/// The size of a number.
pub open spec fn size(value: int) -> int {
    if value < 0 {
        -value
    } else {
        value
    }
}

/// What the sizes of the weights of some rows come to together.
pub open spec fn total_weight(rows: Entries<Ticks>, weights: Entries<Ticks>) -> int
    decreases rows.len(),
{
    if rows.len() == 0 {
        0
    } else {
        total_weight(rows.drop_last(), weights) + size(held(at_label(weights, rows.last().0)))
    }
}

/// What the values of some rows come to together, each as often as the size of its weight says.
pub open spec fn weighted_total(rows: Entries<Ticks>, weights: Entries<Ticks>) -> int
    decreases rows.len(),
{
    if rows.len() == 0 {
        0
    } else {
        weighted_total(rows.drop_last(), weights) + held(rows.last().1) * size(held(at_label(weights, rows.last().0)))
    }
}

/// Whether every row has a value and a weight, and they can be multiplied.
pub open spec fn are_weighed(rows: Entries<Ticks>, weights: Entries<Ticks>) -> bool {
    forall|i: int|
        0 <= i < rows.len() ==> (#[trigger] rows[i]).1.0 is Some && at_label(weights, rows[i].0).0 is Some && held(
            at_label(weights, rows[i].0),
        ) != i64::MIN && fits(held(rows[i].1) * size(held(at_label(weights, rows[i].0))))
}

proof fn weighed_sums_are_totals(rows: Entries<Ticks>, weights: Entries<Ticks>)
    requires
        are_weighed(rows, weights),
    ensures
        sum_of(row_weights(rows, weights)).0 is Some ==> held(sum_of(row_weights(rows, weights))) == total_weight(
            rows,
            weights,
        ),
        sum_of(row_products(rows, weights)).0 is Some ==> held(sum_of(row_products(rows, weights))) == weighted_total(
            rows,
            weights,
        ),
    decreases rows.len(),
{
    if rows.len() > 0 {
        let fewer = rows.drop_last();
        assert forall|i: int| 0 <= i < fewer.len() implies (#[trigger] fewer[i]).1.0 is Some && at_label(
            weights,
            fewer[i].0,
        ).0 is Some && held(at_label(weights, fewer[i].0)) != i64::MIN && fits(
            held(fewer[i].1) * size(held(at_label(weights, fewer[i].0))),
        ) by {
            assert(rows[i] == fewer[i]);
        }
        weighed_sums_are_totals(fewer, weights);
        assert(rows[rows.len() - 1] == rows.last());
        let weight = at_label(weights, rows.last().0).absolute_spec();
        sum_push(row_weights(fewer, weights), weight);
        sum_push(row_products(fewer, weights), rows.last().1.times_spec(weight));
    }
}

/// A weighted mean that is there, taken as often as the weights say together, is what the values come
/// to, each taken as often as the size of its weight says.
pub proof fn weighted_means_balance(
    metric_name: &str,
    metric: MetricSnapshot<Ticks>,
    weight_name: &str,
    weights: MetricSnapshot<Ticks>,
    result: Result<Ticks, IndicatorError>,
)
    requires
        call_ensures(weighted_mean::<Ticks>, (metric_name, &metric, weight_name, &weights), result),
        are_weighed(metric@, weights@),
        result is Ok && result->Ok_0.0 is Some,
    ensures
        held(result->Ok_0) * total_weight(metric@, weights@) == weighted_total(metric@, weights@),
        total_weight(metric@, weights@) > 0,
{
    weighed_sums_are_totals(metric@, weights@);
    quotients_undo(sum_of(row_products(metric@, weights@)), sum_of(row_weights(metric@, weights@)));
}

/// A metric is averaged plainly, by the dealt amounts or by the traded values, as the method says.
pub proof fn methods_choose_their_weights<V: Number>(
    name: &str,
    metric: MetricSnapshot<V>,
    method: IndicatorWeightMethod,
    deal_amount: MetricSnapshot<V>,
    trade_value: MetricSnapshot<V>,
    result: Result<V, IndicatorError>,
    by_amount: Result<V, IndicatorError>,
    by_value: Result<V, IndicatorError>,
    plain: V,
    values: &[V],
)
    requires
        call_ensures(aggregate_weighted::<V>, (name, &metric, method, &deal_amount, &trade_value), result),
        call_ensures(weighted_mean::<V>, (name, &metric, "deal_amount", &deal_amount), by_amount),
        call_ensures(weighted_mean::<V>, (name, &metric, "trade_value", &trade_value), by_value),
        call_ensures(MetricSnapshot::<V>::values, (&metric,), values),
        call_ensures(nan_mean::<V>, (values,), plain),
    ensures
        method == IndicatorWeightMethod::Mean ==> result is Ok && result->Ok_0 == plain,
        method == IndicatorWeightMethod::AmountWeighted ==> (result is Ok <==> by_amount is Ok) && (result is Ok
            ==> result->Ok_0 == by_amount->Ok_0),
        method == IndicatorWeightMethod::ValueWeighted ==> (result is Ok <==> by_value is Ok) && (result is Ok
            ==> result->Ok_0 == by_value->Ok_0),
{
    assert(metric@.map_values(|entry: (Seq<char>, V)| entry.1) =~= values@);
}

/// The name of a method stands for it, and for no other.
pub proof fn method_names_are_read_back(
    method: IndicatorWeightMethod,
    name: String,
    text: &str,
    read: Result<IndicatorWeightMethod, IndicatorError>,
)
    requires
        call_ensures(IndicatorWeightMethod::name, (method,), name),
        text@ == name@,
        call_ensures(parse_weight_method, (text,), read),
    ensures
        read == Ok::<IndicatorWeightMethod, IndicatorError>(method),
{
    reveal_strlit("mean");
    reveal_strlit("amount_weighted");
    reveal_strlit("value_weighted");
    assert("mean"@.len() == 4 && "amount_weighted"@.len() == 15 && "value_weighted"@.len() == 14);
}

/// A metric without a stock adds nothing to the sum of the others.
pub proof fn metrics_without_a_stock_add_nothing(
    mode: IndicatorAggregationMode,
    metrics: &[&MetricSnapshot<Ticks>],
    more: &[&MetricSnapshot<Ticks>],
    dense_index: Option<&[String]>,
    result: MetricSnapshot<Ticks>,
    beside: MetricSnapshot<Ticks>,
    place: int,
    other: int,
)
    requires
        call_ensures(aggregate_metric::<Ticks>, (mode, metrics, dense_index), result),
        call_ensures(aggregate_metric::<Ticks>, (mode, more, dense_index), beside),
        more@.len() == metrics@.len() + 1,
        more@.drop_last() == metrics@,
        0 <= place < result@.len(),
        0 <= other < beside@.len(),
        result@[place].0 == beside@[other].0,
        at_label(more@.last()@, result@[place].0).0 is None,
    ensures
        result@[place].1 == beside@[other].1,
{
    let stock = result@[place].0;
    let values = stock_values(all_entries(metrics@), stock);
    let longer = stock_values(all_entries(more@), stock);
    let last = at_label(more@.last()@, stock);
    assert(result@[place].1 == column_value(mode, values));
    assert(beside@[other].1 == column_value(mode, longer));
    assert forall|i: int| 0 <= i < values.len() implies values[i] == #[trigger] longer[i] by {
        assert(more@.drop_last()[i] == metrics@[i]);
    }
    assert(values.push(last) =~= longer);
    present_push(values, last);
    assert(zero_filled(longer) =~= zero_filled(values).push(Ticks(Some(0))));
    sum_push(zero_filled(values), Ticks(Some(0)));
}

/// Where nothing was dealt for a target above zero, or nothing is known of it, nothing is filled; and
/// where all of it was dealt, all of it is.
pub proof fn fill_rates_reach_from_nothing_to_all(
    amount: MetricSnapshot<Ticks>,
    deal_amount: MetricSnapshot<Ticks>,
    result: MetricSnapshot<Ticks>,
    place: int,
)
    requires
        call_ensures(calculate_fulfillment_rate::<Ticks>, (&amount, &deal_amount), result),
        0 <= place < amount@.len(),
        amount@[place].1.0 is Some,
        held(amount@[place].1) > 0,
    ensures
        result@.len() == amount@.len(),
        ({
            let deal = at_label(deal_amount@, amount@[place].0);
            &&& deal.0 is None || deal == Ticks(Some(0)) ==> result@[place].1 == Ticks(Some(0))
            &&& deal == amount@[place].1 ==> result@[place].1 == Ticks(Some(1))
        }),
{
    assert(names_of(result@).len() == names_of(amount@).len());
    assert(names_of(result@)[place] == names_of(amount@)[place]);
    let target = held(amount@[place].1);
    vstd::arithmetic::div_mod::lemma_fundamental_div_mod_converse(0, target, 0, 0);
    vstd::arithmetic::div_mod::lemma_fundamental_div_mod_converse(target, target, 1, 0);
}

/// At a price of some whole base prices a sell gains all but the first of them, and a buy loses them; at
/// the base price itself neither side gains anything.
pub proof fn multiples_of_the_base_are_gained(
    mode: IndicatorAggregationMode,
    trade_dir: MetricSnapshot<Ticks>,
    trade_price: MetricSnapshot<Ticks>,
    base_price: MetricSnapshot<Ticks>,
    result: Result<MetricSnapshot<Ticks>, IndicatorError>,
    place: int,
    times: i64,
    base: i64,
)
    requires
        call_ensures(calculate_price_advantage::<Ticks>, (mode, &trade_dir, &trade_price, &base_price), result),
        result is Ok,
        0 <= place < result->Ok_0@.len(),
        base > 0 && times >= 0 && fits(times * base),
        at_label(base_price@, result->Ok_0@[place].0) == Ticks(Some(base)),
        at_label(trade_price@, result->Ok_0@[place].0) == ticks(times * base),
    ensures
        at_label(trade_dir@, result->Ok_0@[place].0) == Ticks(Some(0)) ==> result->Ok_0@[place].1 == ticks(times - 1),
        at_label(trade_dir@, result->Ok_0@[place].0) == Ticks(Some(1)) ==> result->Ok_0@[place].1 == ticks(1 - times),
{
    let stock = result->Ok_0@[place].0;
    let (dir, price, low) = (at_label(trade_dir@, stock), at_label(trade_price@, stock), at_label(base_price@, stock));
    assert(result->Ok_0@[place].1 == advantage(dir, price, low));
    let (worth, b, k) = (times * base, base as int, times as int);
    assert(worth >= 0 && worth == b * k) by (nonlinear_arith)
        requires
            worth == k * b,
            b > 0,
            k >= 0,
    ;
    vstd::arithmetic::div_mod::lemma_fundamental_div_mod_converse(worth, b, k, 0);
    assert(price.over_spec(low) == Ticks(Some(times)));
    assert(0 * 2 == 0 && 1 * 2 == 2 && 1 * (k - 1) == k - 1 && -1 * (k - 1) == 1 - k);
}

} // verus!
