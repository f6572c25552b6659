//! Metric stores, and the aggregation of their columns.
use vstd::prelude::*;

use crate::metric_snapshot::{all_entries, at_label, increasing_is_distinct, is_sorted_union, sorted_union, texts, zipped, Entries, MetricSnapshot};
use crate::number::{held, present_total, quotients_undo, Number, Ticks};
use crate::ordered::{distinct_names, names_of, value_of, with_entry, OrderedMap};
use crate::report_indicator::{
    aggregate_metric, column_value, divide_trade_price, is_aggregate, multiply_metrics, present_sums_add_up, stock_values,
    unit_price, IndicatorAggregationMode, IndicatorError,
};

verus! {

/// The columns of a store, in the order in which they were first assigned.
pub type Columns<V> = Seq<(Seq<char>, Entries<V>)>;

/// Access to the metrics of one execution level.
pub trait IndicatorStoreAccess<V: Number>: Sized {
    /// The stored metrics.
    open spec fn columns(&self) -> Columns<V> {
        arbitrary()
    }

    /// The missing-value behaviour of the store.
    open spec fn mode(&self) -> IndicatorAggregationMode {
        arbitrary()
    }

    /// The names of the metrics, in order.
    fn metric_names(&self) -> (result: Vec<String>)
        ensures
            texts(result@) == names_of(self.columns()),
    ;

    /// One metric.
    fn metric_snapshot(&self, name: &str) -> (result: Option<MetricSnapshot<V>>)
        ensures
            match result {
                Some(metric) => value_of(self.columns(), name@) == Some(metric@),
                None => value_of(self.columns(), name@) is None,
            },
    ;

    /// Assigns or replaces one metric.
    fn assign_snapshot(&mut self, name: &str, metric: MetricSnapshot<V>)
        ensures
            final(self).columns() == with_entry(old(self).columns(), name@, metric@),
            final(self).mode() == old(self).mode(),
    ;

    fn aggregation_mode(&self) -> (result: IndicatorAggregationMode)
        ensures
            result == self.mode(),
    ;
}

/// A store that starts without metrics.
pub trait IndicatorStore<V: Number>: IndicatorStoreAccess<V> {
    fn fresh() -> (result: Self)
        ensures
            result.columns().len() == 0,
    ;
}

/// A store that keeps its metrics in memory, with dense aggregation.
pub struct DenseStore<V> {
    metrics: OrderedMap<MetricSnapshot<V>>,
}

/// The contents of named metrics.
pub open spec fn viewed<V>(entries: Seq<(Seq<char>, MetricSnapshot<V>)>) -> Columns<V> {
    entries.map_values(|entry: (Seq<char>, MetricSnapshot<V>)| (entry.0, entry.1@))
}

proof fn viewed_find<V>(entries: Seq<(Seq<char>, MetricSnapshot<V>)>, name: Seq<char>)
    ensures
        crate::ordered::find_name(viewed(entries), name) == crate::ordered::find_name(entries, name),
{
    crate::ordered::find_name_finds(entries, name);
    crate::ordered::find_name_finds(viewed(entries), name);
    match crate::ordered::find_name(entries, name) {
        Some(position) => {
            assert forall|i: int| 0 <= i < position implies viewed(entries)[i].0 != name by {
                assert(entries[i].0 != name);
            }
            crate::ordered::find_name_is(viewed(entries), name, position);
        },
        None => {
            if crate::ordered::find_name(viewed(entries), name) is Some {
                let position = crate::ordered::find_name(viewed(entries), name)->Some_0;
                assert(entries[position].0 == name);
            }
        },
    }
}

proof fn viewed_with_entry<V>(entries: Seq<(Seq<char>, MetricSnapshot<V>)>, name: Seq<char>, metric: MetricSnapshot<V>)
    ensures
        viewed(with_entry(entries, name, metric)) == with_entry(viewed(entries), name, metric@),
{
    viewed_find(entries, name);
    crate::ordered::find_name_finds(entries, name);
    assert(viewed(with_entry(entries, name, metric)) =~= with_entry(viewed(entries), name, metric@));
}

impl<V: Number> IndicatorStoreAccess<V> for DenseStore<V> {
    closed spec fn columns(&self) -> Columns<V> {
        viewed(self.metrics@)
    }

    open spec fn mode(&self) -> IndicatorAggregationMode {
        IndicatorAggregationMode::DenseZeroFill
    }

    fn metric_names(&self) -> (result: Vec<String>) {
        let mut names: Vec<String> = Vec::new();
        let length: usize = self.metrics.len();
        let mut i: usize = 0;
        while i < length
            invariant
                i <= length,
                length == self.metrics@.len(),
                names@.len() == i,
                forall|j: int| 0 <= j < i ==> (#[trigger] names@[j])@ == self.metrics@[j].0,
            decreases length - i,
        {
            names.push(self.metrics.name_at(i).clone());
            i += 1;
        }
        assert(texts(names@) =~= names_of(self.columns()));
        names
    }

    fn metric_snapshot(&self, name: &str) -> (result: Option<MetricSnapshot<V>>) {
        proof {
            viewed_find(self.metrics@, name@);
            crate::ordered::find_name_finds(self.metrics@, name@);
        }
        match self.metrics.get(name) {
            Some(metric) => Some(metric.copied()),
            None => None,
        }
    }

    fn assign_snapshot(&mut self, name: &str, metric: MetricSnapshot<V>) {
        proof {
            viewed_with_entry(self.metrics@, name@, metric);
        }
        self.metrics.insert(name.to_owned(), metric);
    }

    fn aggregation_mode(&self) -> (result: IndicatorAggregationMode) {
        IndicatorAggregationMode::DenseZeroFill
    }
}

impl<V: Number> IndicatorStore<V> for DenseStore<V> {
    fn fresh() -> (result: Self) {
        DenseStore { metrics: OrderedMap::new() }
    }
}

/// A metric of a store, or the failure that names it.
pub fn store_metric<V: Number, S: IndicatorStoreAccess<V>>(store: &S, name: &str) -> (result: Result<
    MetricSnapshot<V>,
    IndicatorError,
>)
    ensures
        match result {
            Ok(metric) => value_of(store.columns(), name@) == Some(metric@),
            Err(IndicatorError::MissingMetric(text)) => value_of(store.columns(), name@) is None && text@ == name@,
            Err(_) => false,
        },
{
    match store.metric_snapshot(name) {
        Some(metric) => Ok(metric),
        None => Err(IndicatorError::MissingMetric(name.to_owned())),
    }
}

/// Whether a store's prices were replaced by signed traded notionals.
pub open spec fn notional_transformed<V: Number>(
    mode: IndicatorAggregationMode,
    before: Columns<V>,
    after: Columns<V>,
) -> bool {
    let deal = value_of(before, "deal_amount"@);
    let price = value_of(before, "trade_price"@);
    exists|notional: Entries<V>| #[trigger]
        is_product(notional, mode, deal->Some_0, price->Some_0) && deal is Some && price is Some && after == with_entry(
            before,
            "trade_price"@,
            notional,
        )
}

/// Whether `product` is the label-aligned product of two metrics.
pub open spec fn is_product<V: Number>(
    product: Entries<V>,
    mode: IndicatorAggregationMode,
    left: Entries<V>,
    right: Entries<V>,
) -> bool {
    let same = crate::metric_snapshot::same_labels(left, right);
    &&& mode == IndicatorAggregationMode::DenseZeroFill ==> same
    &&& same ==> names_of(product) == names_of(left)
    &&& !same ==> is_sorted_union(names_of(product), seq![left, right])
    &&& forall|i: int|
        0 <= i < product.len() ==> (#[trigger] product[i]).1 == at_label(left, product[i].0).times_spec(
            at_label(right, product[i].0),
        )
}

/// Why a store's prices cannot be replaced by notionals: a metric is missing, amounts before
/// prices, or dense metrics carry different stocks.
pub open spec fn notional_refused<V: Number>(
    mode: IndicatorAggregationMode,
    columns: Columns<V>,
    error: IndicatorError,
) -> bool {
    let deal = value_of(columns, "deal_amount"@);
    let price = value_of(columns, "trade_price"@);
    match error {
        IndicatorError::MissingMetric(name) => {
            ||| name@ == "deal_amount"@ && deal is None
            ||| name@ == "trade_price"@ && deal is Some && price is None
        },
        IndicatorError::IndexMismatch { metric, weight } => {
            &&& metric@ == "deal_amount"@
            &&& weight@ == "trade_price"@
            &&& deal is Some
            &&& price is Some
            &&& mode == IndicatorAggregationMode::DenseZeroFill
            &&& !crate::metric_snapshot::same_labels(deal->Some_0, price->Some_0)
        },
        _ => false,
    }
}

/// Replaces the trade prices of a store by signed traded notionals.
///
/// A missing metric is reported first, amounts before prices, then differing stocks. A failure
/// leaves the store as it was.
pub fn transform_trade_notional<V: Number, S: IndicatorStoreAccess<V>>(
    store: &mut S,
    mode: IndicatorAggregationMode,
) -> (result: Result<(), IndicatorError>)
    ensures
        final(store).mode() == old(store).mode(),
        match result {
            Ok(_) => notional_transformed(mode, old(store).columns(), final(store).columns()),
            Err(error) => final(store).columns() == old(store).columns() && notional_refused(
                mode,
                old(store).columns(),
                error,
            ),
        },
{
    let ghost before = store.columns();
    let deal_amount = match store_metric(&*store, "deal_amount") {
        Ok(metric) => metric,
        Err(error) => return Err(error),
    };
    let trade_price = match store_metric(&*store, "trade_price") {
        Ok(metric) => metric,
        Err(error) => return Err(error),
    };
    let notional = match multiply_metrics(mode, &deal_amount, &trade_price) {
        Ok(metric) => metric,
        Err(error) => return Err(error),
    };
    let ghost product = notional@;
    assert(is_product(product, mode, deal_amount@, trade_price@));
    store.assign_snapshot("trade_price", notional);
    proof {
        assert(is_product(product, mode, value_of(before, "deal_amount"@)->Some_0, value_of(before, "trade_price"@)->Some_0));
        assert(store.columns() == with_entry(before, "trade_price"@, product));
    }
    Ok(())
}


/// One access to the columns that take part in an aggregation.
pub enum ColumnEvent<V> {
    /// A column of an input store was read.
    Read { store: nat, name: Seq<char>, found: Result<Entries<V>, IndicatorError> },
    /// A column of the output store was written.
    Write { name: Seq<char>, metric: Entries<V>, failure: Option<IndicatorError> },
}

/// The stores that take part in an aggregation.
pub struct ColumnSource<V> {
    /// The columns of every store at the start.
    pub before: Seq<Columns<V>>,
    /// The positions of the input stores.
    pub inner: Seq<usize>,
    /// The position of the output store.
    pub output: int,
}

/// What a read gave.
pub open spec fn found_metric<V>(result: Result<MetricSnapshot<V>, IndicatorError>) -> Result<Entries<V>, IndicatorError> {
    match result {
        Ok(metric) => Ok(metric@),
        Err(error) => Err(error),
    }
}

/// Where columns are read from and written to, one access at a time.
pub trait MetricColumns<V: Number>: Sized {
    /// Every access so far.
    open spec fn events(&self) -> Seq<ColumnEvent<V>> {
        arbitrary()
    }

    /// Whether the accesses explain the contents.
    open spec fn sound(&self) -> bool {
        arbitrary()
    }

    /// The stores that take part, as they were at the start.
    open spec fn source(&self) -> ColumnSource<V> {
        arbitrary()
    }

    /// Reads a column of an input store.
    fn read(&mut self, store: usize, name: &str) -> (result: Result<MetricSnapshot<V>, IndicatorError>)
        requires
            old(self).sound(),
            store < old(self).source().inner.len(),
        ensures
            final(self).sound(),
            final(self).source() == old(self).source(),
            final(self).events() == old(self).events().push(
                ColumnEvent::Read {
                    store: store as nat,
                    name: name@,
                    found: found_metric(result),
                },
            ),
    ;

    /// Writes a column of the output store.
    fn write(&mut self, name: &str, metric: MetricSnapshot<V>) -> (result: Result<(), IndicatorError>)
        requires
            old(self).sound(),
        ensures
            final(self).sound(),
            final(self).source() == old(self).source(),
            final(self).events() == old(self).events().push(
                ColumnEvent::Write {
                    name: name@,
                    metric: metric@,
                    failure: match result {
                        Ok(_) => None,
                        Err(error) => Some(error),
                    },
                },
            ),
    ;
}

/// The aggregated columns, in the order in which they are written.
pub open spec fn column_name(column: int) -> Seq<char> {
    if column == 0 {
        "inner_amount"@
    } else if column == 1 {
        "deal_amount"@
    } else if column == 2 {
        "trade_price"@
    } else if column == 3 {
        "trade_value"@
    } else if column == 4 {
        "trade_cost"@
    } else {
        "trade_dir"@
    }
}

fn column_text(column: usize) -> (result: &'static str)
    requires
        column < 6,
    ensures
        result@ == column_name(column as int),
{
    if column == 0 {
        "inner_amount"
    } else if column == 1 {
        "deal_amount"
    } else if column == 2 {
        "trade_price"
    } else if column == 3 {
        "trade_value"
    } else if column == 4 {
        "trade_cost"
    } else {
        "trade_dir"
    }
}

/// Reads of one column from the first stores.
pub open spec fn reads<V>(name: Seq<char>, found: Seq<Entries<V>>) -> Seq<ColumnEvent<V>> {
    Seq::new(found.len(), |i: int| ColumnEvent::Read { store: i as nat, name, found: Ok(found[i]) })
}

/// A successful write.
pub open spec fn written<V>(name: Seq<char>, metric: Entries<V>) -> ColumnEvent<V> {
    ColumnEvent::Write { name, metric, failure: None }
}

/// What was read and summed in the course of an aggregation.
pub struct ColumnRun<V> {
    /// The stock universe's reads; empty unless aggregation is dense.
    pub universe: Seq<Entries<V>>,
    /// What was read of every column, by column and store.
    pub found: Seq<Seq<Entries<V>>>,
    /// What the columns add up to.
    pub sums: Seq<Entries<V>>,
}

/// The accesses up to and including the write of the first `columns` columns.
pub open spec fn columns_done<V>(run: ColumnRun<V>, columns: int) -> Seq<ColumnEvent<V>>
    decreases columns,
{
    if columns <= 0 {
        reads(column_name(0), run.universe)
    } else {
        columns_done(run, columns - 1) + reads(column_name(columns - 1), run.found[columns - 1]).push(
            written(column_name(columns - 1), run.sums[columns - 1]),
        )
    }
}

/// The stock universe that dense aggregation fixes first.
pub open spec fn universe_names(mode: IndicatorAggregationMode, names: Seq<Seq<char>>) -> Option<Seq<Seq<char>>> {
    match mode {
        IndicatorAggregationMode::DenseZeroFill => Some(names),
        IndicatorAggregationMode::PandasFillValue => None,
    }
}

/// Whether the first columns of a run were read from every store and summed over the universe.
pub open spec fn run_sums<V: Number>(
    mode: IndicatorAggregationMode,
    stores: nat,
    run: ColumnRun<V>,
    names: Seq<Seq<char>>,
) -> bool {
    &&& mode == IndicatorAggregationMode::DenseZeroFill ==> run.universe.len() == stores && is_sorted_union(
        names,
        run.universe,
    )
    &&& mode == IndicatorAggregationMode::PandasFillValue ==> run.universe.len() == 0
    &&& run.sums.len() <= run.found.len()
    &&& forall|column: int|
        0 <= column < run.sums.len() ==> #[trigger] run.found[column].len() == stores && is_aggregate(
            run.sums[column],
            mode,
            run.found[column],
            universe_names(mode, names),
        )
}

/// The direction that a summed direction stands for: buying above zero, selling otherwise.
pub open spec fn direction_of<V: Number>(value: V) -> V {
    if V::zero_spec().below_spec(value) {
        V::one_spec()
    } else {
        V::zero_spec()
    }
}

/// Whether `price` holds the summed notionals divided by the summed amounts.
pub open spec fn is_unit_price<V: Number>(price: Entries<V>, notional: Entries<V>, amount: Entries<V>) -> bool {
    &&& is_sorted_union(names_of(price), seq![notional, amount])
    &&& forall|i: int|
        0 <= i < price.len() ==> (#[trigger] price[i]).1 == unit_price(
            at_label(notional, price[i].0),
            at_label(amount, price[i].0),
        )
}

/// The summed directions, each turned into the direction that it stands for.
pub open spec fn directions<V: Number>(sums: Entries<V>) -> Entries<V> {
    sums.map_values(|entry: (Seq<char>, V)| (entry.0, direction_of(entry.1)))
}

/// Whether `events` are the accesses of a complete aggregation.
pub open spec fn aggregation_done<V: Number>(
    mode: IndicatorAggregationMode,
    stores: nat,
    events: Seq<ColumnEvent<V>>,
    run: ColumnRun<V>,
    names: Seq<Seq<char>>,
    price: Entries<V>,
) -> bool {
    &&& run_sums(mode, stores, run, names)
    &&& run.sums.len() == 6
    &&& is_unit_price(price, run.sums[2], run.sums[1])
    &&& events == columns_done(run, 6).push(written("trade_price"@, price)).push(
        written("trade_dir"@, directions(run.sums[5])),
    )
}

/// Whether `events` are the accesses of an aggregation that stopped at its first failure, with
/// the error that the failed access gave.
pub open spec fn aggregation_stopped<V: Number>(
    mode: IndicatorAggregationMode,
    stores: nat,
    events: Seq<ColumnEvent<V>>,
    error: IndicatorError,
    run: ColumnRun<V>,
    names: Seq<Seq<char>>,
    price: Entries<V>,
) -> bool {
    let column = run.sums.len() as int;
    let got = run.found[column];
    ||| universe_stopped(mode, stores, events, error, run.universe)
    ||| run_sums(mode, stores, run, names) && column < 6 && column < run.found.len() && got.len() < stores && events
        == (columns_done(run, column) + reads(column_name(column), got)).push(
        ColumnEvent::Read { store: got.len(), name: column_name(column), found: Err(error) },
    )
    ||| run_sums(mode, stores, run, names) && column < 6 && column < run.found.len() && got.len() == stores
        && is_aggregate(price, mode, got, universe_names(mode, names)) && events == (columns_done(run, column) + reads(
        column_name(column),
        got,
    )).push(ColumnEvent::Write { name: column_name(column), metric: price, failure: Some(error) })
    ||| run_sums(mode, stores, run, names) && column == 6 && is_unit_price(price, run.sums[2], run.sums[1]) && (events
        == columns_done(run, 6).push(
        ColumnEvent::Write { name: "trade_price"@, metric: price, failure: Some(error) },
    ) || events == columns_done(run, 6).push(written("trade_price"@, price)).push(
        ColumnEvent::Write { name: "trade_dir"@, metric: directions(run.sums[5]), failure: Some(error) },
    ))
}

/// Whether dense aggregation stopped while it read the stock universe.
pub open spec fn universe_stopped<V: Number>(
    mode: IndicatorAggregationMode,
    stores: nat,
    events: Seq<ColumnEvent<V>>,
    error: IndicatorError,
    universe: Seq<Entries<V>>,
) -> bool {
    &&& mode == IndicatorAggregationMode::DenseZeroFill
    &&& universe.len() < stores
    &&& events == reads(column_name(0), universe).push(
        ColumnEvent::Read { store: universe.len(), name: column_name(0), found: Err(error) },
    )
}

/// The entries of several owned metrics.
pub open spec fn owned_entries<V>(metrics: Seq<MetricSnapshot<V>>) -> Seq<Entries<V>> {
    metrics.map_values(|metric: MetricSnapshot<V>| metric@)
}

/// Borrows every metric of a list.
fn borrowed<'a, V>(metrics: &'a Vec<MetricSnapshot<V>>) -> (result: Vec<&'a MetricSnapshot<V>>)
    ensures
        all_entries(result@) == owned_entries(metrics@),
{
    let mut list: Vec<&'a MetricSnapshot<V>> = Vec::new();
    let mut i: usize = 0;
    while i < metrics.len()
        invariant
            i <= metrics@.len(),
            list@.len() == i,
            forall|j: int| 0 <= j < i ==> *#[trigger] list@[j] == metrics@[j],
        decreases metrics@.len() - i,
    {
        list.push(&metrics[i]);
        i += 1;
    }
    assert(all_entries(list@) =~= owned_entries(metrics@));
    list
}

/// Reads one column from every store, up to the first failure.
fn read_column<V: Number, C: MetricColumns<V>>(access: &mut C, stores: usize, name: &str) -> (result: Result<
    Vec<MetricSnapshot<V>>,
    (Ghost<Seq<Entries<V>>>, IndicatorError),
>)
    requires
        old(access).sound(),
        stores <= old(access).source().inner.len(),
    ensures
        final(access).sound(),
        final(access).source() == old(access).source(),
        match result {
            Ok(metrics) => metrics@.len() == stores && final(access).events() == old(access).events() + reads(
                name@,
                owned_entries(metrics@),
            ),
            Err((got, error)) => got@.len() < stores && final(access).events() == old(access).events() + reads(
                name@,
                got@,
            ).push(ColumnEvent::Read { store: got@.len(), name: name@, found: Err(error) }),
        },
{
    let mut metrics: Vec<MetricSnapshot<V>> = Vec::new();
    let ghost start = access.events();
    let mut store: usize = 0;
    assert(access.events() =~= start + reads(name@, owned_entries(metrics@)));
    while store < stores
        invariant
            store <= stores,
            access.sound(),
            access.source() == old(access).source(),
            stores <= access.source().inner.len(),
            start == old(access).events(),
            metrics@.len() == store,
            access.events() == start + reads(name@, owned_entries(metrics@)),
        decreases stores - store,
    {
        let ghost before = owned_entries(metrics@);
        match access.read(store, name) {
            Ok(metric) => {
                metrics.push(metric);
                proof {
                    assert(owned_entries(metrics@) =~= before.push(metric@));
                    assert(access.events() =~= start + reads(name@, owned_entries(metrics@)));
                }
            },
            Err(error) => {
                proof {
                    assert(access.events() =~= start + reads(name@, before).push(
                        ColumnEvent::Read { store: before.len(), name: name@, found: Err(error) },
                    ));
                }
                return Err((Ghost(before), error));
            },
        }
        store += 1;
    }
    Ok(metrics)
}

/// The summed directions, each turned into the direction that it stands for.
fn parse_directions<V: Number>(sums: &MetricSnapshot<V>) -> (result: MetricSnapshot<V>)
    ensures
        result@ == directions(sums@),
{
    let index = crate::metric_snapshot::label_list(sums);
    let mut values: Vec<V> = Vec::new();
    let length: usize = sums.len();
    let mut row: usize = 0;
    while row < length
        invariant
            row <= length,
            length == sums@.len(),
            values@.len() == row,
            forall|i: int| 0 <= i < row ==> #[trigger] values@[i] == direction_of(sums@[i].1),
        decreases length - row,
    {
        let value = sums.value(row);
        values.push(
            if V::zero().below(value) {
                V::one()
            } else {
                V::zero()
            },
        );
        row += 1;
    }
    proof {
        assert(texts(index@).len() == names_of(sums@).len());
        assert forall|i: int| 0 <= i < index@.len() implies (#[trigger] index@[i])@ == sums@[i].0 by {
            assert(texts(index@)[i] == names_of(sums@)[i]);
        }
        assert(zipped(index@, values@) =~= directions(sums@));
    }
    MetricSnapshot::from_parts(index, values)
}

/// Adds up the columns of several stores into an output store.
///
/// Dense aggregation reads the stock universe first. Every column is read from all stores and
/// then written; at the end the summed notionals become prices again and the summed directions
/// become directions. What was written before a failure stays written.
pub fn aggregate_columns<V: Number, C: MetricColumns<V>>(
    mode: IndicatorAggregationMode,
    stores: usize,
    access: &mut C,
) -> (result: Result<(), IndicatorError>)
    requires
        old(access).sound(),
        stores <= old(access).source().inner.len(),
    ensures
        final(access).sound(),
        final(access).source() == old(access).source(),
        match result {
            Ok(_) => exists|events: Seq<ColumnEvent<V>>, run: ColumnRun<V>, names: Seq<Seq<char>>, price: Entries<V>|
                final(access).events() == old(access).events() + events && #[trigger] aggregation_done(
                    mode,
                    stores as nat,
                    events,
                    run,
                    names,
                    price,
                ),
            Err(error) => exists|
                events: Seq<ColumnEvent<V>>,
                run: ColumnRun<V>,
                names: Seq<Seq<char>>,
                price: Entries<V>,
            |
                final(access).events() == old(access).events() + events && #[trigger] aggregation_stopped(
                    mode,
                    stores as nat,
                    events,
                    error,
                    run,
                    names,
                    price,
                ),
        },
{
    let ghost start = access.events();
    let ghost mut run: ColumnRun<V> = ColumnRun { universe: Seq::empty(), found: Seq::empty(), sums: Seq::empty() };
    let ghost mut names: Seq<Seq<char>> = Seq::empty();
    let dense_index: Option<Vec<String>> = match mode {
        IndicatorAggregationMode::DenseZeroFill => {
            match read_column(access, stores, "inner_amount") {
                Ok(metrics) => {
                    let union = sorted_union(borrowed(&metrics).as_slice());
                    proof {
                        run.universe = owned_entries(metrics@);
                        names = texts(union@);
                        increasing_is_distinct(union@, union@);
                    }
                    Some(union)
                },
                Err((got, error)) => {
                    proof {
                        let events = reads(column_name(0), got@).push(
                            ColumnEvent::Read { store: got@.len(), name: column_name(0), found: Err(error) },
                        );
                        run.universe = got@;
                        assert(universe_stopped(mode, stores as nat, events, error, run.universe));
                        assert(aggregation_stopped(mode, stores as nat, events, error, run, names, Seq::empty()));
                    }
                    return Err(error);
                },
            }
        },
        IndicatorAggregationMode::PandasFillValue => {
            assert(start + reads(column_name(0), Seq::<Entries<V>>::empty()) =~= start);
            None
        },
    };
    let mut sums: Vec<MetricSnapshot<V>> = Vec::new();
    let mut column: usize = 0;
    proof {
        assert(owned_entries(sums@) =~= Seq::<Entries<V>>::empty());
    }
    while column < 6
        invariant
            column <= 6,
            access.sound(),
            access.source() == old(access).source(),
            stores <= access.source().inner.len(),
            sums@.len() == column,
            run.sums == owned_entries(sums@),
            run.found.len() == column,
            run_sums(mode, stores as nat, run, names),
            access.events() == start + columns_done(run, column as int),
            match dense_index {
                Some(union) => mode == IndicatorAggregationMode::DenseZeroFill && names == texts(union@)
                    && distinct_names(zipped(union@, union@)),
                None => mode == IndicatorAggregationMode::PandasFillValue,
            },
            start == old(access).events(),
        decreases 6 - column,
    {
        let name = column_text(column);
        let ghost before = run;
        let metrics = match read_column(access, stores, name) {
            Ok(metrics) => metrics,
            Err((got, error)) => {
                proof {
                    let stopped = ColumnRun { found: run.found.push(got@), ..run };
                    let events = (columns_done(stopped, column as int) + reads(name@, got@)).push(
                        ColumnEvent::Read { store: got@.len(), name: name@, found: Err(error) },
                    );
                    done_is_stable(run, stopped, column as int);
                    sums_are_stable(mode, stores as nat, run, stopped, names);
                    assert(access.events() =~= start + events);
                    assert(aggregation_stopped(mode, stores as nat, events, error, stopped, names, Seq::empty()));
                }
                return Err(error);
            },
        };
        let slice: Option<&[String]> = match &dense_index {
            Some(union) => Some(union.as_slice()),
            None => None,
        };
        let list = borrowed(&metrics);
        let metric = aggregate_metric(mode, list.as_slice(), slice);
        proof {
            run.found = run.found.push(owned_entries(metrics@));
            done_is_stable(before, run, column as int);
            sums_are_stable(mode, stores as nat, before, run, names);
        }
        let kept = metric.copied();
        match access.write(name, metric) {
            Ok(()) => {},
            Err(error) => {
                proof {
                    let events = (columns_done(run, column as int) + reads(name@, owned_entries(metrics@))).push(
                        ColumnEvent::Write { name: name@, metric: metric@, failure: Some(error) },
                    );
                    assert(access.events() =~= start + events);
                    assert(aggregation_stopped(mode, stores as nat, events, error, run, names, metric@));
                }
                return Err(error);
            },
        }
        let ghost middle = run;
        let ghost earlier = sums@;
        sums.push(kept);
        proof {
            run.sums = run.sums.push(kept@);
            assert(owned_entries(sums@) =~= owned_entries(earlier).push(kept@));
            done_is_stable(middle, run, column as int);
            assert(columns_done(run, column + 1) =~= columns_done(run, column as int) + reads(
                column_name(column as int),
                run.found[column as int],
            ).push(written(column_name(column as int), run.sums[column as int])));
            assert(access.events() =~= start + columns_done(run, column + 1));
        }
        column += 1;
    }
    let price = divide_trade_price(&sums[2], &sums[1]);
    let dir = parse_directions(&sums[5]);
    let ghost unit = price@;
    let ghost parsed = dir@;
    proof {
        assert(run.sums[2] == sums@[2]@ && run.sums[1] == sums@[1]@ && run.sums[5] == sums@[5]@);
        assert(is_unit_price(unit, run.sums[2], run.sums[1]));
        assert(parsed == directions(run.sums[5]));
    }
    match access.write("trade_price", price) {
        Ok(()) => {},
        Err(error) => {
            proof {
                let events = columns_done(run, 6).push(
                    ColumnEvent::Write { name: "trade_price"@, metric: unit, failure: Some(error) },
                );
                assert(access.events() =~= start + events);
                assert(aggregation_stopped(mode, stores as nat, events, error, run, names, unit));
            }
            return Err(error);
        },
    }
    match access.write("trade_dir", dir) {
        Ok(()) => {
            proof {
                let events = columns_done(run, 6).push(written("trade_price"@, unit)).push(
                    written("trade_dir"@, directions(run.sums[5])),
                );
                assert(access.events() =~= start + events);
                assert(aggregation_done(mode, stores as nat, events, run, names, unit));
            }
            Ok(())
        },
        Err(error) => {
            proof {
                let events = columns_done(run, 6).push(written("trade_price"@, unit)).push(
                    ColumnEvent::Write { name: "trade_dir"@, metric: directions(run.sums[5]), failure: Some(error) },
                );
                assert(access.events() =~= start + events);
                assert(aggregation_stopped(mode, stores as nat, events, error, run, names, unit));
            }
            Err(error)
        },
    }
}

/// The accesses of the first columns depend on those columns only.
proof fn done_is_stable<V>(a: ColumnRun<V>, b: ColumnRun<V>, columns: int)
    requires
        a.universe == b.universe,
        columns <= a.found.len(),
        columns <= b.found.len(),
        columns <= a.sums.len(),
        columns <= b.sums.len(),
        forall|i: int| 0 <= i < columns ==> #[trigger] a.found[i] == b.found[i],
        forall|i: int| 0 <= i < columns ==> #[trigger] a.sums[i] == b.sums[i],
    ensures
        columns_done(a, columns) == columns_done(b, columns),
    decreases columns,
{
    if columns > 0 {
        done_is_stable(a, b, columns - 1);
        assert(a.found[columns - 1] == b.found[columns - 1]);
        assert(a.sums[columns - 1] == b.sums[columns - 1]);
    }
}

proof fn sums_are_stable<V: Number>(
    mode: IndicatorAggregationMode,
    stores: nat,
    a: ColumnRun<V>,
    b: ColumnRun<V>,
    names: Seq<Seq<char>>,
)
    requires
        run_sums(mode, stores, a, names),
        a.universe == b.universe,
        a.sums == b.sums,
        a.found.len() < b.found.len(),
        forall|i: int| 0 <= i < a.found.len() ==> #[trigger] b.found[i] == a.found[i],
    ensures
        run_sums(mode, stores, b, names),
{
    assert forall|column: int| 0 <= column < b.sums.len() implies #[trigger] b.found[column].len() == stores
        && is_aggregate(b.sums[column], mode, b.found[column], universe_names(mode, names)) by {
        assert(a.found[column].len() == stores);
    }
}


/// The columns of every store after the successful writes of a log.
pub open spec fn replay<V>(before: Seq<Columns<V>>, output: int, events: Seq<ColumnEvent<V>>) -> Seq<Columns<V>>
    decreases events.len(),
{
    if events.len() == 0 {
        before
    } else {
        let earlier = replay(before, output, events.drop_last());
        match events.last() {
            ColumnEvent::Write { name, metric, failure: None } => earlier.update(
                output,
                with_entry(earlier[output], name, metric),
            ),
            _ => earlier,
        }
    }
}

/// Whether every read of a log gave what the store held at that moment.
pub open spec fn reads_hold<V>(before: Seq<Columns<V>>, inner: Seq<usize>, output: int, events: Seq<ColumnEvent<V>>) -> bool
    decreases events.len(),
{
    events.len() == 0 || {
        &&& reads_hold(before, inner, output, events.drop_last())
        &&& match events.last() {
            ColumnEvent::Read { store, name, found } => {
                let held = value_of(replay(before, output, events.drop_last())[inner[store as int] as int], name);
                match found {
                    Ok(entries) => held == Some(entries),
                    Err(IndicatorError::MissingMetric(text)) => held is None && text@ == name,
                    Err(_) => false,
                }
            },
            ColumnEvent::Write { failure, .. } => failure is None,
        }
    }
}

/// The columns of every store.
pub open spec fn contents<V: Number, S: IndicatorStoreAccess<V>>(stores: Seq<S>) -> Seq<Columns<V>> {
    stores.map_values(|store: S| store.columns())
}

/// Stores that take part in one aggregation, by position: the inputs, which may repeat, and the
/// output, which may be one of them.
struct StoreColumns<V, S> {
    stores: Vec<S>,
    inner: Vec<usize>,
    output: usize,
    before: Ghost<Seq<Columns<V>>>,
    log: Ghost<Seq<ColumnEvent<V>>>,
}

impl<V: Number, S: IndicatorStoreAccess<V>> MetricColumns<V> for StoreColumns<V, S> {
    closed spec fn events(&self) -> Seq<ColumnEvent<V>> {
        self.log@
    }

    closed spec fn sound(&self) -> bool {
        &&& self.before@.len() == self.stores@.len()
        &&& self.output < self.stores@.len()
        &&& forall|i: int| 0 <= i < self.inner@.len() ==> #[trigger] self.inner@[i] < self.stores@.len()
        &&& contents(self.stores@) == replay(self.before@, self.output as int, self.log@)
        &&& reads_hold(self.before@, self.inner@, self.output as int, self.log@)
    }

    closed spec fn source(&self) -> ColumnSource<V> {
        ColumnSource { before: self.before@, inner: self.inner@, output: self.output as int }
    }

    fn read(&mut self, store: usize, name: &str) -> (result: Result<MetricSnapshot<V>, IndicatorError>) {
        let result = store_metric(&self.stores[self.inner[store]], name);
        let ghost event = ColumnEvent::Read {
            store: store as nat,
            name: name@,
            found: found_metric(result),
        };
        proof {
            assert(self.log@.push(event).drop_last() =~= self.log@);
        }
        self.log = Ghost(self.log@.push(event));
        result
    }

    fn write(&mut self, name: &str, metric: MetricSnapshot<V>) -> (result: Result<(), IndicatorError>) {
        let ghost event = ColumnEvent::Write { name: name@, metric: metric@, failure: None };
        let ghost earlier = contents(self.stores@);
        let output: usize = self.output;
        self.stores[output].assign_snapshot(name, metric);
        proof {
            assert(self.log@.push(event).drop_last() =~= self.log@);
        }
        self.log = Ghost(self.log@.push(event));
        proof {
            assert(contents(self.stores@) =~= replay(self.before@, self.output as int, self.log@));
        }
        Ok(())
    }
}


/// Whether one store was transformed and the others were left alone.
pub open spec fn one_transformed<V: Number>(
    mode: IndicatorAggregationMode,
    store: int,
    before: Seq<Columns<V>>,
    after: Seq<Columns<V>>,
) -> bool {
    &&& after == before.update(store, after[store])
    &&& notional_transformed(mode, before[store], after[store])
}

/// Whether `states` are the successive contents of all stores while the stores at the first
/// input positions are transformed one after another.
pub open spec fn transformations<V: Number>(
    mode: IndicatorAggregationMode,
    inner: Seq<usize>,
    states: Seq<Seq<Columns<V>>>,
) -> bool {
    &&& 0 < states.len() <= inner.len() + 1
    &&& forall|i: int|
        0 <= i < states.len() - 1 ==> one_transformed(mode, inner[i] as int, #[trigger] states[i], states[i + 1])
}

/// Whether the stores at the first `count` input positions were transformed one after another.
pub open spec fn inputs_transformed<V: Number>(
    mode: IndicatorAggregationMode,
    inner: Seq<usize>,
    count: int,
    before: Seq<Columns<V>>,
    after: Seq<Columns<V>>,
) -> bool {
    exists|states: Seq<Seq<Columns<V>>>| #[trigger]
        transformations(mode, inner, states) && states.len() == count + 1 && states.first() == before && states.last()
            == after
}

proof fn one_more_transformed<V: Number>(
    mode: IndicatorAggregationMode,
    inner: Seq<usize>,
    count: int,
    before: Seq<Columns<V>>,
    middle: Seq<Columns<V>>,
    after: Seq<Columns<V>>,
)
    requires
        0 <= count < inner.len(),
        inputs_transformed(mode, inner, count, before, middle),
        one_transformed(mode, inner[count] as int, middle, after),
    ensures
        inputs_transformed(mode, inner, count + 1, before, after),
{
    let states = choose|states: Seq<Seq<Columns<V>>>| #[trigger]
        transformations(mode, inner, states) && states.len() == count + 1 && states.first() == before && states.last()
            == middle;
    let longer = states.push(after);
    assert forall|i: int| 0 <= i < longer.len() - 1 implies one_transformed(
        mode,
        inner[i] as int,
        #[trigger] longer[i],
        longer[i + 1],
    ) by {
        assert(longer[i] == states[i]);
        if i < states.len() - 1 {
            assert(one_transformed(mode, inner[i] as int, states[i], states[i + 1]));
        }
    }
    assert(transformations(mode, inner, longer));
}

/// Whether an aggregation of stores succeeded and what it left behind.
pub open spec fn stores_aggregated<V: Number>(
    mode: IndicatorAggregationMode,
    inner: Seq<usize>,
    output: int,
    before: Seq<Columns<V>>,
    after: Seq<Columns<V>>,
) -> bool {
    exists|middle: Seq<Columns<V>>, events: Seq<ColumnEvent<V>>, run: ColumnRun<V>, names: Seq<Seq<char>>, price: Entries<V>|
        inputs_transformed(mode, inner, inner.len() as int, before, middle) && #[trigger] aggregation_done(
            mode,
            inner.len(),
            events,
            run,
            names,
            price,
        ) && reads_hold(middle, inner, output, events) && after == #[trigger] replay(middle, output, events)
}

/// Whether an aggregation of stores stopped with an error and what it left behind.
pub open spec fn stores_stopped<V: Number>(
    mode: IndicatorAggregationMode,
    inner: Seq<usize>,
    output: int,
    before: Seq<Columns<V>>,
    after: Seq<Columns<V>>,
    error: IndicatorError,
) -> bool {
    ||| exists|count: int|
        0 <= count < inner.len() && #[trigger] inputs_transformed(mode, inner, count, before, after) && notional_refused(
            mode,
            after[inner[count] as int],
            error,
        )
    ||| exists|middle: Seq<Columns<V>>, events: Seq<ColumnEvent<V>>, run: ColumnRun<V>, names: Seq<Seq<char>>, price: Entries<V>|
        inputs_transformed(mode, inner, inner.len() as int, before, middle) && #[trigger] aggregation_stopped(
            mode,
            inner.len(),
            events,
            error,
            run,
            names,
            price,
        ) && reads_hold(middle, inner, output, events) && after == #[trigger] replay(middle, output, events)
}

/// Aggregates the trade information of input stores into an output store.
///
/// Every occurrence of an input is transformed in list order first, then the columns are added
/// up. Inputs may repeat and may be the output itself. What was changed before a failure stays.
pub fn aggregate_stores<V: Number, S: IndicatorStoreAccess<V>>(
    stores: &mut Vec<S>,
    inner: &Vec<usize>,
    output: usize,
) -> (result: Result<(), IndicatorError>)
    requires
        output < old(stores)@.len(),
        forall|i: int| 0 <= i < inner@.len() ==> #[trigger] inner@[i] < old(stores)@.len(),
    ensures
        final(stores)@.len() == old(stores)@.len(),
        match result {
            Ok(_) => stores_aggregated(
                old(stores)@[output as int].mode(),
                inner@,
                output as int,
                contents(old(stores)@),
                contents(final(stores)@),
            ),
            Err(error) => stores_stopped(
                old(stores)@[output as int].mode(),
                inner@,
                output as int,
                contents(old(stores)@),
                contents(final(stores)@),
                error,
            ),
        },
{
    let mode = stores[output].aggregation_mode();
    let ghost before = contents(stores@);
    let mut i: usize = 0;
    proof {
        assert(transformations(mode, inner@, seq![before]));
    }
    while i < inner.len()
        invariant
            i <= inner@.len(),
            stores@.len() == old(stores)@.len(),
            output < stores@.len(),
            before == contents(old(stores)@),
            mode == old(stores)@[output as int].mode(),
            forall|j: int| 0 <= j < inner@.len() ==> #[trigger] inner@[j] < stores@.len(),
            inputs_transformed(mode, inner@, i as int, before, contents(stores@)),
        decreases inner@.len() - i,
    {
        let ghost middle = contents(stores@);
        let handle: usize = inner[i];
        let outcome = transform_trade_notional(&mut stores[handle], mode);
        proof {
            let after = contents(stores@);
            assert(after =~= middle.update(handle as int, stores@[handle as int].columns()));
            if outcome is Err {
                assert(after =~= middle);
            }
        }
        match outcome {
            Ok(_) => {},
            Err(error) => {
                return Err(error);
            },
        }
        proof {
            assert(notional_transformed(mode, middle[inner@[i as int] as int], stores@[handle as int].columns()));
            one_more_transformed(mode, inner@, i as int, before, middle, contents(stores@));
        }
        i += 1;
    }
    let ghost middle = contents(stores@);
    let mut held: Vec<S> = Vec::new();
    core::mem::swap(stores, &mut held);
    let mut access: StoreColumns<V, S> = StoreColumns {
        stores: held,
        inner: copy_handles(inner),
        output,
        before: Ghost(middle),
        log: Ghost(Seq::empty()),
    };
    let result = aggregate_columns(mode, inner.len(), &mut access);
    proof {
        assert(Seq::<ColumnEvent<V>>::empty() + access.log@ =~= access.log@);
        assert forall|events: Seq<ColumnEvent<V>>| #[trigger] (Seq::<ColumnEvent<V>>::empty() + events) == access.log@ implies events == access.log@ by {
            assert(Seq::<ColumnEvent<V>>::empty() + events =~= events);
        }
    }
    *stores = access.stores;
    result
}

fn copy_handles(handles: &Vec<usize>) -> (result: Vec<usize>)
    ensures
        result@ == handles@,
{
    let mut copy: Vec<usize> = Vec::new();
    let mut i: usize = 0;
    while i < handles.len()
        invariant
            i <= handles@.len(),
            copy@ == handles@.take(i as int),
        decreases handles@.len() - i,
    {
        copy.push(handles[i]);
        i += 1;
        assert(copy@ =~= handles@.take(i as int));
    }
    assert(copy@ =~= handles@);
    copy
}

/// Where the accesses of a column stand: its reads follow those of the columns before, one for each
/// store, and its write follows its reads.
proof fn columns_stand_in_order<V>(run: ColumnRun<V>, columns: int, column: int, stores: nat)
    requires
        0 <= columns <= run.sums.len() <= run.found.len(),
        forall|c: int| 0 <= c < run.sums.len() ==> (#[trigger] run.found[c]).len() == stores,
    ensures
        columns_done(run, columns).len() == run.universe.len() + columns * (stores + 1),
        0 <= column < columns ==> ({
            let at = run.universe.len() + column * (stores + 1);
            &&& forall|k: int|
                0 <= k < stores ==> #[trigger] columns_done(run, columns)[at + k] == (ColumnEvent::Read {
                    store: k as nat,
                    name: column_name(column),
                    found: Ok(run.found[column][k]),
                })
            &&& columns_done(run, columns)[at + stores] == written(column_name(column), run.sums[column])
            &&& at + stores < columns_done(run, columns).len()
        }),
    decreases columns,
{
    if columns > 0 {
        columns_stand_in_order(run, columns - 1, column, stores);
        assert((columns - 1) * (stores + 1) + (stores + 1) == columns * (stores + 1)) by (nonlinear_arith);
        assert(run.found[columns - 1].len() == stores);
        let added = reads(column_name(columns - 1), run.found[columns - 1]).push(
            written(column_name(columns - 1), run.sums[columns - 1]),
        );
        assert(added.len() == stores + 1);
        let before = columns_done(run, columns - 1);
        assert(columns_done(run, columns) == before + added);
        if 0 <= column < columns - 1 {
            assert(column * (stores + 1) + (stores + 1) <= (columns - 1) * (stores + 1)) by (nonlinear_arith)
                requires
                    column + 1 <= columns - 1,
            ;
            let at = run.universe.len() + column * (stores + 1);
            assert forall|k: int| 0 <= k < stores implies #[trigger] columns_done(run, columns)[at + k] == before[at
                + k] by {}
        }
        if column == columns - 1 {
            let at = run.universe.len() + column * (stores + 1);
            assert(at == before.len());
            assert forall|k: int| 0 <= k < stores implies #[trigger] columns_done(run, columns)[at + k] == (
            ColumnEvent::Read { store: k as nat, name: column_name(column), found: Ok(run.found[column][k]) }) by {
                assert((before + added)[at + k] == added[k]);
            }
            assert((before + added)[at + stores] == added[stores as int]);
        }
    }
}

/// The accesses of an aggregation that succeeds.
spec fn accesses(run: ColumnRun<Ticks>, price: Entries<Ticks>) -> Seq<ColumnEvent<Ticks>> {
    columns_done(run, 6).push(written("trade_price"@, price)).push(written("trade_dir"@, directions(run.sums[5])))
}

proof fn columns_stand_at_the_end(
    start: Seq<ColumnEvent<Ticks>>,
    run: ColumnRun<Ticks>,
    price: Entries<Ticks>,
    column: int,
    stores: nat,
)
    requires
        run.sums.len() == 6 <= run.found.len(),
        forall|c: int| 0 <= c < run.sums.len() ==> (#[trigger] run.found[c]).len() == stores,
        0 <= column < 6,
    ensures
        ({
            let all = start + accesses(run, price);
            let first = all.len() - 2 - 6 * (stores + 1);
            let at = first + column * (stores + 1);
            &&& start.len() <= first
            &&& forall|k: int|
                0 <= k < stores ==> #[trigger] all[at + k] == (ColumnEvent::Read {
                    store: k as nat,
                    name: column_name(column),
                    found: Ok(run.found[column][k]),
                })
            &&& all[at + stores] == written(column_name(column), run.sums[column])
            &&& all[all.len() - 2] == written("trade_price"@, price)
            &&& all[all.len() - 1] == written("trade_dir"@, directions(run.sums[5]))
        }),
{
    columns_stand_in_order(run, 6, column, stores);
    let done = columns_done(run, 6);
    let events = accesses(run, price);
    let all = start + events;
    let first = all.len() - 2 - 6 * (stores + 1);
    assert(first == start.len() + run.universe.len());
    let at = first + column * (stores + 1);
    let local = run.universe.len() + column * (stores + 1);
    assert forall|k: int| 0 <= k < stores implies #[trigger] all[at + k] == (ColumnEvent::Read {
        store: k as nat,
        name: column_name(column),
        found: Ok(run.found[column][k]),
    }) by {
        assert(all[at + k] == events[local + k]);
        assert(done[local + k] == events[local + k]);
    }
    assert(all[at + stores] == events[local + stores]);
    assert(done[local + stores] == events[local + stores]);
}

/// What an access read or wrote.
pub open spec fn metric_seen<V>(event: ColumnEvent<V>) -> Entries<V> {
    match event {
        ColumnEvent::Read { found, .. } => found->Ok_0,
        ColumnEvent::Write { metric, .. } => metric,
    }
}

/// The column that an access is about.
pub open spec fn column_seen<V>(event: ColumnEvent<V>) -> Seq<char> {
    match event {
        ColumnEvent::Read { name, .. } => name,
        ColumnEvent::Write { name, .. } => name,
    }
}

/// The accesses of an aggregation that succeeds end with those of six columns, each read from every
/// store and then written, and with two more writes. What is written of a column is, stock by stock,
/// what the stores hold of it together. The two writes at the end replace the notionals by prices,
/// which times the dealt amounts are the notionals, and the summed directions by one where something is
/// bought on the whole and by zero elsewhere.
pub proof fn columns_are_what_stores_hold_together<C: MetricColumns<Ticks>>(
    mode: IndicatorAggregationMode,
    stores: usize,
    access: &mut C,
    result: Result<(), IndicatorError>,
    column: int,
    place: int,
)
    requires
        call_ensures(aggregate_columns::<Ticks, C>, (mode, stores, access), result),
        result is Ok,
        0 <= column < 6,
    ensures
        ({
            let events = final(access).events();
            let first = events.len() - 2 - 6 * (stores + 1);
            let at = first + column * (stores + 1);
            let sums = metric_seen(events[at + stores]);
            let amounts = metric_seen(events[first + (stores + 1) + stores]);
            let notionals = metric_seen(events[first + 2 * (stores + 1) + stores]);
            let sides = metric_seen(events[events.len() - 3]);
            let prices = metric_seen(events[events.len() - 2]);
            let dirs = metric_seen(events[events.len() - 1]);
            &&& old(access).events().len() <= first
            &&& column_seen(events[at + stores]) == if column == 0 {
                "inner_amount"@
            } else if column == 1 {
                "deal_amount"@
            } else if column == 2 {
                "trade_price"@
            } else if column == 3 {
                "trade_value"@
            } else if column == 4 {
                "trade_cost"@
            } else {
                "trade_dir"@
            }
            &&& forall|k: int|
                0 <= k < stores ==> (#[trigger] events[at + k] matches ColumnEvent::Read { store, name, found } && store == k
                    && name == column_seen(events[at + stores]) && found is Ok)
            &&& 0 <= place < sums.len() && sums[place].1.0 is Some ==> held(sums[place].1) == present_total(
                Seq::new(stores as nat, |k: int| at_label(metric_seen(events[at + k]), sums[place].0)),
            )
            &&& column_seen(events[events.len() - 2]) == "trade_price"@
            &&& 0 <= place < prices.len() && prices[place].1.0 is Some ==> held(prices[place].1) * held(
                at_label(amounts, prices[place].0),
            ) == held(at_label(notionals, prices[place].0))
            &&& column_seen(events[events.len() - 1]) == "trade_dir"@
            &&& dirs.len() == sides.len()
            &&& 0 <= place < dirs.len() ==> dirs[place].0 == sides[place].0 && dirs[place].1.0 is Some && held(
                dirs[place].1,
            ) == if sides[place].1.0 is Some && held(sides[place].1) > 0 {
                1int
            } else {
                0int
            }
        }),
{
    let all = final(access).events();
    let (events, run, names, price) = choose|
        events: Seq<ColumnEvent<Ticks>>,
        run: ColumnRun<Ticks>,
        names: Seq<Seq<char>>,
        price: Entries<Ticks>,
    |
        final(access).events() == old(access).events() + events && #[trigger] aggregation_done(
            mode,
            stores as nat,
            events,
            run,
            names,
            price,
        );
    let n = stores as nat;
    let start = old(access).events();
    assert forall|c: int| 0 <= c < run.sums.len() implies (#[trigger] run.found[c]).len() == stores by {}
    columns_stand_at_the_end(start, run, price, column, n);
    columns_stand_at_the_end(start, run, price, 1, n);
    columns_stand_at_the_end(start, run, price, 2, n);
    columns_stand_at_the_end(start, run, price, 5, n);
    assert(all == start + accesses(run, price));
    let first = all.len() - 2 - 6 * (n + 1);
    let at = first + column * (n + 1);
    let sums = run.sums[column];
    if 0 <= place < sums.len() && sums[place].1.0 is Some {
        let stock = sums[place].0;
        assert(run.found[column].len() == stores);
        let values = stock_values(run.found[column], stock);
        assert(sums[place].1 == column_value(mode, values));
        present_sums_add_up(values);
        assert(values =~= Seq::new(n, |k: int| at_label(metric_seen(all[at + k]), stock)));
    }
    if 0 <= place < price.len() && price[place].1.0 is Some {
        let stock = price[place].0;
        assert(price[place].1 == unit_price(at_label(run.sums[2], stock), at_label(run.sums[1], stock)));
        quotients_undo(at_label(run.sums[2], stock), at_label(run.sums[1], stock));
    }
}

/// Trade prices become notionals: what was dealt times its price. Nothing else of the store changes,
/// and a failure changes nothing at all.
pub proof fn notionals_are_amounts_times_prices<S: IndicatorStoreAccess<Ticks>>(
    store: &mut S,
    mode: IndicatorAggregationMode,
    result: Result<(), IndicatorError>,
    place: int,
    other: Seq<char>,
)
    requires
        call_ensures(transform_trade_notional::<Ticks, S>, (store, mode), result),
    ensures
        result is Err ==> final(store).columns() == old(store).columns(),
        result is Ok ==> ({
            let (before, after) = (old(store).columns(), final(store).columns());
            let amounts = value_of(before, "deal_amount"@);
            let prices = value_of(before, "trade_price"@);
            let notionals = value_of(after, "trade_price"@);
            &&& amounts is Some && prices is Some && notionals is Some
            &&& 0 <= place < notionals->Some_0.len() && notionals->Some_0[place].1.0 is Some ==> held(
                notionals->Some_0[place].1,
            ) == held(at_label(amounts->Some_0, notionals->Some_0[place].0)) * held(
                at_label(prices->Some_0, notionals->Some_0[place].0),
            )
            &&& other != "trade_price"@ ==> value_of(after, other) == value_of(before, other)
        }),
{
    if result is Ok {
        let before = old(store).columns();
        let deal = value_of(before, "deal_amount"@);
        let price = value_of(before, "trade_price"@);
        let notional = choose|notional: Entries<Ticks>| #[trigger]
            is_product(notional, mode, deal->Some_0, price->Some_0) && deal is Some && price is Some
                && final(store).columns() == with_entry(before, "trade_price"@, notional);
        crate::ordered::read_after_write(before, "trade_price"@, notional);
        if other != "trade_price"@ {
            crate::ordered::write_keeps_others(before, "trade_price"@, notional, other);
        }
    }
}

} // verus!
