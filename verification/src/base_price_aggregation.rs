//! Aggregation of per-step base prices and volumes, with quotes for what is missing.
use vstd::prelude::*;

use crate::indicator_store::IndicatorStoreAccess;
use crate::metric_snapshot::{
    all_entries, at_label, increasing_is_distinct, is_sorted_union, sorted_union, texts, zipped, Entries,
    MetricSnapshot,
};
use crate::number::{fits, held, present, present_push, present_total, quotients_undo, sum_of, sum_push, Number, Ticks};
use crate::order::OrderDir;
use crate::ordered::{distinct_names, names_of, value_of, with_entry, OrderedMap};
use crate::report_indicator::present_sums_add_up;

verus! {

/// A stored direction that is neither a sell nor a buy where a quote is needed.
#[derive(Debug, PartialEq, Eq)]
pub struct InvalidDirection<V> {
    pub stock: String,
    pub direction: V,
}

/// The order side that a stored direction stands for.
pub open spec fn side_of<V: Number>(direction: V) -> Option<OrderDir> {
    if direction.equals_spec(V::zero_spec()) {
        Some(OrderDir::Sell)
    } else if direction.equals_spec(V::one_spec()) {
        Some(OrderDir::Buy)
    } else {
        None
    }
}

/// Reads a stored direction: zero sells, one buys, nothing else is accepted.
pub fn base_price_direction<V: Number>(stock: &str, direction: V) -> (result: Result<OrderDir, InvalidDirection<V>>)
    ensures
        match result {
            Ok(side) => side_of(direction) == Some(side),
            Err(error) => side_of(direction) is None && error.stock@ == stock@ && error.direction == direction,
        },
{
    if direction.equals(V::zero()) {
        Ok(OrderDir::Sell)
    } else if direction.equals(V::one()) {
        Ok(OrderDir::Buy)
    } else {
        Err(InvalidDirection { stock: stock.to_owned(), direction })
    }
}

/// A base price and the volume it stands for.
#[derive(Clone, Copy, Debug, PartialEq, Eq)]
pub struct BaseVolumePrice<V> {
    pub base_price: V,
    pub base_volume: V,
}

/// A quote that one step needs.
#[derive(Debug, PartialEq, Eq)]
pub struct QuoteRequest {
    pub stock: String,
    pub direction: OrderDir,
}

/// The rows of one step as far as they are known: how many stocks were handled, and the prices
/// and volumes kept for them.
pub struct StepRows<V> {
    pub row: int,
    pub prices: Entries<V>,
    pub volumes: Entries<V>,
}

/// Keeps the stored prices and volumes of stocks up to the next stock whose price is missing.
pub open spec fn kept<V: Number>(
    directions: Entries<V>,
    base_price: Entries<V>,
    base_volume: Entries<V>,
    rows: StepRows<V>,
) -> StepRows<V>
    decreases directions.len() - rows.row,
{
    if rows.row < 0 || rows.row >= directions.len() {
        rows
    } else {
        let stock = directions[rows.row].0;
        let price = at_label(base_price, stock);
        if price.missing() {
            rows
        } else {
            kept(
                directions,
                base_price,
                base_volume,
                StepRows {
                    row: rows.row + 1,
                    prices: with_entry(rows.prices, stock, price),
                    volumes: with_entry(rows.volumes, stock, at_label(base_volume, stock)),
                },
            )
        }
    }
}

/// Handles the current stock with a quote; without one the stock is left out.
pub open spec fn quoted<V: Number>(
    directions: Entries<V>,
    rows: StepRows<V>,
    quote: Option<BaseVolumePrice<V>>,
) -> StepRows<V> {
    let stock = directions[rows.row].0;
    match quote {
        Some(value) => StepRows {
            row: rows.row + 1,
            prices: with_entry(rows.prices, stock, value.base_price),
            volumes: with_entry(rows.volumes, stock, value.base_volume),
        },
        None => StepRows { row: rows.row + 1, ..rows },
    }
}

/// One step of the aggregation: the stored rows of that step are kept, and a quote is asked for
/// every stock whose price is missing.
pub struct BasePriceStepRows<V> {
    base_price: MetricSnapshot<V>,
    base_volume: MetricSnapshot<V>,
    row: usize,
    prices: OrderedMap<V>,
    volumes: OrderedMap<V>,
}

impl<V: Number> BasePriceStepRows<V> {
    /// The stored prices of the step.
    pub closed spec fn stored_prices(&self) -> Entries<V> {
        self.base_price@
    }

    /// The stored volumes of the step.
    pub closed spec fn stored_volumes(&self) -> Entries<V> {
        self.base_volume@
    }

    /// The rows as far as they are known.
    pub closed spec fn rows(&self) -> StepRows<V> {
        StepRows { row: self.row as int, prices: self.prices@, volumes: self.volumes@ }
    }

    /// Starts a step from what the inner store holds.
    pub fn new(base_price: MetricSnapshot<V>, base_volume: MetricSnapshot<V>) -> (result: Self)
        ensures
            result.stored_prices() == base_price@,
            result.stored_volumes() == base_volume@,
            result.rows() == (StepRows::<V> { row: 0, prices: Seq::empty(), volumes: Seq::empty() }),
    {
        BasePriceStepRows { base_price, base_volume, row: 0, prices: OrderedMap::new(), volumes: OrderedMap::new() }
    }

    /// Keeps stored rows up to the next stock without a price, and says which quote it needs.
    /// Nothing is needed any more once all stocks are handled.
    pub fn next_quote(&mut self, directions: &MetricSnapshot<V>) -> (result: Result<
        Option<QuoteRequest>,
        InvalidDirection<V>,
    >)
        requires
            0 <= old(self).rows().row <= directions@.len(),
        ensures
            final(self).stored_prices() == old(self).stored_prices(),
            final(self).stored_volumes() == old(self).stored_volumes(),
            final(self).rows() == kept(
                directions@,
                old(self).stored_prices(),
                old(self).stored_volumes(),
                old(self).rows(),
            ),
            0 <= final(self).rows().row <= directions@.len(),
            match result {
                Ok(None) => final(self).rows().row == directions@.len(),
                Ok(Some(request)) => final(self).rows().row < directions@.len() && request.stock@
                    == directions@[final(self).rows().row].0 && side_of(directions@[final(self).rows().row].1) == Some(
                    request.direction,
                ),
                Err(error) => final(self).rows().row < directions@.len() && error.stock@
                    == directions@[final(self).rows().row].0 && error.direction
                    == directions@[final(self).rows().row].1 && side_of(error.direction) is None,
            },
    {
        let length: usize = directions.len();
        while self.row < length
            invariant
                self.row <= length,
                length == directions@.len(),
                self.stored_prices() == old(self).stored_prices(),
                self.stored_volumes() == old(self).stored_volumes(),
                kept(directions@, self.stored_prices(), self.stored_volumes(), self.rows()) == kept(
                    directions@,
                    old(self).stored_prices(),
                    old(self).stored_volumes(),
                    old(self).rows(),
                ),
            decreases length - self.row,
        {
            let row: usize = self.row;
            let stock = directions.stock(row);
            let price = self.base_price.lookup(stock.as_str());
            if price.is_missing() {
                return match base_price_direction(stock.as_str(), directions.value(row)) {
                    Ok(direction) => Ok(Some(QuoteRequest { stock: stock.clone(), direction })),
                    Err(error) => Err(error),
                };
            }
            let volume = self.base_volume.lookup(stock.as_str());
            self.prices.insert(stock.clone(), price);
            self.volumes.insert(stock.clone(), volume);
            self.row = row + 1;
        }
        Ok(None)
    }

    /// Handles the stock that a quote was asked for.
    pub fn quote(&mut self, directions: &MetricSnapshot<V>, quote: Option<BaseVolumePrice<V>>)
        requires
            0 <= old(self).rows().row < directions@.len(),
        ensures
            final(self).stored_prices() == old(self).stored_prices(),
            final(self).stored_volumes() == old(self).stored_volumes(),
            final(self).rows() == quoted(directions@, old(self).rows(), quote),
    {
        let length: usize = directions.len();
        let row: usize = self.row;
        let stock = directions.stock(row);
        match quote {
            Some(value) => {
                self.prices.insert(stock.clone(), value.base_price);
                self.volumes.insert(stock.clone(), value.base_volume);
            },
            None => {},
        }
        self.row = row + 1;
    }

    /// The kept prices and volumes of the step.
    pub fn finish(self) -> (result: (MetricSnapshot<V>, MetricSnapshot<V>))
        ensures
            result.0@ == self.rows().prices,
            result.1@ == self.rows().volumes,
    {
        (MetricSnapshot::from_ordered(&self.prices), MetricSnapshot::from_ordered(&self.volumes))
    }
}

/// The volumes of one stock over all steps.
pub open spec fn step_volumes<V: Number>(volumes: Seq<Entries<V>>, stock: Seq<char>) -> Seq<V> {
    volumes.map_values(|entries: Entries<V>| at_label(entries, stock))
}

/// The prices of one stock over all steps, each times its volume.
pub open spec fn step_values<V: Number>(prices: Seq<Entries<V>>, volumes: Seq<Entries<V>>, stock: Seq<char>) -> Seq<V> {
    Seq::new(prices.len(), |i: int| at_label(prices[i], stock).times_spec(at_label(volumes[i], stock)))
}

/// Combines the rows of all steps: total volumes, and volume-weighted prices, over the sorted
/// union of the priced stocks. What is missing is left out of the sums.
pub fn combine_base_prices<V: Number>(
    prices: &[&MetricSnapshot<V>],
    volumes: &[&MetricSnapshot<V>],
) -> (result: (MetricSnapshot<V>, MetricSnapshot<V>))
    requires
        prices@.len() == volumes@.len(),
    ensures
        is_sorted_union(names_of(result.0@), all_entries(prices@)),
        names_of(result.1@) == names_of(result.0@),
        forall|i: int|
            0 <= i < result.0@.len() ==> (#[trigger] result.0@[i]).1 == sum_of(
                present(step_volumes(all_entries(volumes@), result.0@[i].0)),
            ),
        forall|i: int|
            0 <= i < result.1@.len() ==> (#[trigger] result.1@[i]).1 == sum_of(
                present(step_values(all_entries(prices@), all_entries(volumes@), result.1@[i].0)),
            ).over_spec(result.0@[i].1),
{
    let index = sorted_union(prices);
    let mut totals: Vec<V> = Vec::new();
    let mut means: Vec<V> = Vec::new();
    let mut row: usize = 0;
    let ghost all_prices = all_entries(prices@);
    let ghost all_volumes = all_entries(volumes@);
    while row < index.len()
        invariant
            row <= index@.len(),
            prices@.len() == volumes@.len(),
            all_prices == all_entries(prices@),
            all_volumes == all_entries(volumes@),
            totals@.len() == row,
            means@.len() == row,
            forall|i: int|
                0 <= i < row ==> #[trigger] totals@[i] == sum_of(present(step_volumes(all_volumes, index@[i]@))),
            forall|i: int|
                0 <= i < row ==> #[trigger] means@[i] == sum_of(
                    present(step_values(all_prices, all_volumes, index@[i]@)),
                ).over_spec(totals@[i]),
        decreases index@.len() - row,
    {
        let stock = index[row].as_str();
        let ghost volume_list = step_volumes(all_volumes, stock@);
        let ghost value_list = step_values(all_prices, all_volumes, stock@);
        let mut total: V = V::zero();
        let mut value: V = V::zero();
        let mut step: usize = 0;
        proof {
            reveal(Seq::filter);
        }
        while step < prices.len()
            invariant
                step <= prices@.len(),
                prices@.len() == volumes@.len(),
                all_prices == all_entries(prices@),
                all_volumes == all_entries(volumes@),
                volume_list == step_volumes(all_volumes, stock@),
                value_list == step_values(all_prices, all_volumes, stock@),
                total == sum_of(present(volume_list.take(step as int))),
                value == sum_of(present(value_list.take(step as int))),
            decreases prices@.len() - step,
        {
            let price = prices[step].lookup(stock);
            let volume = volumes[step].lookup(stock);
            let product = price.times(volume);
            proof {
                assert(volume_list.take(step + 1) =~= volume_list.take(step as int).push(volume));
                assert(value_list.take(step + 1) =~= value_list.take(step as int).push(product));
                present_push(volume_list.take(step as int), volume);
                present_push(value_list.take(step as int), product);
                sum_push(present(volume_list.take(step as int)), volume);
                sum_push(present(value_list.take(step as int)), product);
            }
            if !volume.is_missing() {
                total = total.plus(volume);
            }
            if !product.is_missing() {
                value = value.plus(product);
            }
            step += 1;
        }
        proof {
            assert(volume_list.take(step as int) =~= volume_list);
            assert(value_list.take(step as int) =~= value_list);
        }
        totals.push(total);
        means.push(value.over(total));
        row += 1;
    }
    let labels = crate::report_indicator::copy_texts(index.as_slice());
    proof {
        increasing_is_distinct(index@, totals@);
        increasing_is_distinct(labels@, means@);
        assert(names_of(zipped(index@, totals@)) =~= texts(index@));
        assert(names_of(zipped(labels@, means@)) =~= texts(labels@));
        assert forall|i: int| 0 <= i < labels@.len() implies (#[trigger] labels@[i])@ == index@[i]@ by {
            assert(texts(labels@)[i] == texts(index@)[i]);
        }
        assert(labels@.len() == texts(labels@).len());
        assert(index@.len() == texts(index@).len());
    }
    (MetricSnapshot::from_parts(index, totals), MetricSnapshot::from_parts(labels, means))
}

/// Entries of several rows.
pub open spec fn row_entries<V>(rows: Seq<MetricSnapshot<V>>) -> Seq<Entries<V>> {
    Seq::new(rows.len(), |i: int| rows[i]@)
}

/// Whether two metrics are the total volumes and the weighted prices of the rows of all steps.
pub open spec fn combines<V: Number>(
    totals: Entries<V>,
    means: Entries<V>,
    prices: Seq<Entries<V>>,
    volumes: Seq<Entries<V>>,
) -> bool {
    &&& is_sorted_union(names_of(totals), prices)
    &&& names_of(means) == names_of(totals)
    &&& forall|i: int|
        0 <= i < totals.len() ==> (#[trigger] totals[i]).1 == sum_of(present(step_volumes(volumes, totals[i].0)))
    &&& forall|i: int|
        0 <= i < means.len() ==> (#[trigger] means[i]).1 == sum_of(
            present(step_values(prices, volumes, means[i].0)),
        ).over_spec(totals[i].1)
}

/// What is done next for the base prices of a store.
#[derive(Debug)]
pub enum BasePriceAction {
    /// Read the base prices and volumes of an input.
    ReadInput(usize),
    /// Ask for the quote of a stock at a step.
    Quote(QuoteRequest),
    /// Publish the prices and volumes of all steps.
    Publish,
}

/// What an aggregation of base prices under way holds.
pub struct RunModel<V> {
    pub directions: Entries<V>,
    /// How many inputs have a step.
    pub pairs: nat,
    /// The rows of the steps that are done.
    pub prices: Seq<Entries<V>>,
    pub volumes: Seq<Entries<V>>,
    /// The prices and volumes that the input of the current step holds, and its rows so far.
    pub current: Option<(Entries<V>, Entries<V>, StepRows<V>)>,
}

/// What comes of an aggregation once the rows of the current step are as far as they are known.
pub open spec fn settled<V: Number>(model: RunModel<V>) -> RunModel<V> {
    match model.current {
        None => model,
        Some((base_price, base_volume, rows)) => {
            let after = kept(model.directions, base_price, base_volume, rows);
            if after.row >= model.directions.len() {
                RunModel {
                    prices: model.prices.push(after.prices),
                    volumes: model.volumes.push(after.volumes),
                    current: None,
                    ..model
                }
            } else {
                RunModel { current: Some((base_price, base_volume, after)), ..model }
            }
        },
    }
}

/// The aggregation of base prices: inputs are paired with steps, each step keeps what its input
/// holds and asks for what is missing, and nothing is published before all steps are done.
pub struct BasePriceRun<V> {
    directions: MetricSnapshot<V>,
    pairs: usize,
    prices: Vec<MetricSnapshot<V>>,
    volumes: Vec<MetricSnapshot<V>>,
    current: Option<BasePriceStepRows<V>>,
}

impl<V: Number> BasePriceRun<V> {
    /// What the aggregation holds.
    pub closed spec fn model(&self) -> RunModel<V> {
        RunModel {
            directions: self.directions@,
            pairs: self.pairs as nat,
            prices: row_entries(self.prices@),
            volumes: row_entries(self.volumes@),
            current: match self.current {
                Some(step) => Some((step.stored_prices(), step.stored_volumes(), step.rows())),
                None => None,
            },
        }
    }

    /// The rows of prices and volumes belong to the same steps.
    pub open spec fn wf(&self) -> bool {
        let model = self.model();
        &&& model.prices.len() == model.volumes.len()
        &&& model.prices.len() <= model.pairs
        &&& model.current is Some ==> model.prices.len() < model.pairs && 0 <= model.current->Some_0.2.row
            <= model.directions.len()
    }

    /// Begins with the directions of a store. Without any there is nothing to do. Inputs without a
    /// step and steps without an input are left out.
    pub fn begin(directions: MetricSnapshot<V>, inputs: usize, steps: usize) -> (result: Option<Self>)
        ensures
            match result {
                None => directions@.len() == 0,
                Some(run) => directions@.len() > 0 && run.wf() && run.model() == (RunModel::<V> {
                    directions: directions@,
                    pairs: if inputs <= steps {
                        inputs as nat
                    } else {
                        steps as nat
                    },
                    prices: Seq::empty(),
                    volumes: Seq::empty(),
                    current: None,
                }),
            },
    {
        if directions.is_empty() {
            return None;
        }
        let run = BasePriceRun {
            directions,
            pairs: if inputs <= steps {
                inputs
            } else {
                steps
            },
            prices: Vec::new(),
            volumes: Vec::new(),
            current: None,
        };
        proof {
            assert(run.model().prices =~= Seq::empty());
            assert(run.model().volumes =~= Seq::empty());
        }
        Some(run)
    }

    /// Says what is done next, keeping what the input of the current step holds.
    pub fn next(&mut self) -> (result: Result<BasePriceAction, InvalidDirection<V>>)
        requires
            old(self).wf(),
        ensures
            final(self).wf(),
            final(self).model() == settled(old(self).model()),
            ({
                let after = final(self).model();
                match result {
                    Ok(BasePriceAction::ReadInput(index)) => after.current is None && after.prices.len() < after.pairs
                        && index == after.prices.len(),
                    Ok(BasePriceAction::Publish) => after.current is None && after.prices.len() == after.pairs,
                    Ok(BasePriceAction::Quote(request)) => after.current is Some && ({
                        let row = after.current->Some_0.2.row;
                        row < after.directions.len() && request.stock@ == after.directions[row].0 && side_of(
                            after.directions[row].1,
                        ) == Some(request.direction)
                    }),
                    Err(error) => after.current is Some && ({
                        let row = after.current->Some_0.2.row;
                        row < after.directions.len() && error.stock@ == after.directions[row].0 && error.direction
                            == after.directions[row].1 && side_of(error.direction) is None
                    }),
                }
            }),
    {
        let ghost before = self.model();
        let mut taken: Option<BasePriceStepRows<V>> = None;
        core::mem::swap(&mut self.current, &mut taken);
        match taken {
            None => {},
            Some(held) => {
                let mut step = held;
                match step.next_quote(&self.directions) {
                    Err(error) => {
                        self.current = Some(step);
                        return Err(error);
                    },
                    Ok(Some(request)) => {
                        self.current = Some(step);
                        return Ok(BasePriceAction::Quote(request));
                    },
                    Ok(None) => {
                        let (prices, volumes) = step.finish();
                        self.prices.push(prices);
                        self.volumes.push(volumes);
                        proof {
                            let after = kept(before.directions, before.current->Some_0.0, before.current->Some_0.1, before.current->Some_0.2);
                            assert(row_entries(self.prices@) =~= before.prices.push(after.prices));
                            assert(row_entries(self.volumes@) =~= before.volumes.push(after.volumes));
                        }
                    },
                }
            },
        }
        if self.prices.len() < self.pairs {
            Ok(BasePriceAction::ReadInput(self.prices.len()))
        } else {
            Ok(BasePriceAction::Publish)
        }
    }

    /// How many steps are done.
    pub fn done(&self) -> (result: usize)
        ensures
            result == self.model().prices.len(),
    {
        self.prices.len()
    }

    /// Begins a step with what its input holds; a metric that it lacks is empty.
    pub fn input_read(&mut self, base_price: Option<MetricSnapshot<V>>, base_volume: Option<MetricSnapshot<V>>)
        requires
            old(self).wf(),
            old(self).model().current is None,
            old(self).model().prices.len() < old(self).model().pairs,
        ensures
            final(self).wf(),
            final(self).model() == (RunModel {
                current: Some(
                    (
                        match base_price {
                            Some(metric) => metric@,
                            None => Seq::empty(),
                        },
                        match base_volume {
                            Some(metric) => metric@,
                            None => Seq::empty(),
                        },
                        StepRows::<V> { row: 0, prices: Seq::empty(), volumes: Seq::empty() },
                    ),
                ),
                ..old(self).model()
            }),
    {
        let price = match base_price {
            Some(metric) => metric,
            None => MetricSnapshot::empty(),
        };
        let volume = match base_volume {
            Some(metric) => metric,
            None => MetricSnapshot::empty(),
        };
        self.current = Some(BasePriceStepRows::new(price, volume));
    }

    /// Takes the quote that was asked for; without one the stock is left out of the step.
    pub fn quote(&mut self, quote: Option<BaseVolumePrice<V>>)
        requires
            old(self).wf(),
            old(self).model().current is Some,
            old(self).model().current->Some_0.2.row < old(self).model().directions.len(),
        ensures
            final(self).wf(),
            final(self).model() == (RunModel {
                current: Some(
                    (
                        old(self).model().current->Some_0.0,
                        old(self).model().current->Some_0.1,
                        quoted(old(self).model().directions, old(self).model().current->Some_0.2, quote),
                    ),
                ),
                ..old(self).model()
            }),
    {
        let mut taken: Option<BasePriceStepRows<V>> = None;
        core::mem::swap(&mut self.current, &mut taken);
        match taken {
            None => {},
            Some(held) => {
                let mut step = held;
                step.quote(&self.directions, quote);
                self.current = Some(step);
            },
        }
    }

    /// Publishes the total volumes and then the weighted prices of all steps.
    pub fn publish<S: IndicatorStoreAccess<V>>(self, store: &mut S)
        requires
            self.wf(),
            self.model().current is None,
            self.model().prices.len() == self.model().pairs,
        ensures
            final(store).mode() == old(store).mode(),
            exists|totals: Entries<V>, means: Entries<V>| #[trigger]
                combines(totals, means, self.model().prices, self.model().volumes) && final(store).columns()
                    == with_entry(with_entry(old(store).columns(), "base_volume"@, totals), "base_price"@, means),
    {
        let ghost prices = self.model().prices;
        let ghost volumes = self.model().volumes;
        let mut price_rows: Vec<&MetricSnapshot<V>> = Vec::new();
        let mut volume_rows: Vec<&MetricSnapshot<V>> = Vec::new();
        let mut i: usize = 0;
        while i < self.prices.len()
            invariant
                i <= self.prices@.len(),
                self.prices@.len() == self.volumes@.len(),
                price_rows@.len() == i,
                volume_rows@.len() == i,
                forall|j: int| 0 <= j < i ==> (#[trigger] price_rows@[j])@ == self.prices@[j]@,
                forall|j: int| 0 <= j < i ==> (#[trigger] volume_rows@[j])@ == self.volumes@[j]@,
            decreases self.prices@.len() - i,
        {
            price_rows.push(&self.prices[i]);
            volume_rows.push(&self.volumes[i]);
            i += 1;
        }
        let (totals, means) = combine_base_prices(price_rows.as_slice(), volume_rows.as_slice());
        proof {
            assert(all_entries(price_rows@) =~= prices);
            assert(all_entries(volume_rows@) =~= volumes);
            assert(combines(totals@, means@, prices, volumes));
        }
        let ghost before = store.columns();
        let ghost total_entries = totals@;
        let ghost mean_entries = means@;
        store.assign_snapshot("base_volume", totals);
        store.assign_snapshot("base_price", means);
        assert(combines(total_entries, mean_entries, prices, volumes) && store.columns() == with_entry(
            with_entry(before, "base_volume"@, total_entries),
            "base_price"@,
            mean_entries,
        ));
    }
}

/// A stock whose price is held is never asked for: the step goes on behind it.
pub proof fn held_prices_are_not_asked_for<V: Number>(
    directions: Entries<V>,
    base_price: Entries<V>,
    base_volume: Entries<V>,
    rows: StepRows<V>,
)
    requires
        0 <= rows.row < directions.len(),
        !at_label(base_price, directions[rows.row].0).missing(),
    ensures
        kept(directions, base_price, base_volume, rows).row > rows.row,
{
    let stock = directions[rows.row].0;
    let next = StepRows {
        row: rows.row + 1,
        prices: with_entry(rows.prices, stock, at_label(base_price, stock)),
        volumes: with_entry(rows.volumes, stock, at_label(base_volume, stock)),
    };
    kept_goes_on(directions, base_price, base_volume, next);
}

proof fn kept_goes_on<V: Number>(
    directions: Entries<V>,
    base_price: Entries<V>,
    base_volume: Entries<V>,
    rows: StepRows<V>,
)
    ensures
        kept(directions, base_price, base_volume, rows).row >= rows.row,
    decreases directions.len() - rows.row,
{
    if 0 <= rows.row < directions.len() {
        let stock = directions[rows.row].0;
        let price = at_label(base_price, stock);
        if !price.missing() {
            kept_goes_on(
                directions,
                base_price,
                base_volume,
                StepRows {
                    row: rows.row + 1,
                    prices: with_entry(rows.prices, stock, price),
                    volumes: with_entry(rows.volumes, stock, at_label(base_volume, stock)),
                },
            );
        }
    }
}

/// A stored direction of zero sells, one of one buys, and every other one is refused.
pub proof fn zeros_sell_and_ones_buy(stock: &str, direction: Ticks, result: Result<OrderDir, InvalidDirection<Ticks>>)
    requires
        call_ensures(base_price_direction::<Ticks>, (stock, direction), result),
    ensures
        direction == Ticks(Some(0)) ==> result == Ok::<OrderDir, InvalidDirection<Ticks>>(OrderDir::Sell),
        direction == Ticks(Some(1)) ==> result == Ok::<OrderDir, InvalidDirection<Ticks>>(OrderDir::Buy),
        direction != Ticks(Some(0)) && direction != Ticks(Some(1)) ==> result is Err,
{
}

/// What a stock was worth over several steps: the prices that are there, each times its volume.
pub open spec fn worth(prices: Seq<Ticks>, volumes: Seq<Ticks>) -> int
    decreases prices.len(),
{
    if prices.len() == 0 || volumes.len() == 0 {
        0
    } else {
        worth(prices.drop_last(), volumes.drop_last()) + if prices.last().0 is Some && volumes.last().0 is Some && fits(
            held(prices.last()) * held(volumes.last()),
        ) {
            held(prices.last()) * held(volumes.last())
        } else {
            0
        }
    }
}

/// What several metrics hold of a stock.
pub open spec fn over_steps(metrics: Seq<&MetricSnapshot<Ticks>>, stock: Seq<char>) -> Seq<Ticks> {
    Seq::new(metrics.len(), |i: int| at_label(metrics[i]@, stock))
}

/// The combined volume of a stock is what its steps hold together, and its combined price is its mean
/// price by volume: times the combined volume it is what the steps were worth.
pub proof fn base_prices_weigh_by_volume(
    prices: &[&MetricSnapshot<Ticks>],
    volumes: &[&MetricSnapshot<Ticks>],
    result: (MetricSnapshot<Ticks>, MetricSnapshot<Ticks>),
    place: int,
)
    requires
        call_ensures(combine_base_prices::<Ticks>, (prices, volumes), result),
        prices@.len() == volumes@.len(),
        0 <= place < result.0@.len(),
    ensures
        result.1@.len() == result.0@.len(),
        result.1@[place].0 == result.0@[place].0,
        ({
            let stock = result.0@[place].0;
            let (total, mean) = (result.0@[place].1, result.1@[place].1);
            &&& total.0 is Some ==> held(total) == present_total(over_steps(volumes@, stock))
            &&& mean.0 is Some ==> total.0 is Some && held(mean) * held(total) == worth(
                over_steps(prices@, stock),
                over_steps(volumes@, stock),
            )
        }),
{
    assert(names_of(result.1@).len() == names_of(result.0@).len());
    assert(names_of(result.1@)[place] == names_of(result.0@)[place]);
    let stock = result.0@[place].0;
    let amounts = step_volumes(all_entries(volumes@), stock);
    let values = step_values(all_entries(prices@), all_entries(volumes@), stock);
    assert(amounts =~= over_steps(volumes@, stock));
    assert(result.1@[place].1 == sum_of(present(values)).over_spec(result.0@[place].1));
    present_sums_add_up(amounts);
    if result.1@[place].1.0 is Some {
        quotients_undo(sum_of(present(values)), result.0@[place].1);
        present_sums_add_up(values);
        assert(values =~= products(over_steps(prices@, stock), over_steps(volumes@, stock)));
        products_are_worth(over_steps(prices@, stock), over_steps(volumes@, stock));
    }
}

spec fn products(prices: Seq<Ticks>, volumes: Seq<Ticks>) -> Seq<Ticks> {
    Seq::new(prices.len(), |i: int| prices[i].times_spec(volumes[i]))
}

proof fn products_are_worth(prices: Seq<Ticks>, volumes: Seq<Ticks>)
    requires
        prices.len() == volumes.len(),
    ensures
        present_total(products(prices, volumes)) == worth(prices, volumes),
    decreases prices.len(),
{
    if prices.len() > 0 {
        products_are_worth(prices.drop_last(), volumes.drop_last());
        assert(products(prices, volumes).drop_last() =~= products(prices.drop_last(), volumes.drop_last()));
    }
}

/// A step stops at the first stock without a stored price: that of every stock before is kept, with its
/// volume, and nothing else is. No quote is asked for where a price is stored, and none is passed over
/// where it is missing.
pub proof fn steps_stop_at_the_first_gap<V: Number>(
    step: &mut BasePriceStepRows<V>,
    directions: MetricSnapshot<V>,
    result: Result<Option<QuoteRequest>, InvalidDirection<V>>,
    place: int,
    other: Seq<char>,
)
    requires
        call_ensures(BasePriceStepRows::<V>::next_quote, (step, &directions), result),
        0 <= old(step).rows().row <= directions@.len(),
        distinct_names(directions@),
        old(step).rows().row <= place < directions@.len(),
    ensures
        ({
            let stock = directions@[place].0;
            let (before, after) = (old(step).rows(), final(step).rows());
            let price = at_label(old(step).stored_prices(), stock);
            &&& before.row <= after.row <= directions@.len()
            &&& place < after.row ==> !price.missing() && value_of(after.prices, stock) == Some(price) && value_of(
                after.volumes,
                stock,
            ) == Some(at_label(old(step).stored_volumes(), stock))
            &&& place == after.row ==> price.missing()
            &&& (forall|k: int| before.row <= k < after.row ==> (#[trigger] directions@[k]).0 != other) ==> value_of(
                after.prices,
                other,
            ) == value_of(before.prices, other) && value_of(after.volumes, other) == value_of(before.volumes, other)
            &&& result == Ok::<Option<QuoteRequest>, InvalidDirection<V>>(None) <==> after.row == directions@.len()
        }),
{
    rows_before_the_gap(directions@, old(step).stored_prices(), old(step).stored_volumes(), old(step).rows(), place, other);
}

proof fn rows_before_the_gap<V: Number>(
    directions: Entries<V>,
    base_price: Entries<V>,
    base_volume: Entries<V>,
    rows: StepRows<V>,
    place: int,
    other: Seq<char>,
)
    requires
        0 <= rows.row <= directions.len(),
        distinct_names(directions),
        0 <= place < directions.len(),
    ensures
        ({
            let stock = directions[place].0;
            let after = kept(directions, base_price, base_volume, rows);
            let price = at_label(base_price, stock);
            &&& rows.row <= after.row <= directions.len()
            &&& rows.row <= place < after.row ==> !price.missing() && value_of(after.prices, stock) == Some(price)
                && value_of(after.volumes, stock) == Some(at_label(base_volume, stock))
            &&& place == after.row ==> price.missing()
            &&& (forall|k: int| rows.row <= k < after.row ==> (#[trigger] directions[k]).0 != other) ==> value_of(
                after.prices,
                other,
            ) == value_of(rows.prices, other) && value_of(after.volumes, other) == value_of(rows.volumes, other)
        }),
    decreases directions.len() - rows.row,
{
    if rows.row < directions.len() {
        let stock = directions[rows.row].0;
        let price = at_label(base_price, stock);
        let volume = at_label(base_volume, stock);
        if !price.missing() {
            let next = StepRows {
                row: rows.row + 1,
                prices: with_entry(rows.prices, stock, price),
                volumes: with_entry(rows.volumes, stock, volume),
            };
            let after = kept(directions, base_price, base_volume, next);
            rows_before_the_gap(directions, base_price, base_volume, next, place, other);
            if place == rows.row {
                rows_before_the_gap(directions, base_price, base_volume, next, place, stock);
                assert forall|k: int| next.row <= k < after.row implies (#[trigger] directions[k]).0 != stock by {}
                crate::ordered::read_after_write(rows.prices, stock, price);
                crate::ordered::read_after_write(rows.volumes, stock, volume);
            }
            if other != stock {
                crate::ordered::write_keeps_others(rows.prices, stock, price, other);
                crate::ordered::write_keeps_others(rows.volumes, stock, volume, other);
            } else {
                assert(directions[rows.row].0 == other);
            }
        }
    }
}

/// A quote is kept for the stock that it was asked for; without one the stock is left out. Either way
/// the step goes on to the next stock, and the others keep what they have.
pub proof fn quotes_are_kept<V: Number>(
    step: &mut BasePriceStepRows<V>,
    directions: MetricSnapshot<V>,
    quote: Option<BaseVolumePrice<V>>,
    other: Seq<char>,
)
    requires
        call_ensures(BasePriceStepRows::<V>::quote, (step, &directions, quote), ()),
        0 <= old(step).rows().row < directions@.len(),
    ensures
        final(step).rows().row == old(step).rows().row + 1,
        final(step).stored_prices() == old(step).stored_prices(),
        final(step).stored_volumes() == old(step).stored_volumes(),
        ({
            let stock = directions@[old(step).rows().row].0;
            let (before, after) = (old(step).rows(), final(step).rows());
            &&& quote is Some ==> value_of(after.prices, stock) == Some(quote->Some_0.base_price) && value_of(
                after.volumes,
                stock,
            ) == Some(quote->Some_0.base_volume)
            &&& quote is None || other != stock ==> value_of(after.prices, other) == value_of(before.prices, other)
                && value_of(after.volumes, other) == value_of(before.volumes, other)
        }),
{
    let stock = directions@[old(step).rows().row].0;
    let before = old(step).rows();
    match quote {
        Some(value) => {
            crate::ordered::read_after_write(before.prices, stock, value.base_price);
            crate::ordered::read_after_write(before.volumes, stock, value.base_volume);
            if other != stock {
                crate::ordered::write_keeps_others(before.prices, stock, value.base_price, other);
                crate::ordered::write_keeps_others(before.volumes, stock, value.base_volume, other);
            }
        },
        None => {},
    }
}

/// What is published of a stock: its volume is what its steps hold together, and its price times that
/// volume is what the steps were worth. No other column of the store changes.
pub proof fn published_prices_weigh_by_volume<S: IndicatorStoreAccess<Ticks>>(
    run: BasePriceRun<Ticks>,
    store: &mut S,
    place: int,
    other: Seq<char>,
)
    requires
        call_ensures(BasePriceRun::<Ticks>::publish::<S>, (run, store), ()),
        run.wf(),
        run.model().current is None,
        run.model().prices.len() == run.model().pairs,
    ensures
        ({
            let totals = value_of(final(store).columns(), "base_volume"@);
            let means = value_of(final(store).columns(), "base_price"@);
            let (stock, total) = totals->Some_0[place];
            let mean = means->Some_0[place].1;
            let prices = Seq::new(run.model().prices.len(), |i: int| at_label(run.model().prices[i], stock));
            let volumes = Seq::new(run.model().volumes.len(), |i: int| at_label(run.model().volumes[i], stock));
            &&& totals is Some && means is Some && means->Some_0.len() == totals->Some_0.len()
            &&& 0 <= place < totals->Some_0.len() ==> means->Some_0[place].0 == stock && (total.0 is Some ==> held(total)
                == present_total(volumes)) && (mean.0 is Some ==> held(mean) * held(total) == worth(prices, volumes))
        }),
        other != "base_volume"@ && other != "base_price"@ ==> value_of(final(store).columns(), other) == value_of(
            old(store).columns(),
            other,
        ),
{
    reveal_strlit("base_volume");
    reveal_strlit("base_price");
    assert("base_volume"@.len() == 11 && "base_price"@.len() == 10);
    let before = old(store).columns();
    let (totals, means) = choose|totals: Entries<Ticks>, means: Entries<Ticks>| #[trigger]
        combines(totals, means, run.model().prices, run.model().volumes) && final(store).columns() == with_entry(
            with_entry(old(store).columns(), "base_volume"@, totals),
            "base_price"@,
            means,
        );
    let middle = with_entry(before, "base_volume"@, totals);
    crate::ordered::read_after_write(before, "base_volume"@, totals);
    crate::ordered::read_after_write(middle, "base_price"@, means);
    crate::ordered::write_keeps_others(middle, "base_price"@, means, "base_volume"@);
    if other != "base_volume"@ && other != "base_price"@ {
        crate::ordered::write_keeps_others(before, "base_volume"@, totals, other);
        crate::ordered::write_keeps_others(middle, "base_price"@, means, other);
    }
    assert(names_of(means).len() == names_of(totals).len());
    if 0 <= place < totals.len() {
        assert(names_of(means)[place] == names_of(totals)[place]);
        let stock = totals[place].0;
        let prices = Seq::new(run.model().prices.len(), |i: int| at_label(run.model().prices[i], stock));
        let volumes = Seq::new(run.model().volumes.len(), |i: int| at_label(run.model().volumes[i], stock));
        let amounts = step_volumes(run.model().volumes, stock);
        let values = step_values(run.model().prices, run.model().volumes, stock);
        assert(amounts =~= volumes);
        present_sums_add_up(amounts);
        assert(means[place].1 == sum_of(present(values)).over_spec(totals[place].1));
        if means[place].1.0 is Some {
            quotients_undo(sum_of(present(values)), totals[place].1);
            present_sums_add_up(values);
            assert(values =~= products(prices, volumes));
            products_are_worth(prices, volumes);
        }
    }
}

/// As many steps are aggregated as have both an input and a step, and none without directions.
pub proof fn inputs_and_steps_are_paired<V: Number>(
    directions: MetricSnapshot<V>,
    inputs: usize,
    steps: usize,
    result: Option<BasePriceRun<V>>,
)
    requires
        call_ensures(BasePriceRun::<V>::begin, (directions, inputs, steps), result),
    ensures
        result is None <==> directions@.len() == 0,
        result is Some ==> ({
            let pairs = result->Some_0.model().pairs;
            &&& pairs <= inputs && pairs <= steps && (pairs == inputs || pairs == steps)
            &&& result->Some_0.model().prices.len() == 0
        }),
{
}

/// A step without a volume for a stock adds nothing to its total, and one without a price for it nothing
/// to what it was worth.
pub proof fn steps_without_a_stock_add_nothing(
    prices: &[&MetricSnapshot<Ticks>],
    volumes: &[&MetricSnapshot<Ticks>],
    more_prices: &[&MetricSnapshot<Ticks>],
    more_volumes: &[&MetricSnapshot<Ticks>],
    result: (MetricSnapshot<Ticks>, MetricSnapshot<Ticks>),
    beside: (MetricSnapshot<Ticks>, MetricSnapshot<Ticks>),
    place: int,
    other: int,
)
    requires
        call_ensures(combine_base_prices::<Ticks>, (prices, volumes), result),
        call_ensures(combine_base_prices::<Ticks>, (more_prices, more_volumes), beside),
        prices@.len() == volumes@.len(),
        more_prices@.len() == more_volumes@.len() == prices@.len() + 1,
        more_prices@.drop_last() == prices@,
        more_volumes@.drop_last() == volumes@,
        0 <= place < result.0@.len(),
        0 <= other < beside.0@.len(),
        result.0@[place].0 == beside.0@[other].0,
        at_label(more_volumes@.last()@, result.0@[place].0).0 is None,
    ensures
        result.0@[place].1 == beside.0@[other].1,
        result.1@[place].1 == beside.1@[other].1,
{
    assert(names_of(result.1@).len() == names_of(result.0@).len());
    assert(names_of(result.1@)[place] == names_of(result.0@)[place]);
    assert(names_of(beside.1@).len() == names_of(beside.0@).len());
    assert(names_of(beside.1@)[other] == names_of(beside.0@)[other]);
    let stock = result.0@[place].0;
    let (before, after) = (all_entries(volumes@), all_entries(more_volumes@));
    let (earlier, later) = (all_entries(prices@), all_entries(more_prices@));
    let volume = at_label(more_volumes@.last()@, stock);
    let product = at_label(more_prices@.last()@, stock).times_spec(volume);
    assert forall|i: int| 0 <= i < before.len() implies before[i] == #[trigger] after[i] by {
        assert(more_volumes@.drop_last()[i] == volumes@[i]);
    }
    assert forall|i: int| 0 <= i < earlier.len() implies earlier[i] == #[trigger] later[i] by {
        assert(more_prices@.drop_last()[i] == prices@[i]);
    }
    assert(step_volumes(before, stock).push(volume) =~= step_volumes(after, stock));
    assert(step_values(earlier, before, stock).push(product) =~= step_values(later, after, stock));
    present_push(step_volumes(before, stock), volume);
    present_push(step_values(earlier, before, stock), product);
    assert(result.1@[place].1 == sum_of(present(step_values(earlier, before, stock))).over_spec(result.0@[place].1));
    assert(beside.1@[other].1 == sum_of(present(step_values(later, after, stock))).over_spec(beside.0@[other].1));
}

} // verus!
