//! The order indicators of an outer level: trades, targets, base prices and price advantage in turn.
use crate::base_price_aggregation::{
    combines, settled, side_of, BasePriceAction, BasePriceRun, BaseVolumePrice, InvalidDirection, QuoteRequest, RunModel,
    StepRows,
};
use crate::indicator::{
    advantage_taken, aggregate_order_price_advantage, assign_outer_target_and_fill, metric_or_empty, order_amounts,
    trade_amount_snapshot, with_target,
};
use crate::indicator_store::{
    aggregate_stores, contents, stores_aggregated, stores_stopped, Columns, IndicatorStoreAccess,
};
use crate::level_indicator::base_metrics;
use crate::metric_snapshot::Entries;
use crate::number::Number;
use crate::ordered::{with_entries, with_entry};
use crate::report_indicator::{IndicatorError, MetricSnapshot};
use vstd::prelude::*;

verus! {

/// Why the order indicators of a level were not aggregated.
#[derive(Debug)]
pub enum AggregateOrderIndicatorsError<V> {
    Indicator(IndicatorError),
    /// A stock is traded in no direction.
    BasePrice(InvalidDirection<V>),
    /// A quote could not be had.
    Quote(String),
}

/// What is due next.
#[derive(Debug)]
pub enum OrderIndicatorAction {
    /// A stage went on without anything from outside.
    Continue,
    /// The quote of a stock is asked for, for the step of an input.
    Quote(usize, QuoteRequest),
    Finished,
}

/// What an aggregation of order indicators has come to.
pub enum IndicatorStage<V> {
    /// Targets and fill rates are due.
    Target,
    /// Base prices are aggregated.
    Prices(RunModel<V>),
    /// The price advantage is due.
    Advantage,
    Over,
}

enum RunStage<V> {
    Target,
    Prices(BasePriceRun<V>),
    Advantage,
    Over,
}

/// The aggregation of the order indicators of a level in one store of several. What was done before
/// a failure stays.
pub struct OrderIndicatorRun<V> {
    output: usize,
    inner: Vec<usize>,
    steps: usize,
    stage: RunStage<V>,
}

/// The step of an input begins with what the input holds.
pub open spec fn input_taken<V: Number>(model: RunModel<V>, columns: Columns<V>) -> RunModel<V> {
    RunModel {
        current: Some(
            (
                metric_or_empty(columns, "base_price"@),
                metric_or_empty(columns, "base_volume"@),
                StepRows::<V> { row: 0, prices: Seq::empty(), volumes: Seq::empty() },
            ),
        ),
        ..model
    }
}

/// The stage behind the targets: base prices, unless no stock has a direction.
pub open spec fn prices_begun<V: Number>(columns: Columns<V>, inputs: nat, steps: nat) -> IndicatorStage<V> {
    let directions = metric_or_empty(columns, "trade_dir"@);
    if directions.len() == 0 {
        IndicatorStage::Advantage
    } else {
        IndicatorStage::Prices(
            RunModel {
                directions,
                pairs: if inputs <= steps {
                    inputs
                } else {
                    steps
                },
                prices: Seq::empty(),
                volumes: Seq::empty(),
                current: None,
            },
        )
    }
}

/// What going on with base prices leads to: an input is read, a quote is asked for, a direction is
/// refused, or the prices are published.
pub open spec fn prices_went_on<V: Number>(
    model: RunModel<V>,
    inner: Seq<usize>,
    output: int,
    before: Seq<Columns<V>>,
    after: Seq<Columns<V>>,
    stage: IndicatorStage<V>,
    result: Result<OrderIndicatorAction, AggregateOrderIndicatorsError<V>>,
) -> bool {
    let now = settled(model);
    if now.current is Some {
        let row = now.current->Some_0.2.row;
        let stock = now.directions[row].0;
        let direction = now.directions[row].1;
        &&& after == before
        &&& match side_of(direction) {
            Some(side) => {
                &&& stage == IndicatorStage::Prices(now)
                &&& result matches Ok(OrderIndicatorAction::Quote(step, request)) && step == now.prices.len()
                    && request.stock@ == stock && request.direction == side
            },
            None => {
                &&& stage is Over
                &&& result matches Err(AggregateOrderIndicatorsError::BasePrice(error)) && error.stock@ == stock
                    && error.direction == direction
            },
        }
    } else if now.prices.len() < now.pairs {
        &&& after == before
        &&& stage == IndicatorStage::Prices(input_taken(now, before[inner[now.prices.len() as int] as int]))
        &&& result matches Ok(OrderIndicatorAction::Continue)
    } else {
        &&& stage is Advantage
        &&& result matches Ok(OrderIndicatorAction::Continue)
        &&& exists|totals: Entries<V>, means: Entries<V>| #[trigger]
            combines(totals, means, now.prices, now.volumes) && after == before.update(
                output,
                with_entry(with_entry(before[output], "base_volume"@, totals), "base_price"@, means),
            )
    }
}

/// Whether a result is that of a stage on stores.
pub open spec fn stage_result<V>(
    found: Result<(), IndicatorError>,
    result: Result<OrderIndicatorAction, AggregateOrderIndicatorsError<V>>,
) -> bool {
    match found {
        Ok(_) => result matches Ok(OrderIndicatorAction::Finished),
        Err(error) => result == Err::<OrderIndicatorAction, _>(AggregateOrderIndicatorsError::<V>::Indicator(error)),
    }
}

fn metric_in<V: Number, S: IndicatorStoreAccess<V>>(store: &S, name: &str) -> (result: MetricSnapshot<V>)
    ensures
        result@ == metric_or_empty(store.columns(), name@),
{
    match store.metric_snapshot(name) {
        Some(metric) => metric,
        None => MetricSnapshot::empty(),
    }
}

impl<V: Number> OrderIndicatorRun<V> {
    /// The store that is written.
    pub closed spec fn output(&self) -> usize {
        self.output
    }

    /// The stores that are read.
    pub closed spec fn inner(&self) -> Seq<usize> {
        self.inner@
    }

    /// How many steps the inputs have.
    pub closed spec fn steps(&self) -> usize {
        self.steps
    }

    /// What the aggregation has come to.
    pub closed spec fn stage(&self) -> IndicatorStage<V> {
        match self.stage {
            RunStage::Target => IndicatorStage::Target,
            RunStage::Prices(run) => IndicatorStage::Prices(run.model()),
            RunStage::Advantage => IndicatorStage::Advantage,
            RunStage::Over => IndicatorStage::Over,
        }
    }

    /// Every step of base prices has an input.
    pub closed spec fn sound(&self) -> bool {
        self.stage matches RunStage::Prices(run) ==> run.wf() && run.model().pairs <= self.inner@.len()
    }

    /// Every input and the output have a store.
    pub open spec fn wf(&self, stores: nat) -> bool {
        &&& self.sound()
        &&& self.output() < stores
        &&& forall|i: int| 0 <= i < self.inner().len() ==> #[trigger] self.inner()[i] < stores
    }

    /// Goes on behind trade information that was added up.
    pub fn after_trade(output: usize, inner: Vec<usize>, steps: usize) -> (result: Self)
        ensures
            result.sound(),
            result.output() == output,
            result.inner() == inner@,
            result.steps() == steps,
            result.stage() is Target,
    {
        OrderIndicatorRun { output, inner, steps, stage: RunStage::Target }
    }

    /// Begins with the trade information of the inputs, which is added up in the output.
    pub fn begin<S: IndicatorStoreAccess<V>>(stores: &mut Vec<S>, output: usize, inner: Vec<usize>, steps: usize) -> (result: Result<
        Self,
        AggregateOrderIndicatorsError<V>,
    >)
        requires
            output < old(stores)@.len(),
            forall|i: int| 0 <= i < inner@.len() ==> #[trigger] inner@[i] < old(stores)@.len(),
        ensures
            final(stores)@.len() == old(stores)@.len(),
            match result {
                Ok(run) => {
                    &&& run.wf(final(stores)@.len())
                    &&& run.output() == output
                    &&& run.inner() == inner@
                    &&& run.steps() == steps
                    &&& run.stage() is Target
                    &&& stores_aggregated(
                        old(stores)@[output as int].mode(),
                        inner@,
                        output as int,
                        contents(old(stores)@),
                        contents(final(stores)@),
                    )
                },
                Err(AggregateOrderIndicatorsError::Indicator(error)) => stores_stopped(
                    old(stores)@[output as int].mode(),
                    inner@,
                    output as int,
                    contents(old(stores)@),
                    contents(final(stores)@),
                    error,
                ),
                Err(_) => false,
            },
    {
        match aggregate_stores(stores, &inner, output) {
            Ok(_) => Ok(OrderIndicatorRun { output, inner, steps, stage: RunStage::Target }),
            Err(error) => Err(AggregateOrderIndicatorsError::Indicator(error)),
        }
    }

    /// Takes the target amounts of the outer orders, recomputes the fill rates, and begins with the
    /// base prices. Where the amounts or the store cannot be had, nothing changes any more.
    pub fn target<S: IndicatorStoreAccess<V>>(
        &mut self,
        stores: &mut Vec<S>,
        amounts: Result<Vec<(String, V)>, IndicatorError>,
    ) -> (result: Result<(), AggregateOrderIndicatorsError<V>>)
        requires
            old(self).wf(old(stores)@.len()),
            old(self).stage() is Target,
        ensures
            final(self).wf(final(stores)@.len()),
            final(self).output() == old(self).output(),
            final(self).inner() == old(self).inner(),
            final(self).steps() == old(self).steps(),
            ({
                let output = old(self).output() as int;
                match amounts {
                    Err(error) => {
                        &&& result == Err::<(), _>(AggregateOrderIndicatorsError::<V>::Indicator(error))
                        &&& final(self).stage() is Over
                        &&& contents(final(stores)@) == contents(old(stores)@)
                    },
                    Ok(orders) => {
                        let filled = with_target(
                            contents(old(stores)@)[output],
                            with_entries(Seq::empty(), order_amounts(orders@)),
                        );
                        &&& result is Ok
                        &&& contents(final(stores)@) == contents(old(stores)@).update(output, filled)
                        &&& final(self).stage() == prices_begun(filled, old(self).inner().len(), old(self).steps() as nat)
                    },
                }
            }),
    {
        let orders = match amounts {
            Ok(orders) => orders,
            Err(error) => {
                self.stage = RunStage::Over;
                return Err(AggregateOrderIndicatorsError::Indicator(error));
            },
        };
        let ghost before = contents(stores@);
        let targets = trade_amount_snapshot(orders.as_slice());
        let place: usize = self.output;
        assign_outer_target_and_fill(&mut stores[place], targets);
        let ghost filled = stores@[place as int].columns();
        assert(contents(stores@) =~= before.update(place as int, filled));
        let directions = metric_in(&stores[place], "trade_dir");
        self.stage = match BasePriceRun::begin(directions, self.inner.len(), self.steps) {
            Some(run) => RunStage::Prices(run),
            None => RunStage::Advantage,
        };
        Ok(())
    }

    /// Goes on with the base prices, or takes the price advantage at the end.
    pub fn next<S: IndicatorStoreAccess<V>>(&mut self, stores: &mut Vec<S>) -> (result: Result<
        OrderIndicatorAction,
        AggregateOrderIndicatorsError<V>,
    >)
        requires
            old(self).wf(old(stores)@.len()),
            old(self).stage() is Prices || old(self).stage() is Advantage,
        ensures
            final(self).wf(final(stores)@.len()),
            final(self).output() == old(self).output(),
            final(self).inner() == old(self).inner(),
            final(self).steps() == old(self).steps(),
            ({
                let output = old(self).output() as int;
                let before = contents(old(stores)@);
                let after = contents(final(stores)@);
                match old(self).stage() {
                    IndicatorStage::Prices(model) => prices_went_on(
                        model,
                        old(self).inner(),
                        output,
                        before,
                        after,
                        final(self).stage(),
                        result,
                    ),
                    _ => {
                        &&& final(self).stage() is Over
                        &&& after == before.update(output, after[output])
                        &&& exists|found: Result<(), IndicatorError>| #[trigger]
                            stage_result(found, result) && advantage_taken(
                                old(stores)@[output].mode(),
                                before[output],
                                after[output],
                                found,
                            )
                    },
                }
            }),
    {
        let place: usize = self.output;
        let ghost before = contents(stores@);
        let ghost inputs = self.inner();
        let mut taken: RunStage<V> = RunStage::Over;
        core::mem::swap(&mut self.stage, &mut taken);
        assert(self.inner() == inputs);
        match taken {
            RunStage::Prices(held) => {
                let mut run = held;
                match run.next() {
                    Err(error) => Err(AggregateOrderIndicatorsError::BasePrice(error)),
                    Ok(BasePriceAction::Quote(request)) => {
                        let step: usize = run.done();
                        self.stage = RunStage::Prices(run);
                        assert(self.inner() == inputs);
                        Ok(OrderIndicatorAction::Quote(step, request))
                    },
                    Ok(BasePriceAction::ReadInput(index)) => {
                        assert(inputs[index as int] < stores@.len());
                        let (price, volume) = base_metrics(&stores[self.inner[index]]);
                        run.input_read(price, volume);
                        self.stage = RunStage::Prices(run);
                        assert(self.inner() == inputs);
                        Ok(OrderIndicatorAction::Continue)
                    },
                    Ok(BasePriceAction::Publish) => {
                        run.publish(&mut stores[place]);
                        self.stage = RunStage::Advantage;
                        assert(self.inner() == inputs);
                        assert(contents(stores@) =~= before.update(place as int, stores@[place as int].columns()));
                        Ok(OrderIndicatorAction::Continue)
                    },
                }
            },
            _ => {
                let found = aggregate_order_price_advantage(&mut stores[place]);
                assert(contents(stores@) =~= before.update(place as int, stores@[place as int].columns()));
                let ghost said = found;
                let result = match found {
                    Ok(_) => Ok(OrderIndicatorAction::Finished),
                    Err(error) => Err(AggregateOrderIndicatorsError::Indicator(error)),
                };
                assert(stage_result(said, result));
                result
            },
        }
    }

    /// Takes the quote that was asked for; without one the stock is left out of the step. Where it
    /// cannot be had, nothing changes any more.
    pub fn answer(&mut self, reply: Result<Option<BaseVolumePrice<V>>, String>) -> (result: Result<
        (),
        AggregateOrderIndicatorsError<V>,
    >)
        requires
            old(self).sound(),
            old(self).stage() matches IndicatorStage::Prices(model) && model.current is Some
                && model.current->Some_0.2.row < model.directions.len(),
        ensures
            final(self).sound(),
            final(self).output() == old(self).output(),
            final(self).inner() == old(self).inner(),
            final(self).steps() == old(self).steps(),
            match reply {
                Err(message) => {
                    &&& result == Err::<(), _>(AggregateOrderIndicatorsError::<V>::Quote(message))
                    &&& final(self).stage() is Over
                },
                Ok(quote) => {
                    let model = old(self).stage()->Prices_0;
                    &&& result is Ok
                    &&& final(self).stage() == IndicatorStage::Prices(
                        RunModel {
                            current: Some(
                                (
                                    model.current->Some_0.0,
                                    model.current->Some_0.1,
                                    crate::base_price_aggregation::quoted(model.directions, model.current->Some_0.2, quote),
                                ),
                            ),
                            ..model
                        },
                    )
                },
            },
    {
        let mut taken: RunStage<V> = RunStage::Over;
        core::mem::swap(&mut self.stage, &mut taken);
        match (taken, reply) {
            (RunStage::Prices(held), Ok(quote)) => {
                let mut run = held;
                run.quote(quote);
                self.stage = RunStage::Prices(run);
                Ok(())
            },
            (_, Err(message)) => Err(AggregateOrderIndicatorsError::Quote(message)),
            (_, Ok(_)) => Ok(()),
        }
    }
}

} // verus!
