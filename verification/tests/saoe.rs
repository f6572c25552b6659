//! Single-asset order execution on concrete orders.
use qlib_core::day_map::{to_plain_key, DayMap};
use qlib_core::frequency::{Frequency, FrequencyUnit};
use qlib_core::integer::Integer;
use qlib_core::number::Ticks;
use qlib_core::order::{OrderDir, Timestamp};
use qlib_core::ordered::OrderedMap;
use qlib_core::report_indicator::{IndicatorConfig, IndicatorWeightMethod, OrderIndicatorAggregationConfig};
use qlib_core::resumable_nested_executor::{NestedDecisionTracking, ResumableNestedConfig};
use qlib_core::saoe::{
    check_prompt, decode_tables, saoe_proxy_prompt_kind, saoe_state_schema_version, select_wire, DayKey, HistoryPositions,
    ProxySaoeStrategy, SaoeError, SaoeOrder, SaoePluginError, SaoeState, SaoeStateParts, SaoeStateWire,
    SaoeStateWireV1, SaoeStateWireV2,
};
use qlib_core::saoe_adapter_factory::{
    start_step, ticks_per_step, ConfiguredSaoeStateAdapterFactory, InputsRead, InputsStep,
};
use qlib_core::saoe_backtest_data::{
    cache_key, SaoeBacktestDataLoadError, SaoeBacktestDataLoader, SAOE_BACKTEST_DATA_CACHE_CAPACITY,
};
use qlib_core::saoe_backtest_load::{quotes_read, LoadBegin};
use qlib_core::saoe_child_assembly::{ConfiguredSaoeChildAssemblyFactory, SaoeChildComponents};
use qlib_core::saoe_infrastructure::{
    latest_price_advantage, market_array, MarketDataValue, NestedAccountSaoeContext,
};
use qlib_core::saoe_int_strategy::{
    build_details, child_requests, AssemblyAction, DecisionAssembly, ExecutionUpdate, RegistryError, SaoeAdapterRegistry, SaoeIntStrategy,
    SaoeIntStrategyError,
};
use qlib_core::saoe_interpreter::{
    decide_all, decide_strictly, AllOnePolicy, CategoricalActionInterpreter, CurrentStepStateInterpreter,
    DummyStateInterpreter, FullHistoryStateInterpreter, Grid, ProcessedSaoeData, SaoeActionInterpreter,
    SaoeActionSpace, SaoeInterpreterError, SaoeObservation, SaoePolicyAction, SaoePolicyDecision, SaoePolicyPipeline,
    SaoeStateInterpreter, TwapRelativeActionInterpreter,
};
use qlib_core::saoe_live_generation::{
    as_order, child_step, detail_instrument, detail_row, ChildStep, DecisionAccessError, LiveAction,
    LiveCursor, LiveGeneration, LiveItem, LiveSaoeGenerationError, TakeFailure,
};
use qlib_core::saoe_live_market::{LiveMarketRead, LiveSaoeMarketError, MarketStep};

fn ticks(value: i64) -> Ticks {
    Ticks(Some(value))
}

fn list(values: &[i64]) -> Vec<Ticks> {
    values.iter().map(|value| ticks(*value)).collect()
}

fn time(seconds: i64) -> Timestamp {
    Timestamp { seconds, nanos: 0 }
}

fn order(stock: &str) -> SaoeOrder<Ticks> {
    SaoeOrder {
        stock_id: stock.to_owned(),
        amount: ticks(100),
        direction: OrderDir::Buy,
        start_time: Some(time(10)),
        end_time: Some(time(50)),
    }
}

fn state(cur_step: i64, position: i64) -> SaoeState<Ticks> {
    SaoeState::new(SaoeStateParts {
        order: order("A"),
        cur_time: time(30),
        cur_step,
        position: ticks(position),
        history_steps: HistoryPositions::Values(list(&[80, 60])),
        ticks_per_step: 2,
        ticks_index: vec![time(10), time(20), time(30), time(40)],
        ticks_for_order: vec![time(10), time(20), time(30)],
    })
}

fn key(stock: &str) -> DayKey {
    DayKey { stock_id: stock.to_owned(), day: time(0), direction: OrderDir::Buy }
}

#[test]
fn proxies_suspend_and_resume() {
    let mut strategy: ProxySaoeStrategy<u8> = ProxySaoeStrategy::new();
    assert_eq!(strategy.last_step_range(), (0, 0));
    assert!(matches!(strategy.check_begin::<()>(), Err(SaoeError::MissingOuterOrder)));
    assert!(matches!(
        ProxySaoeStrategy::<u8>::check_reset::<()>(2, Ok(key("A"))),
        Err(SaoeError::OuterOrderCount(2))
    ));
    assert!(matches!(ProxySaoeStrategy::<u8>::check_reset(1, Err("old")), Err(SaoeError::Order("old"))));
    let found = ProxySaoeStrategy::<u8>::check_reset::<()>(1, Ok(key("A"))).unwrap();
    strategy.finish_reset(7, found);
    assert_eq!(strategy.current_order::<()>().unwrap(), &7);
    assert!(matches!(strategy.begin_resume::<u8, ()>(Some(1)), Err(SaoeError::NotSuspended)));
    let locator = strategy.suspend((2, 5));
    assert_eq!((locator.stock_id.as_str(), locator.step_range), ("A", (2, 5)));
    assert!(matches!(strategy.check_begin::<()>(), Err(SaoeError::AlreadySuspended)));
    let request = strategy.begin_resume::<u8, ()>(Some(3)).unwrap();
    assert_eq!((request.stock_id.as_str(), request.amount), ("A", Some(3)));
    strategy.finish_resume();
    assert!(strategy.check_begin::<()>().is_ok());
    let keys = vec![Ok::<DayKey, SaoeError<()>>(key("A")), Ok(key("B")), Ok(key("A"))];
    assert_eq!(strategy.post_execute(keys).unwrap(), Some((vec![0, 2], (2, 5))));
    assert!(matches!(
        strategy.post_execute::<()>(vec![Ok(key("A")), Err(SaoeError::MissingBatch)]),
        Err(SaoeError::MissingBatch)
    ));
    let _ = strategy.suspend((4, 4));
    strategy.close_trade_decision();
    assert!(matches!(strategy.post_execute::<()>(vec![Ok(key("A"))]), Err(SaoeError::ExecutionsForZeroRange)));
    assert_eq!(strategy.post_execute::<()>(vec![]).unwrap(), None);
}

#[test]
fn prompts_are_checked() {
    assert!(check_prompt::<()>(saoe_proxy_prompt_kind(), saoe_state_schema_version()).is_ok());
    assert!(matches!(
        check_prompt::<()>("other", 1),
        Err(SaoeError::Plugin(error)) if error.message == "unsupported prompt kind: other"
    ));
    assert!(matches!(
        check_prompt::<()>("qlib.saoe.proxy", 12),
        Err(SaoeError::Plugin(error)) if error.message == "unsupported prompt schema version: 12"
    ));
}

#[test]
fn older_states_are_understood() {
    let second = || SaoeStateWireV2 {
        head: 1,
        history_exec: vec![1],
        history_steps: vec![2],
        ticks_index: vec![time(1)],
        ticks_for_order: vec![time(2)],
        deal_prices: vec![5],
        market_volumes: vec![6],
        features: vec![3],
        ticks_per_step: 4,
    };
    let first = SaoeStateWireV1 {
        head: 9,
        history_exec: vec![],
        history_steps: vec![],
        ticks_index: vec![time(1)],
        ticks_for_order: vec![],
        features: vec![],
        ticks_per_step: 1,
    };
    let wire: SaoeStateWire<i32, i32> = select_wire(Err("new"), Some(second()), None).unwrap();
    assert_eq!((wire.head, wire.state_ticks_index, wire.deal_prices), (1, vec![time(1)], vec![5]));
    let oldest: SaoeStateWire<i32, i32> = select_wire(Err("new"), None, Some(first)).unwrap();
    assert_eq!((oldest.head, oldest.state_ticks_index.len(), oldest.deal_prices.len()), (9, 1, 0));
    assert!(select_wire::<i32, i32, _>(Err("new"), None, None).is_err());
    assert_eq!(select_wire::<i32, i32, ()>(Ok(second().current()), None, None).unwrap().market_volumes, vec![6]);
}

#[test]
fn states_become_observations() {
    assert!(matches!(DummyStateInterpreter.interpret(&state(0, 100)), Ok(SaoeObservation::Dummy { dummy: 1 })));
    let steps = CurrentStepStateInterpreter::new(2).unwrap();
    match steps.interpret(&state(1, 60)) {
        Ok(SaoeObservation::CurrentStep(seen)) => {
            assert!(seen.acquiring);
            assert_eq!((seen.cur_step, seen.num_step, seen.target, seen.position), (1, 2, ticks(100), ticks(60)));
        }
        _ => panic!("the step is seen"),
    }
    assert!(matches!(steps.interpret(&state(3, 60)), Err(SaoeInterpreterError::InvalidMaxStep(2))));
    assert!(CurrentStepStateInterpreter::new(0).is_err());
}

fn processed(rows: usize) -> ProcessedSaoeData<Ticks> {
    let grid = |start: i64| Grid { rows: (0..rows).map(|row| list(&[start + row as i64])).collect(), columns: 1 };
    ProcessedSaoeData { today: grid(1), yesterday: grid(11), today_index: (0..rows).map(|row| time(row as i64 * 20)).collect() }
}

#[test]
fn histories_have_a_fixed_shape() {
    let interpreter = FullHistoryStateInterpreter::new(4, 3, 1).unwrap();
    let given = state(2, 60);
    let request = interpreter.request(&given).unwrap();
    assert_eq!((request.stock_id.as_str(), request.start_time, request.feature_dim), ("A", time(10), 1));
    let seen = interpreter.observe(&given, processed(3)).unwrap();
    assert_eq!(seen.data_processed.rows, vec![list(&[1]), list(&[2]), list(&[0])]);
    assert_eq!(seen.data_processed_prev.rows[0], list(&[11]));
    assert_eq!((seen.acquiring, seen.cur_tick, seen.cur_step, seen.num_step), (1, 2, 2, 4));
    assert_eq!(seen.position_history, list(&[100, 80, 60, 0]));
    assert!(matches!(
        interpreter.observe(&given, processed(2)),
        Err(SaoeInterpreterError::ProcessedShape { expected: (3, 1), actual: (2, 1), .. })
    ));
    let mut short = processed(3);
    short.today_index.pop();
    assert!(matches!(
        interpreter.observe(&given, short),
        Err(SaoeInterpreterError::ProcessedIndexLength { expected: 3, actual: 2 })
    ));
    let mut missing = state(2, 60);
    missing.parts.history_steps = HistoryPositions::Missing;
    assert!(matches!(
        interpreter.observe(&missing, processed(3)),
        Err(SaoeInterpreterError::MissingHistoryPosition)
    ));
    missing.parts.history_steps = HistoryPositions::Values(list(&[1, 2, 3, 4, 5]));
    assert!(matches!(
        interpreter.observe(&missing, processed(3)),
        Err(SaoeInterpreterError::HistoryTooLong { actual: 5, max_step: 4 })
    ));
    missing.parts.history_steps = HistoryPositions::WithNulls;
    assert!(matches!(interpreter.observe(&missing, processed(3)), Err(SaoeInterpreterError::NullHistoryPosition)));
    missing.parts.history_steps = HistoryPositions::OtherType("Utf8".to_owned());
    assert!(matches!(
        interpreter.observe(&missing, processed(3)),
        Err(SaoeInterpreterError::InvalidHistoryPositionType(name)) if name == "Utf8"
    ));
    missing.parts.order.start_time = None;
    assert!(matches!(interpreter.request(&missing), Err(SaoeInterpreterError::MissingOrderStartTime)));
    assert!(matches!(
        FullHistoryStateInterpreter::new(0, 1, 1),
        Err(SaoeInterpreterError::InvalidObservationDimension { value: 0, .. })
    ));
}

#[test]
fn shares_of_orders_are_taken() {
    let shares = CategoricalActionInterpreter::from_values(list(&[0, 1, 2]), Some(3)).unwrap();
    assert_eq!(SaoeActionInterpreter::<Ticks>::action_space(&shares), SaoeActionSpace::Discrete { size: 3 });
    let volume = |step: i64, action: i64| shares.interpret(&state(step, 60), SaoePolicyAction::Discrete(action));
    assert_eq!(volume(0, 0).unwrap(), ticks(0));
    assert_eq!(volume(0, 1).unwrap(), ticks(60));
    assert_eq!(volume(2, 0).unwrap(), ticks(60));
    assert!(matches!(volume(0, 3), Err(SaoeInterpreterError::DiscreteOutOfRange { action: 3, size: 3 })));
    assert!(matches!(volume(0, -1), Err(SaoeInterpreterError::DiscreteOutOfRange { action: -1, size: 3 })));
    assert!(matches!(
        shares.interpret(&state(0, 60), SaoePolicyAction::Continuous(ticks(1))),
        Err(SaoeInterpreterError::ExpectedDiscrete)
    ));
    let halves: CategoricalActionInterpreter<Ticks> = CategoricalActionInterpreter::from_count(1, None).unwrap();
    assert_eq!(halves.action_values, list(&[0, 1]));
    assert!(CategoricalActionInterpreter::<Ticks>::from_count(0, None).is_err());
    assert!(CategoricalActionInterpreter::<Ticks>::from_values(vec![], None).is_err());
}

#[test]
fn even_shares_follow_the_remaining_steps() {
    let twap = TwapRelativeActionInterpreter;
    let volume = |step: i64, factor: i64| twap.interpret(&state(step, 60), SaoePolicyAction::Continuous(ticks(factor)));
    assert_eq!(volume(0, 1).unwrap(), ticks(30));
    assert_eq!(volume(1, 1).unwrap(), ticks(60));
    assert_eq!(volume(0, 5).unwrap(), ticks(60));
    assert!(matches!(volume(2, 1), Err(SaoeInterpreterError::NoRemainingSteps)));
    assert!(matches!(volume(0, -1), Err(SaoeInterpreterError::NegativeContinuous)));
    let mut broken = state(0, 60);
    broken.parts.ticks_per_step = 0;
    assert!(matches!(
        twap.interpret(&broken, SaoePolicyAction::Continuous(ticks(1))),
        Err(SaoeInterpreterError::ZeroTicksPerStep)
    ));
    assert!(matches!(
        twap.interpret(&broken, SaoePolicyAction::Discrete(1)),
        Err(SaoeInterpreterError::ExpectedContinuous)
    ));
}

#[test]
fn pipelines_decide_for_every_state() {
    let policy: AllOnePolicy<Ticks> = AllOnePolicy::new(SaoePolicyAction::Continuous(ticks(1)));
    let mut pipeline = SaoePolicyPipeline::new(DummyStateInterpreter, policy, TwapRelativeActionInterpreter);
    let states = vec![state(0, 60), state(1, 40)];
    assert_eq!(pipeline.execution_volumes(&states).unwrap(), list(&[30, 40]));
    assert_eq!(pipeline.decisions(&states).unwrap().len(), 2);
    let one = vec![SaoePolicyAction::Continuous(ticks(1))];
    assert_eq!(decide_all(&TwapRelativeActionInterpreter, &states, &one).unwrap().len(), 1);
    assert!(matches!(
        decide_strictly(&TwapRelativeActionInterpreter, &states, &one),
        Err(SaoeInterpreterError::PolicyBatchLength { expected: 2, actual: 1 })
    ));
}

#[test]
fn loaded_data_is_kept_by_use() {
    let mut loader = SaoeBacktestDataLoader::new();
    let name = |number: usize| cache_key(&order(&format!("S{number}"))).unwrap();
    for number in 0..SAOE_BACKTEST_DATA_CACHE_CAPACITY {
        assert_eq!(loader.keep(name(number), number), None);
    }
    assert_eq!(loader.cached(&name(0)), Some(0));
    assert_eq!(loader.keep(name(1000), 1000), Some(1));
    assert_eq!(loader.cached(&name(1)), None);
    assert_eq!(loader.cached(&name(0)), Some(0));
    assert_eq!(loader.keep(name(0), 55), Some(0));
    assert_eq!(loader.cached(&name(0)), Some(55));
    assert_eq!(loader.cache_len(), SAOE_BACKTEST_DATA_CACHE_CAPACITY);
    let mut later = order("S0");
    later.start_time = Some(time(86399));
    assert_eq!(cache_key(&later).unwrap(), name(0));
    later.start_time = Some(time(-1));
    assert_ne!(cache_key(&later).unwrap(), name(0));
    later.start_time = None;
    assert!(matches!(cache_key(&later), Err(SaoeBacktestDataLoadError::MissingStartTime)));
    assert!(matches!(loader.begin_load(Some(&order("S0")), true), Ok(LoadBegin::Cached(55))));
    let mut fresh = order("T");
    fresh.end_time = None;
    assert!(matches!(loader.begin_load(Some(&fresh), true), Ok(LoadBegin::QuoteTimestamps(_))));
    assert!(matches!(loader.begin_load(Some(&fresh), false), Err(SaoeBacktestDataLoadError::MissingEndTime)));
    assert!(matches!(loader.begin_load::<Ticks>(None, true), Err(SaoeBacktestDataLoadError::OrderPoisoned)));
}

#[test]
fn orders_trade_within_the_session() {
    let day = 86400;
    let quotes = vec![time(day), time(day + 10), time(day + 20), time(day + 30)];
    let mut traded = order("A");
    traded.start_time = Some(time(day + 5));
    traded.end_time = Some(time(day + 30));
    let stage = quotes_read(Ok(quotes.clone()), Some(&traded)).unwrap();
    assert_eq!(stage.ticks_index, vec![time(day + 10), time(day + 20), time(day + 30)]);
    let stage = stage.range_read(Some((time(0), time(20)))).unwrap();
    assert_eq!(stage.ticks_for_order, vec![time(day + 10), time(day + 20)]);
    assert_eq!((stage.first, stage.last), (time(day + 10), time(day + 20)));
    let other = "B".to_owned();
    let stage = stage.deals_read(Ok(vec![1, 2]), Some(&other)).unwrap();
    assert_eq!(stage.stock_id, "B");
    let data = stage.volumes_read(Ok(vec![3, 4])).unwrap();
    assert_eq!((data.deal_prices, data.market_volumes), (vec![1, 2], vec![3, 4]));
    let error = |start: Option<i64>, end: Option<i64>| {
        let mut given = order("A");
        given.start_time = start.map(time);
        given.end_time = end.map(time);
        quotes_read(Ok(quotes.clone()), Some(&given)).err()
    };
    assert!(matches!(error(None, None), Some(SaoeBacktestDataLoadError::MissingStartTime)));
    assert!(matches!(error(Some(0), None), Some(SaoeBacktestDataLoadError::MissingEndTime)));
    assert!(matches!(error(Some(0), Some(1)), Some(SaoeBacktestDataLoadError::EmptyOrderInterval)));
    assert!(matches!(
        quotes_read::<Ticks>(Ok(vec![]), None),
        Err(SaoeBacktestDataLoadError::OrderPoisoned)
    ));
    let interval = || quotes_read(Ok(quotes.clone()), Some(&traded)).unwrap();
    assert!(matches!(interval().range_read(None), Err(SaoeBacktestDataLoadError::UnsupportedTradeRange)));
    assert!(matches!(
        interval().range_read(Some((time(50), time(60)))),
        Err(SaoeBacktestDataLoadError::EmptyTradeRange)
    ));
    assert_eq!(time(-1).time_of_day(), time(86399));
}

#[test]
fn adapters_are_found_by_their_order() {
    let mut registry: SaoeAdapterRegistry<u8> = SaoeAdapterRegistry::new();
    registry.add(Ok(key("A")), 1).unwrap();
    registry.add(Ok(key("B")), 2).unwrap();
    registry.add(Ok(key("A")), 3).unwrap();
    assert_eq!(registry.len(), 2);
    assert_eq!(registry.state_adapter(Ok(key("A"))).unwrap(), &3);
    assert!(matches!(
        registry.state_adapter(Ok(key("C"))),
        Err(RegistryError::Missing(missing)) if missing.stock_id == "C"
    ));
    assert!(matches!(registry.add(Err("time".to_owned()), 1), Err(RegistryError::Key(message)) if message == "time"));
    let keys = vec![Ok::<DayKey, SaoeError<()>>(key("B")), Ok(key("A")), Ok(key("C")), Ok(key("B"))];
    assert_eq!(registry.grouped(keys).unwrap(), vec![vec![1], vec![0, 3]]);
    assert!(registry.grouped::<()>(vec![Err(SaoeError::MissingBatch)]).is_err());
    registry.clear();
    assert!(registry.is_empty());
}

fn decision(volume: i64) -> SaoePolicyDecision<Ticks> {
    SaoePolicyDecision { action: SaoePolicyAction::Discrete(1), execution_volume: ticks(volume) }
}

#[test]
fn decisions_become_children_and_details() {
    let orders = vec![order("A"), order("B"), order("C")];
    let requests = child_requests(&orders, &vec![decision(5), decision(0)]);
    assert_eq!(requests.len(), 1);
    assert_eq!((requests[0].stock_id.as_str(), requests[0].amount), ("A", Some(ticks(5))));
    let readings = vec![(time(1), "30min".to_owned()), (time(1), "30min".to_owned())];
    let details = build_details(&orders, &vec![decision(5), decision(0)], &readings);
    assert_eq!((details[1].instrument.as_str(), details[1].execution_volume), ("B", ticks(0)));
    let mut strategy: SaoeIntStrategy<u8> = SaoeIntStrategy::new();
    assert!(matches!(strategy.check_begin(), Err(SaoeIntStrategyError::MissingOuterDecision)));
    strategy.reset(vec![1, 2]);
    assert!(strategy.check_begin().is_ok());
    assert_eq!(strategy.last_step_range(), (0, 0));
    assert!(matches!(strategy.post_execute(0), Ok(ExecutionUpdate::Nothing)));
    assert!(matches!(strategy.post_execute(1), Err(SaoeIntStrategyError::ExecutionsForZeroRange)));
    assert_eq!(strategy.open_steps((1, 3)), Some(&vec![1, 2]));
    assert!(matches!(strategy.post_execute(0), Ok(ExecutionUpdate::Steps(1, 3))));
}

#[test]
fn live_lists_are_walked() {
    let mut cursor = LiveCursor::new();
    assert_eq!((cursor.next(2), cursor.next(2), cursor.next(2), cursor.next(3)), (Some(0), Some(1), None, Some(2)));
    let item = LiveItem::Order { stock_id: "A".to_owned(), direction: OrderDir::Sell };
    assert!(as_order(0, &item).is_ok());
    assert!(matches!(as_order(4, &LiveItem::Other), Err(DecisionAccessError::InvalidOrder(4))));
    assert!(matches!(child_step::<Ticks>(0, &item, None), ChildStep::Stop));
    assert!(matches!(child_step(0, &item, Some(&decision(0))), ChildStep::Skip));
    assert!(matches!(
        child_step(0, &item, Some(&decision(4))),
        ChildStep::Create(request) if request.stock_id == "A" && request.amount == Some(ticks(4))
    ));
    assert!(matches!(
        child_step(3, &LiveItem::Poisoned, Some(&decision(4))),
        ChildStep::Failed(DecisionAccessError::OrderPoisoned(3))
    ));
    assert_eq!(detail_instrument(0, &item).unwrap(), "A");
    assert!(matches!(detail_instrument(2, &LiveItem::Poisoned), Err(DecisionAccessError::OrderPoisoned(2))));
    let row = detail_row("A".to_owned(), time(3), "day".to_owned(), &decision(4));
    assert_eq!((row.instrument.as_str(), row.datetime, row.execution_volume), ("A", time(3), ticks(4)));
}

#[test]
fn live_generations_read_their_list_anew() {
    let item = |stock: &str| LiveItem::Order { stock_id: stock.to_owned(), direction: OrderDir::Sell };
    let started = |decisions: Vec<SaoePolicyDecision<Ticks>>| {
        let (mut generation, first) = LiveGeneration::begin();
        assert!(matches!(first, LiveAction::FetchOrders));
        assert!(matches!(generation.orders_fetched(Ok(())), LiveAction::ReadItem(0)));
        assert!(matches!(generation.item_read(Ok(Some(LiveItem::Poisoned))), LiveAction::TakeState(0)));
        assert!(matches!(generation.state_taken(Ok(())), LiveAction::ReadItem(1)));
        assert!(matches!(generation.item_read(Ok(None)), LiveAction::Decide));
        assert!(matches!(generation.decided(Ok(decisions)), LiveAction::FetchOrders));
        assert!(matches!(generation.orders_fetched(Ok(())), LiveAction::ReadItem(0)));
        generation
    };
    let mut generation = started(vec![decision(4), decision(0), decision(6)]);
    assert!(matches!(
        generation.item_read(Ok(Some(item("A")))),
        LiveAction::CreateChild(request) if request.stock_id == "A" && request.amount == Some(ticks(4))
    ));
    assert!(matches!(generation.child_created(Ok(())), LiveAction::ReadItem(1)));
    assert!(matches!(generation.item_read(Ok(Some(LiveItem::Poisoned))), LiveAction::ReadItem(2)));
    assert!(matches!(generation.item_read(Ok(None)), LiveAction::FetchOrders));
    assert!(matches!(generation.orders_fetched(Ok(())), LiveAction::ReadItem(0)));
    assert!(matches!(generation.item_read(Ok(Some(item("B")))), LiveAction::ReadCalendar));
    assert!(matches!(generation.calendar_read(Ok((time(7), "day".to_owned()))), LiveAction::ReadItem(1)));
    assert!(matches!(generation.item_read(Ok(None)), LiveAction::Finished));
    let details = generation.finish();
    assert_eq!(details.len(), 1);
    assert_eq!((details[0].instrument.as_str(), details[0].execution_volume), ("B", ticks(4)));
    let mut failing = started(vec![decision(4)]);
    assert!(matches!(
        failing.item_read(Ok(Some(LiveItem::Other))),
        LiveAction::Failed(LiveSaoeGenerationError::Orders(DecisionAccessError::InvalidOrder(0)))
    ));
    let mut poisoned = started(vec![decision(4)]);
    assert!(matches!(
        poisoned.item_read(Err(())),
        LiveAction::Failed(LiveSaoeGenerationError::Orders(DecisionAccessError::ListPoisoned))
    ));
    let mut empty = started(vec![]);
    assert!(matches!(empty.item_read(Ok(Some(item("A")))), LiveAction::FetchOrders));
    assert!(matches!(empty.orders_fetched(Ok(())), LiveAction::Finished));
    let mut lost = started(vec![]);
    assert!(matches!(lost.item_read(Ok(None)), LiveAction::FetchOrders));
    assert!(matches!(
        lost.orders_fetched(Err("gone".to_owned())),
        LiveAction::Failed(LiveSaoeGenerationError::Decision(message)) if message == "gone"
    ));
    let waiting = || {
        let (mut generation, _) = LiveGeneration::<Ticks>::begin();
        generation.orders_fetched(Ok(()));
        generation.item_read(Ok(Some(item("A"))));
        generation
    };
    assert!(matches!(
        waiting().state_taken(Err(TakeFailure::Lookup(SaoePluginError { message: "state".to_owned() }))),
        LiveAction::Failed(LiveSaoeGenerationError::State(error)) if error.message == "state"
    ));
    assert!(matches!(
        waiting().state_taken(Err(TakeFailure::Observation(SaoeInterpreterError::InvalidMaxStep(3)))),
        LiveAction::Failed(LiveSaoeGenerationError::Pipeline(SaoeInterpreterError::InvalidMaxStep(3)))
    ));
}

#[test]
fn decisions_are_assembled_in_order() {
    let (mut assembly, first) = DecisionAssembly::begin(vec![order("A"), order("B"), order("C")]);
    assert!(matches!(first, AssemblyAction::ReadState(0)));
    assert!(matches!(assembly.state_read(Ok(())), AssemblyAction::ReadState(1)));
    assert!(matches!(assembly.state_read(Ok(())), AssemblyAction::ReadState(2)));
    assert!(matches!(assembly.state_read(Ok(())), AssemblyAction::Decide));
    assert!(matches!(
        assembly.decided(Ok(vec![decision(0), decision(5), decision(0)])),
        AssemblyAction::CreateChild(request) if request.stock_id == "B" && request.amount == Some(ticks(5))
    ));
    assert!(matches!(assembly.child_created(Ok(())), AssemblyAction::ReadCalendar));
    for _ in 0..2 {
        assert!(matches!(assembly.calendar_read(Ok((time(1), "day".to_owned()))), AssemblyAction::ReadCalendar));
    }
    assert!(matches!(assembly.calendar_read(Ok((time(2), "day".to_owned()))), AssemblyAction::ReadTimes));
    assert!(matches!(assembly.times_read(Ok((time(3), time(4)))), AssemblyAction::Finished));
    let (details, times) = assembly.finish().unwrap();
    assert_eq!(times, (time(3), time(4)));
    let rows: Vec<(&str, Ticks)> = details.iter().map(|row| (row.instrument.as_str(), row.execution_volume)).collect();
    assert_eq!(rows, vec![("A", ticks(0)), ("B", ticks(5)), ("C", ticks(0))]);
    let failure = || SaoePluginError { message: "lost".to_owned() };
    let (mut stateless, _) = DecisionAssembly::<Ticks>::begin(vec![order("A")]);
    assert!(matches!(
        stateless.state_read(Err(failure())),
        AssemblyAction::Failed(SaoeIntStrategyError::State(error)) if error.message == "lost"
    ));
    assert!(stateless.finish().is_none());
    let (mut empty, asked) = DecisionAssembly::<Ticks>::begin(vec![]);
    assert!(matches!(asked, AssemblyAction::Decide));
    assert!(matches!(empty.decided(Ok(vec![])), AssemblyAction::ReadTimes));
    assert!(matches!(
        empty.times_read(Err(failure())),
        AssemblyAction::Failed(SaoeIntStrategyError::Calendar(_))
    ));
}

#[test]
fn states_are_pulled_one_by_one() {
    let policy: AllOnePolicy<Ticks> = AllOnePolicy::new(SaoePolicyAction::Continuous(ticks(1)));
    let steps = CurrentStepStateInterpreter::new(2).unwrap();
    let mut pipeline = SaoePolicyPipeline::new(steps, policy, TwapRelativeActionInterpreter);
    let mut pulled = pipeline.begin();
    pipeline.pull(&mut pulled, state(0, 60)).unwrap();
    assert!(matches!(pipeline.pull(&mut pulled, state(3, 60)), Err(SaoeInterpreterError::InvalidMaxStep(2))));
    assert_eq!(pulled.states.len(), 1);
    let decided = pipeline.decisions_from(&pulled).unwrap();
    assert_eq!(decided[0].execution_volume, ticks(30));
}

#[test]
fn markets_are_read_volume_first() {
    let stock = "A".to_owned();
    let (mut read, step) = LiveMarketRead::<u8>::begin(Some(&stock));
    assert!(matches!(step, MarketStep::QueryVolume { stock_id } if stock_id == "A"));
    let step = read.volume_read(Ok(vec![1, 2]), Some((&stock, OrderDir::Sell)));
    assert!(matches!(step, MarketStep::QueryPrice { direction: OrderDir::Sell, .. }));
    match read.price_read(Ok(vec![3])) {
        MarketStep::Finished(slice) => assert_eq!((slice.volume, slice.price), (vec![1, 2], vec![3])),
        _ => panic!("the market was read"),
    }
    let (_, step) = LiveMarketRead::<u8>::begin(None);
    assert!(matches!(step, MarketStep::Failed(LiveSaoeMarketError::VolumeOrderPoisoned)));
    let (mut failing, _) = LiveMarketRead::<u8>::begin(Some(&stock));
    assert!(matches!(
        failing.volume_read(Ok(vec![]), None),
        MarketStep::Failed(LiveSaoeMarketError::PriceOrderPoisoned)
    ));
    assert!(matches!(
        failing.volume_read(Err(SaoePluginError { message: "shut".to_owned() }), None),
        MarketStep::Failed(LiveSaoeMarketError::Volume(_))
    ));
}

#[test]
fn adapters_are_configured() {
    let frequency = |unit: FrequencyUnit| Frequency { count: Integer::from_usize(1), unit };
    assert_eq!(ticks_per_step(&frequency(FrequencyUnit::Minute), &Integer::from_usize(30), "30min").unwrap(), 30);
    assert_eq!(
        ticks_per_step(&frequency(FrequencyUnit::Month), &Integer::zero(), "month").unwrap_err().message,
        "SAOE executor frequency cannot use calendar months"
    );
    assert_eq!(
        ticks_per_step(&frequency(FrequencyUnit::Minute), &Integer::from_i64(-1), "big").unwrap_err().message,
        "SAOE executor frequency is too large: big"
    );
    assert_eq!((start_step(Some((3, 9))), start_step(None)), (3, 0));
    let (_, step) = InputsRead::<u8>::begin(false);
    assert!(matches!(step, InputsStep::Failed(_)));
    let (mut read, step) = InputsRead::<u8>::begin(true);
    assert!(matches!(step, InputsStep::LoadData));
    assert!(matches!(read.data_loaded(Ok(8)), InputsStep::TicksPerStep));
    assert!(matches!(read.ticks_read(Ok(30)), InputsStep::StartStep));
    let config = read.start_read(Ok(2), 5).unwrap();
    assert_eq!(
        (config.backtest_data, config.ticks_per_step, config.data_granularity, config.start_step),
        (8, 30, 5, 2)
    );
    assert_eq!(ConfiguredSaoeStateAdapterFactory::new(4).inputs, 4);
}

#[test]
fn accounts_answer_for_orders() {
    assert_eq!(market_array("volume", Some(MarketDataValue::Series(vec![1, 2]))).unwrap(), vec![1, 2]);
    assert!(market_array::<u8>("volume", None).unwrap_err().message.contains("no data"));
    assert!(market_array("price", Some(MarketDataValue::Scalar(1))).is_err());
    let mut row: OrderedMap<Ticks> = OrderedMap::new();
    assert_eq!(
        latest_price_advantage(&row).unwrap_err().message,
        "SAOE account indicator has no current price advantage"
    );
    row.insert("pa".to_owned(), ticks(4));
    assert_eq!(latest_price_advantage(&row).unwrap(), ticks(4));
    assert_eq!(NestedAccountSaoeContext::new(1, 2, "day".to_owned()).frequency, "day");
}

#[test]
fn children_run_below_their_parent() {
    let config = ResumableNestedConfig {
        skip_empty_decision: true,
        align_range_limit: false,
        decision_tracking: NestedDecisionTracking { outer: true, inner: false },
        settle_type: "cash".to_owned(),
        indicator_config: IndicatorConfig {
            fulfill_rate: IndicatorWeightMethod::Mean,
            price_advantage: IndicatorWeightMethod::Mean,
        },
        aggregation_config: OrderIndicatorAggregationConfig { base_price: 3u8 },
        level: 0,
    };
    let factory = ConfiguredSaoeChildAssemblyFactory::new(config);
    let components = SaoeChildComponents {
        calendar: 1,
        level_binding: 2,
        inner: 3,
        strategy: 4,
        outer: 5,
        account: 6,
        return_sink: Some(7),
    };
    let assembly = factory.assemble(components, 2);
    assert_eq!((assembly.config.level, assembly.config.settle_type.as_str()), (2, "cash"));
    assert_eq!((assembly.calendar, assembly.run.strategy, assembly.run.return_sink), (1, 4, Some(7)));
}

#[test]
fn day_maps_keep_the_first_order() {
    let mut map: DayMap<u8> = DayMap::new();
    map.insert(to_plain_key(&key("B")), 1);
    map.insert(to_plain_key(&key("A")), 2);
    map.insert(to_plain_key(&key("B")), 3);
    assert_eq!((map.len(), map.is_empty()), (2, false));
    assert_eq!(map.position(&to_plain_key(&key("A"))), Some(1));
    assert_eq!(map.get(&to_plain_key(&key("B"))), Some(&3));
    assert_eq!(map.value_at(0), &3);
    assert!(!map.contains(&to_plain_key(&key("C"))));
    assert!(key("A").same(&key("A")) && !key("A").same(&key("B")));
}

#[test]
fn stored_states_are_decoded_with_their_tables() {
    let wire = || SaoeStateWire {
        head: 1,
        history_exec: vec![1],
        history_steps: vec![2],
        ticks_index: vec![time(1)],
        ticks_for_order: vec![time(2)],
        deal_prices: vec![5],
        market_volumes: vec![6],
        features: vec![3],
        ticks_per_step: 4,
        state_ticks_index: vec![time(3)],
        state_ticks_for_order: vec![time(4)],
    };
    let decoded = decode_tables::<i32, i32, &str, &str>(wire(), Ok(Some("a")), Ok(Some("b")), Ok(Some("c"))).unwrap();
    assert_eq!((decoded.history_exec, decoded.history_steps, decoded.features), ("a", "b", "c"));
    assert_eq!((decoded.head, decoded.ticks_per_step), (1, 4));
    assert_eq!((decoded.deal_prices, decoded.market_volumes), (vec![5], vec![6]));
    assert_eq!((decoded.state_ticks_index, decoded.state_ticks_for_order), (vec![time(3)], vec![time(4)]));
    assert!(matches!(
        decode_tables::<i32, i32, &str, &str>(wire(), Ok(Some("a")), Ok(None), Err("torn")),
        Err(SaoeError::MissingBatch)
    ));
    assert!(matches!(
        decode_tables::<i32, i32, &str, &str>(wire(), Err("torn"), Ok(None), Ok(None)),
        Err(SaoeError::Table("torn"))
    ));
}
