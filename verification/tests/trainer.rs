//! Logs, the state of a trainer, its schedule and its checkpoints on concrete runs.
use qlib_core::integer::Integer;
use qlib_core::number::Ticks;
use qlib_core::ordered::OrderedMap;
use qlib_core::rl_log_writer::{
    aggregate_rl_logs, callback_failure, RlEpisodeField, RlLeveledLogs, RlLogBuffer, RlLogBufferEvent, RlLogBufferState,
    RlLogEntry, RlLogError, RlLogValue, RlLogWriter, RlLogWriterState,
};
use qlib_core::rl_trainer_checkpoint::{
    load_metadata, named_rl_checkpoint_indices, restore_failure, restore_step, CheckpointComponent, RestoreStep,
    RlCheckpointField, RlCheckpointOperation, RlTrainerCheckpoint, RlTrainerCheckpointError, RlTrainerSave,
};
use qlib_core::rl_trainer_driver::{
    DriverAction, DriverReply, RlTrainerConfig, RlTrainerControl, RlTrainerDriver, RlTrainerDriverError,
};
use qlib_core::rl_trainer_state::{
    buffer_report, metric_event, minimum_rl_log_level, MetricReport, RlTrainerRuntime, RlTrainerState,
    RlTrainerStateError, RlTrainerStateField,
};

fn ticks(value: i64) -> Ticks {
    Ticks(Some(value))
}

fn leveled(entries: &[(&str, i64, i64)]) -> RlLeveledLogs<Ticks, bool> {
    let mut logs: RlLeveledLogs<Ticks, bool> = OrderedMap::new();
    for (name, level, value) in entries {
        logs.insert(name.to_string(), RlLogEntry { level: *level, value: RlLogValue::Float(ticks(*value)) });
    }
    logs
}

fn entries<V: Copy>(map: &OrderedMap<V>) -> Vec<(String, V)> {
    (0..map.len()).map(|place| (map.name_at(place).clone(), *map.value_at(place))).collect()
}

fn named(pairs: &[(&str, i64)]) -> Vec<(String, Ticks)> {
    pairs.iter().map(|(name, value)| (name.to_string(), ticks(*value))).collect()
}

fn number(value: &Integer) -> i128 {
    value.to_i128().unwrap()
}

#[test]
fn steps_are_recorded_up_to_the_failure() {
    let mut writer: RlLogWriter<Ticks, bool> = RlLogWriter::new(20);
    let logs = leveled(&[("kept", 20, 5), ("hidden", 10, 6)]);
    assert!(matches!(
        writer.on_env_step(7, ticks(1), Some(&logs)),
        Err(RlLogError::Uninitialized { id: 7, field: RlEpisodeField::Length })
    ));
    assert_eq!(number(&writer.state_dict().global_step), 1);
    assert!(writer.state_dict().active_env_ids.contains(7));
    writer.on_env_reset(7);
    assert!(matches!(writer.on_step(7, None, Some(&logs)), Err(RlLogError::MissingReward)));
    assert!(matches!(writer.on_env_step(7, ticks(1), None), Err(RlLogError::MissingLog)));
    assert_eq!(writer.state_dict().episode_rewards.get(7), Some(&vec![ticks(1)]));
    writer.on_env_step(7, ticks(2), Some(&logs)).unwrap();
    writer.on_env_end();
    let state = writer.state_dict();
    assert_eq!(state.episode_rewards.get(7), Some(&vec![ticks(1), ticks(2)]));
    assert_eq!(number(state.episode_lengths.get(7).unwrap()), 2);
    let steps = state.episode_logs.get(7).unwrap();
    assert_eq!(steps.len(), 1);
    assert_eq!(entries(&steps[0]), vec![("kept".to_owned(), RlLogValue::Float(ticks(5)))]);
    assert_eq!(number(&state.global_episode), 1);
    writer.clear();
    assert_eq!(number(&writer.state_dict().episode_count), 0);
    assert_eq!(number(&writer.state_dict().global_episode), 1);
    assert_eq!(number(&writer.state_dict().global_step), 3);
    assert!(writer.state_dict().active_env_ids.is_empty());
    let fresh: RlLogWriterState<Ticks, bool> = Default::default();
    writer.load_state_dict(fresh);
    assert_eq!(number(&writer.state_dict().global_step), 0);
}

#[test]
fn missing_histories_are_named() {
    let mut state: RlLogWriterState<Ticks, bool> = Default::default();
    state.episode_lengths.insert(1, Integer::zero());
    let mut writer: RlLogWriter<Ticks, bool> = RlLogWriter::new(0);
    writer.load_state_dict(state);
    assert!(matches!(
        writer.on_env_step(1, ticks(1), None),
        Err(RlLogError::Uninitialized { id: 1, field: RlEpisodeField::Rewards })
    ));
    let mut state: RlLogWriterState<Ticks, bool> = Default::default();
    state.episode_lengths.insert(1, Integer::zero());
    state.episode_rewards.insert(1, Vec::new());
    writer.load_state_dict(state);
    assert!(matches!(
        writer.on_env_step(1, ticks(1), Some(&leveled(&[]))),
        Err(RlLogError::Uninitialized { id: 1, field: RlEpisodeField::Logs })
    ));
}

#[test]
fn rewards_are_added_and_others_averaged() {
    let values = [RlLogValue::<Ticks, bool>::Float(ticks(2)), RlLogValue::Float(ticks(4))];
    assert_eq!(aggregate_rl_logs(&values, Some("reward")).unwrap(), RlLogValue::Float(ticks(6)));
    assert_eq!(aggregate_rl_logs(&values, Some("pa")).unwrap(), RlLogValue::Float(ticks(3)));
    assert_eq!(aggregate_rl_logs(&values, None).unwrap(), RlLogValue::Float(ticks(3)));
    let mixed = [RlLogValue::<Ticks, bool>::Other(true), RlLogValue::Float(ticks(4))];
    assert_eq!(aggregate_rl_logs(&mixed, Some("reward")).unwrap(), RlLogValue::Other(true));
    let none: [RlLogValue<Ticks, bool>; 0] = [];
    assert!(matches!(aggregate_rl_logs(&none, None), Err(RlLogError::EmptyAggregation)));
}

#[test]
fn buffers_average_over_all_episodes() {
    let mut buffer: RlLogBuffer<Ticks, bool> = RlLogBuffer::new_buffer(0);
    assert!(matches!(buffer.buffer_state().episode_metrics(), Err(RlLogError::NoEpisodeMetrics)));
    buffer.on_env_reset(0);
    let first = leveled(&[("reward", 0, 3), ("pa", 0, 10)]);
    assert_eq!(buffer.on_env_step(0, ticks(0), false, Some(&first)).unwrap(), None);
    assert_eq!(
        buffer.on_env_step(0, ticks(0), true, Some(&first)).unwrap(),
        Some(RlLogBufferEvent::Episode)
    );
    assert_eq!(entries(buffer.buffer_state().episode_metrics().unwrap()), named(&[("reward", 6), ("pa", 10)]));
    buffer.on_env_reset(0);
    let second = leveled(&[("reward", 0, 4)]);
    buffer.on_env_step(0, ticks(0), true, Some(&second)).unwrap();
    assert_eq!(entries(buffer.buffer_state().episode_metrics().unwrap()), named(&[("reward", 4)]));
    let count = buffer.state_dict().episode_count.copied();
    assert_eq!(
        entries(&buffer.buffer_state().collect_metrics(&count).unwrap()),
        named(&[("reward", 5), ("pa", 5)])
    );
    assert_eq!(buffer.on_env_all_done(), RlLogBufferEvent::Collect);
    assert!(matches!(
        callback_failure(RlLogBufferEvent::Collect, "late".to_owned()),
        RlLogError::Callback { event: RlLogBufferEvent::Collect, message } if message == "late"
    ));
    assert!(buffer.on_env_step(9, ticks(0), true, Some(&second)).is_err());
    buffer.clear();
    assert!(buffer.buffer_state().episode_metrics().is_err());
    let empty: RlLogBufferState<Ticks> = RlLogBufferState::new();
    assert!(empty.collect_metrics(&Integer::zero()).unwrap().is_empty());
}

#[test]
fn metrics_join_under_their_stage() {
    let mut state: RlTrainerState<Ticks> = Default::default();
    let report = |name: &str, value: i64| {
        let mut metrics = OrderedMap::new();
        metrics.insert(name.to_owned(), ticks(value));
        metrics
    };
    assert!(matches!(
        state.metrics_callback(MetricReport::Collect { metrics: Ok(report("a", 1)) }),
        Err(RlTrainerStateError::Uninitialized(RlTrainerStateField::Metrics))
    ));
    assert!(matches!(
        state.current_iteration(),
        Err(RlTrainerStateError::Uninitialized(RlTrainerStateField::CurrentIteration))
    ));
    state.initialize();
    state.initialize_iter();
    assert_eq!(number(&state.current_iteration().unwrap()), 0);
    let episode = MetricReport::Episode { global_episode: Ok(Integer::from_usize(4)), metrics: Ok(report("a", 1)) };
    state.metrics_callback(episode).unwrap();
    assert_eq!(number(state.current_episode.as_ref().unwrap()), 4);
    state.current_stage = "val".to_owned();
    state.metrics_callback(MetricReport::Collect { metrics: Ok(report("a", 2)) }).unwrap();
    assert_eq!(entries(state.metrics.as_ref().unwrap()), named(&[("a", 1), ("val/a", 2)]));
    assert!(matches!(state.metrics_callback(MetricReport::Nothing), Err(RlTrainerStateError::NoMetricEvent)));
    let failing = MetricReport::Episode { global_episode: Err(RlTrainerStateError::Poisoned), metrics: Ok(report("a", 9)) };
    assert!(matches!(state.metrics_callback(failing), Err(RlTrainerStateError::Poisoned)));
    assert_eq!(metric_event(true, true), Some(RlLogBufferEvent::Episode));
    assert_eq!(metric_event(false, true), Some(RlLogBufferEvent::Collect));
    assert_eq!(metric_event(false, false), None);
    assert_eq!(minimum_rl_log_level(&[30, 10, 20]), 10);
    assert_eq!(minimum_rl_log_level(&[]), 20);
}

#[test]
fn buffers_report_to_the_trainer() {
    let mut buffer: RlLogBuffer<Ticks, bool> = RlLogBuffer::new_buffer(0);
    let mut runtime: RlTrainerRuntime<Ticks> = RlTrainerRuntime::new(None);
    runtime.set_fast_dev_run(Some(3));
    assert_eq!(runtime.fast_dev_run, Some(3));
    runtime.state.initialize();
    runtime.state.initialize_iter();
    assert!(matches!(
        buffer_report::<Ticks, bool, Ticks>(RlLogBufferEvent::Episode, buffer.state_dict(), buffer.buffer_state()),
        MetricReport::Episode { metrics: Err(RlTrainerStateError::Buffer(RlLogError::NoEpisodeMetrics)), .. }
    ));
    buffer.on_env_reset(0);
    let logs = leveled(&[("pa", 0, 8)]);
    let event = buffer.on_env_step(0, ticks(0), true, Some(&logs)).unwrap().unwrap();
    runtime.on_buffer_event(event, buffer.state_dict(), buffer.buffer_state()).unwrap();
    assert_eq!(entries(runtime.state.metrics.as_ref().unwrap()), named(&[("pa", 8)]));
    assert_eq!(number(runtime.state.current_episode.as_ref().unwrap()), 1);
}

fn describe(action: &DriverAction) -> String {
    match action {
        DriverAction::AssignTrainer => "assign".to_owned(),
        DriverAction::Restore => "restore".to_owned(),
        DriverAction::Callback { hook, index } => format!("{hook:?} {index}"),
        DriverAction::Progress { next, maximum } => format!(
            "progress {} of {}",
            next.text(),
            maximum.as_ref().map_or("any".to_owned(), |value| value.text())
        ),
        DriverAction::Seeds(phase) => format!("seeds {phase:?}"),
        DriverAction::EnterSeeds => "enter".to_owned(),
        DriverAction::Environment => "environment".to_owned(),
        DriverAction::Run(phase) => format!("run {phase:?}"),
        DriverAction::ExitSeeds => "exit".to_owned(),
        DriverAction::Finished => "finished".to_owned(),
        DriverAction::Failed(error) => format!("failed {error:?}"),
    }
}

fn control(max_iters: Option<i64>, every: Option<i64>) -> RlTrainerControl<Ticks> {
    RlTrainerControl {
        runtime: RlTrainerRuntime::new(None),
        config: RlTrainerConfig {
            max_iters: max_iters.map(Integer::from_i64),
            val_every_n_iters: every.map(Integer::from_i64),
        },
    }
}

fn drive(
    driver: &mut RlTrainerDriver,
    first: DriverAction,
    control: &mut RlTrainerControl<Ticks>,
    fails_at: Option<usize>,
    suppresses: bool,
) -> Vec<String> {
    let mut seen = vec![describe(&first)];
    let mut action = first;
    loop {
        let reply = match action {
            DriverAction::Finished | DriverAction::Failed(_) => return seen,
            DriverAction::ExitSeeds => DriverReply::Exited(suppresses),
            _ if fails_at == Some(seen.len()) => DriverReply::Failed(RlTrainerDriverError::Plugin {
                stage: "stage".to_owned(),
                message: "broken".to_owned(),
            }),
            _ => DriverReply::Done,
        };
        assert!(driver.expects(&reply));
        action = driver.answer(reply, control);
        seen.push(describe(&action));
    }
}

#[test]
fn fits_run_their_schedule() {
    let mut control = control(Some(2), Some(2));
    let mut driver = RlTrainerDriver::new(1);
    let first = driver.fit(false);
    let seen = drive(&mut driver, first, &mut control, None, false);
    assert_eq!(
        seen,
        vec![
            "assign", "FitStart 0", "progress 1 of 2", "IterStart 0", "TrainStart 0", "seeds Train", "enter",
            "environment", "run Train", "exit", "TrainEnd 0", "IterEnd 0", "progress 2 of 2", "IterStart 0",
            "TrainStart 0", "seeds Train", "enter", "environment", "run Train", "exit", "TrainEnd 0",
            "ValidateStart 0", "seeds Validation", "enter", "environment", "run Validation", "exit", "ValidateEnd 0",
            "IterEnd 0", "FitEnd 0", "finished",
        ]
    );
    assert_eq!(number(&control.runtime.state.current_iteration().unwrap()), 2);
    assert_eq!(control.runtime.state.should_stop, Some(true));
    let tested = driver.test();
    let seen = drive(&mut driver, tested, &mut control, None, false);
    assert_eq!(
        seen,
        vec!["assign", "TestStart 0", "seeds Test", "enter", "environment", "run Test", "exit", "TestEnd 0", "finished"]
    );
    assert_eq!(number(&control.runtime.state.current_iteration().unwrap()), 2);
}

#[test]
fn entered_seeds_are_left_and_may_suppress() {
    let mut broken = control(Some(1), None);
    let mut driver = RlTrainerDriver::new(0);
    let first = driver.fit(false);
    let seen = drive(&mut driver, first, &mut broken, Some(6), false);
    assert_eq!(seen[5], "run Train");
    assert_eq!(seen[6], "exit");
    assert!(seen[7].starts_with("failed"));
    let mut kept = control(Some(1), None);
    let first = driver.fit(false);
    let seen = drive(&mut driver, first, &mut kept, Some(6), true);
    assert_eq!(seen[6..], ["exit", "finished"]);
    let first = driver.fit(true);
    let seen = drive(&mut driver, first, &mut control(Some(1), None), Some(2), false);
    assert_eq!(seen[1], "restore");
    assert!(seen[2].starts_with("failed"));
    assert!(!driver.expects(&DriverReply::Done));
}

#[test]
fn validations_need_an_interval() {
    let mut none = control(None, None);
    assert!(!none.begin_validation().unwrap());
    assert!(matches!(none.finish_iteration(), Err(RlTrainerDriverError::MissingState("current_iter"))));
    let mut zero = control(None, Some(0));
    assert!(matches!(zero.begin_validation(), Err(RlTrainerDriverError::MissingState("current_iter"))));
    zero.runtime.state.initialize();
    assert!(matches!(zero.begin_validation(), Err(RlTrainerDriverError::ZeroValidationInterval)));
    let mut negative = control(Some(1), Some(-1));
    negative.runtime.state.initialize();
    assert!(negative.begin_validation().unwrap());
    assert_eq!(negative.runtime.state.current_stage, "val");
    negative.finish_iteration().unwrap();
    assert_eq!(negative.runtime.state.should_stop, Some(true));
}

#[test]
fn component_names_are_lowered_and_numbered() {
    let names: Vec<String> = ["Saver", "SAVER", "ÄStop", "saver"].iter().map(|name| name.to_string()).collect();
    let places = named_rl_checkpoint_indices(&names);
    assert_eq!(
        entries(&places),
        vec![
            ("saver".to_owned(), 0),
            ("saver1".to_owned(), 1),
            ("ästop".to_owned(), 2),
            ("saver2".to_owned(), 3),
        ]
    );
}

#[test]
fn checkpoints_restore_what_they_saved() {
    let callbacks = vec!["First".to_owned(), "Second".to_owned()];
    let loggers = vec!["Log".to_owned()];
    let mut state: RlTrainerState<Ticks> = Default::default();
    state.initialize();
    state.initialize_iter();
    let mut save: RlTrainerSave<u8, u16, u32> = RlTrainerSave::begin(&callbacks, &loggers);
    assert_eq!(save.due(), Some(CheckpointComponent::Vessel));
    save.vessel_saved(Ok(1)).unwrap();
    assert_eq!(save.due(), Some(CheckpointComponent::Callback(0)));
    save.callback_saved(Ok(2)).unwrap();
    assert_eq!(save.due(), Some(CheckpointComponent::Callback(1)));
    match save.callback_saved(Err("full".to_owned())) {
        Err(RlTrainerCheckpointError::Component { operation, component, message }) => {
            assert_eq!(operation, RlCheckpointOperation::Save);
            assert_eq!(component, "callbacks.second");
            assert_eq!(message, "full");
        }
        _ => panic!("the save failed"),
    }
    save.callback_saved(Ok(3)).unwrap();
    assert_eq!(save.due(), Some(CheckpointComponent::Logger(0)));
    save.logger_saved(Ok(4)).unwrap();
    assert_eq!(save.due(), None);
    state.current_episode = Some(Integer::from_usize(9));
    let checkpoint = save.finish(&state).unwrap();
    let callback_places = named_rl_checkpoint_indices(&callbacks);
    let logger_places = named_rl_checkpoint_indices(&loggers);
    let step = |position: usize| restore_step(&checkpoint, &callback_places, &logger_places, position);
    assert!(matches!(step(0), Ok(RestoreStep::Vessel(1))));
    assert!(matches!(step(1), Ok(RestoreStep::Callback(0, 2))));
    assert!(matches!(step(2), Ok(RestoreStep::Callback(1, 3))));
    assert!(matches!(step(3), Ok(RestoreStep::Logger(0, 4))));
    assert!(matches!(step(4), Ok(RestoreStep::Metadata)));
    assert!(matches!(
        restore_failure(&callback_places, &logger_places, 3, "torn".to_owned()),
        RlTrainerCheckpointError::Component { operation: RlCheckpointOperation::Load, component, .. }
            if component == "loggers.log"
    ));
    let mut restored: RlTrainerState<Ticks> = Default::default();
    load_metadata(&mut restored, &checkpoint).unwrap();
    assert_eq!(restored.should_stop, Some(false));
    assert_eq!(number(restored.current_episode.as_ref().unwrap()), 9);
    assert_eq!(number(restored.current_iter.as_ref().unwrap()), 0);
}

#[test]
fn missing_fields_are_named() {
    let empty: RlTrainerCheckpoint<u8, u16, u32, Ticks> = Default::default();
    let none: OrderedMap<usize> = OrderedMap::new();
    assert!(matches!(
        restore_step(&empty, &none, &none, 0),
        Err(RlTrainerCheckpointError::MissingField(path)) if path == "vessel"
    ));
    let mut state: RlTrainerState<Ticks> = Default::default();
    assert!(matches!(
        load_metadata(&mut state, &empty),
        Err(RlTrainerCheckpointError::MissingField(path)) if path == "should_stop"
    ));
    let field: RlCheckpointField<u8> = Default::default();
    assert!(field.is_missing());
    assert!(field.require("x").is_err());
    assert_eq!(RlCheckpointField::Present(3u8).require("x").unwrap(), &3);
    let mut save: RlTrainerSave<u8, u16, u32> = RlTrainerSave::begin(&Vec::new(), &Vec::new());
    save.vessel_saved(Ok(1)).unwrap();
    let fresh: RlTrainerState<Ticks> = Default::default();
    assert!(matches!(save.finish(&fresh), Err(RlTrainerCheckpointError::Uninitialized(_))));
}

#[test]
fn collections_report_means_to_the_trainer() {
    let mut buffer: RlLogBuffer<Ticks, bool> = RlLogBuffer::new_buffer(0);
    let mut runtime: RlTrainerRuntime<Option<Ticks>> = RlTrainerRuntime::new(None);
    runtime.state.initialize();
    runtime.state.initialize_iter();
    for value in [8, 4] {
        buffer.on_env_reset(0);
        let event = buffer.on_env_step(0, ticks(0), true, Some(&leveled(&[("pa", 0, value)]))).unwrap().unwrap();
        runtime.on_buffer_event(event, buffer.state_dict(), buffer.buffer_state()).unwrap();
        assert_eq!(runtime.state.metrics.as_ref().unwrap().get("pa"), Some(&Some(ticks(value))));
    }
    runtime.on_buffer_event(RlLogBufferEvent::Collect, buffer.state_dict(), buffer.buffer_state()).unwrap();
    assert_eq!(runtime.state.metrics.as_ref().unwrap().get("pa"), Some(&Some(ticks(6))));
    assert_eq!(number(runtime.state.current_episode.as_ref().unwrap()), 2);
}

#[test]
fn failures_of_trainers_say_what_is_wrong() {
    let field = RlTrainerStateError::Uninitialized(RlTrainerStateField::CurrentIteration);
    assert_eq!(field.message(), "trainer CurrentIteration has not been initialized");
    let count = RlLogError::EpisodeCountNotRepresentable(Integer::from_i64(-7));
    assert_eq!(
        RlTrainerStateError::Buffer(count).message(),
        "episode count cannot be represented as a finite float: -7"
    );
    let callback = callback_failure(RlLogBufferEvent::Collect, "late".to_owned());
    assert_eq!(callback.message(), "RL log buffer Collect callback failed: late");
    let component = RlTrainerCheckpointError::Component {
        operation: RlCheckpointOperation::Load,
        component: "loggers.log".to_owned(),
        message: "torn".to_owned(),
    };
    assert_eq!(component.message(), "Load checkpoint component loggers.log failed: torn");
}
