//! Callbacks of a trainer: checkpoints, early stopping, tables of metrics and policy files.
use qlib_core::integer::Integer;
use qlib_core::number::Ticks;
use qlib_core::ordered::OrderedMap;
use qlib_core::rl_checkpoint_callback::{
    CheckpointAction, CheckpointReply, RlCheckpointCallback, RlCheckpointCallbackError, RlCheckpointConfig,
    RlCheckpointTimeInterval, RlLosslessCheckpointCallback, RlLosslessCheckpointConfig,
};
use qlib_core::rl_checkpoint_file::{
    file_restore_error, FileRlCheckpointStorage, RlOwnedCheckpointComponent, RlTrainerGraph,
};
use qlib_core::rl_checkpoint_format::{FloatFormat, NoFloats, TrainingMetricScalar};
use qlib_core::rl_checkpoint_text::RlCheckpointText;
use qlib_core::rl_early_stopping::{
    MonitoredValue, RlEarlyStopping, RlEarlyStoppingConfig, RlEarlyStoppingError, RlEarlyStoppingLogLevel, StopAction, StopReply,
};
use qlib_core::rl_metrics_writer::{
    recorded_history, write_rl_metrics_csv, CellText, MetricsTable, RlMetricsCsvError, RlMetricsWriter,
    RlMetricsWriterError,
};
use qlib_core::rl_policy_checkpoint::{
    DirectPolicyCheckpoint, PolicyCheckpointError, PolicyCheckpointFile, TrainerPolicyCheckpoint,
    TrainingVesselCheckpoint,
};
use qlib_core::rl_policy_update::{PolicyFamily, PolicyUpdate, UpdateAction, UpdateStage};
use qlib_core::rl_policy_weight::{PolicyWeightLoad, PolicyWeightLoadError, PolicyWeights, WeightStep};
use qlib_core::rl_trainer_checkpoint::{
    CheckpointComponent, RlCheckpointField, RlTrainerCheckpoint, RlTrainerCheckpointError,
};
use qlib_core::rl_trainer_driver::{RlTrainerDriverError, RlTrainerHook, RlTrainerPhase};
use qlib_core::rl_trainer_state::RlTrainerState;
use qlib_core::rl_training_vessel::{run_error, seed_error, seed_phase, TrainingSeedPhase};
use std::sync::Arc;

fn ticks(value: i64) -> Ticks {
    Ticks(Some(value))
}

fn trainer<M>(iteration: usize, metrics: Vec<(&str, M)>) -> RlTrainerState<M> {
    let mut state: RlTrainerState<M> = Default::default();
    state.initialize();
    state.current_iter = Some(Integer::from_usize(iteration));
    let mut held = OrderedMap::new();
    for (name, value) in metrics {
        held.insert(name.to_owned(), value);
    }
    state.metrics = Some(held);
    state
}

fn name(action: &CheckpointAction) -> String {
    match action {
        CheckpointAction::Timestamp => "timestamp".to_owned(),
        CheckpointAction::CreateDirectory => "directory".to_owned(),
        CheckpointAction::LocalTime => "local time".to_owned(),
        CheckpointAction::Render { iteration, local_time } => format!("render {} {local_time}", iteration.text()),
        CheckpointAction::Collect => "collect".to_owned(),
        CheckpointAction::Save => "save".to_owned(),
        CheckpointAction::LatestExists => "exists".to_owned(),
        CheckpointAction::LatestIsLink => "is link".to_owned(),
        CheckpointAction::RemoveLatest => "remove".to_owned(),
        CheckpointAction::LinkLatest => "link".to_owned(),
        CheckpointAction::CopyLatest => "copy".to_owned(),
        CheckpointAction::Finished => "finished".to_owned(),
        CheckpointAction::Failed(error) => format!("{error:?}"),
    }
}

fn run(
    callback: &mut RlCheckpointCallback<Ticks>,
    hook: RlTrainerHook,
    state: &RlTrainerState<Ticks>,
    now: i64,
    exists: bool,
) -> Vec<String> {
    let mut action = callback.on_hook(hook, state);
    let mut seen = vec![name(&action)];
    loop {
        let reply = match &action {
            CheckpointAction::Finished | CheckpointAction::Failed(_) => return seen,
            CheckpointAction::Timestamp => CheckpointReply::Time(ticks(now)),
            CheckpointAction::LocalTime => CheckpointReply::LocalTime("today".to_owned()),
            CheckpointAction::Render { iteration, .. } => CheckpointReply::Name(iteration.text()),
            CheckpointAction::LatestExists | CheckpointAction::LatestIsLink => CheckpointReply::Flag(exists),
            _ => CheckpointReply::Done,
        };
        assert!(callback.expects(&reply));
        action = callback.answer(reply, state);
        seen.push(name(&action));
    }
}

#[test]
fn saves_follow_their_steps() {
    let config: RlCheckpointConfig<Ticks> = RlCheckpointConfig::new("runs".to_owned());
    assert_eq!(config.filename, "{iter:03d}.pth");
    let mut callback = RlCheckpointCallback::new(config);
    let state = trainer(3, vec![("reward", ticks(1))]);
    assert_eq!(
        run(&mut callback, RlTrainerHook::FitEnd, &state, 50, false),
        vec![
            "directory", "local time", "render 3 today", "timestamp", "collect", "save", "exists", "is link", "link",
            "finished",
        ]
    );
    assert_eq!(callback.state.last_name, Some("3".to_owned()));
    assert_eq!(callback.state.last_time, Some(ticks(50)));
    assert_eq!(run(&mut callback, RlTrainerHook::FitEnd, &state, 60, false), vec!["finished"]);
    assert_eq!(run(&mut callback, RlTrainerHook::TrainEnd, &state, 60, false), vec!["finished"]);
    callback.config.save_latest = Some("copy".to_owned());
    let later = trainer(4, vec![("reward", ticks(1))]);
    let seen = run(&mut callback, RlTrainerHook::FitEnd, &later, 60, true);
    assert_eq!(seen[6..], ["exists", "remove", "copy", "finished"]);
    callback.config.save_latest = Some(String::new());
    let last = trainer(5, vec![("reward", ticks(1))]);
    let seen = run(&mut callback, RlTrainerHook::FitEnd, &last, 60, true);
    assert_eq!(seen[5..], ["save", "finished"]);
}

#[test]
fn intervals_decide_on_saves() {
    let mut config: RlCheckpointConfig<Ticks> = RlCheckpointConfig::new("runs".to_owned());
    config.every_n_iters = Some(Integer::from_usize(2));
    config.save_latest = None;
    let mut callback = RlCheckpointCallback::new(config);
    let even = trainer(0, vec![("reward", ticks(1))]);
    let odd = trainer(1, vec![("reward", ticks(1))]);
    assert_eq!(run(&mut callback, RlTrainerHook::IterEnd, &even, 0, false), vec!["finished"]);
    assert_eq!(run(&mut callback, RlTrainerHook::IterEnd, &odd, 0, false).len(), 7);
    callback.config.time_interval = Some(RlCheckpointTimeInterval::Integer(Integer::from_usize(10)));
    assert_eq!(run(&mut callback, RlTrainerHook::IterEnd, &even, 9, false), vec!["timestamp", "finished"]);
    assert_eq!(run(&mut callback, RlTrainerHook::IterEnd, &even, 10, false)[..2], ["timestamp", "directory"]);
    callback.config.every_n_iters = Some(Integer::zero());
    assert_eq!(run(&mut callback, RlTrainerHook::IterEnd, &even, 0, false), vec!["ZeroIterationInterval"]);
    let interval = RlCheckpointTimeInterval::Float(ticks(3));
    assert!(interval.elapsed(ticks(3)));
    assert!(!interval.elapsed(ticks(2)));
}

#[test]
fn failed_saves_keep_what_was_known() {
    let mut callback: RlCheckpointCallback<Ticks> = RlCheckpointCallback::new(RlCheckpointConfig::new("runs".to_owned()));
    let state = trainer(3, vec![("time", ticks(1))]);
    assert_eq!(
        run(&mut callback, RlTrainerHook::FitEnd, &state, 0, false),
        vec!["directory", "local time", "DuplicateKeyword(\"time\")"]
    );
    assert!(matches!(callback.save(), CheckpointAction::CreateDirectory));
    match callback.answer(CheckpointReply::Failed("full".to_owned()), &state) {
        CheckpointAction::Failed(RlCheckpointCallbackError::Plugin { stage, message }) => {
            assert_eq!((stage, message.as_str()), ("mkdir", "full"));
        }
        _ => panic!("the directory failed"),
    }
    assert!(callback.state.last_iter.is_none());
    let fresh: RlTrainerState<Ticks> = Default::default();
    assert_eq!(
        run(&mut callback, RlTrainerHook::FitEnd, &fresh, 0, false),
        vec!["MissingTrainerField(\"current_iter\")"]
    );
    let lossless: RlLosslessCheckpointConfig<Ticks> = RlLosslessCheckpointConfig::new("runs".to_owned());
    let mut other = RlLosslessCheckpointCallback::new(lossless);
    assert!(other.config.filename.equals(&RlCheckpointText::from_utf8("{iter:03d}.pth")));
    assert!(matches!(other.on_hook(RlTrainerHook::FitEnd, &state), CheckpointAction::CreateDirectory));
}

type Stopping = RlEarlyStopping<u8, Ticks>;

fn stopping(mode: &str, patience: usize, restores: bool) -> Stopping {
    let mut config: RlEarlyStoppingConfig<Ticks> = Default::default();
    config.mode = mode.to_owned();
    config.patience = Integer::from_usize(patience);
    config.restore_best_weights = restores;
    let mut early = RlEarlyStopping::new(config).unwrap();
    early.on_fit_start();
    early
}

fn validate(early: &mut Stopping, state: &mut RlTrainerState<Option<Ticks>>) -> Vec<String> {
    let mut action = early.on_hook(RlTrainerHook::ValidateEnd, state);
    let mut seen = Vec::new();
    loop {
        let reply = match &action {
            StopAction::Finished => return seen,
            StopAction::Failed(error) => {
                seen.push(format!("{error:?}"));
                return seen;
            }
            StopAction::Log { message, .. } => {
                seen.push(message.clone());
                StopReply::Done
            }
            StopAction::TakeSnapshot => {
                seen.push("snapshot".to_owned());
                StopReply::Snapshot(Some(7))
            }
            StopAction::SaveVessel => {
                seen.push("save".to_owned());
                StopReply::Done
            }
            StopAction::LoadVessel => {
                seen.push("load".to_owned());
                StopReply::Done
            }
        };
        assert!(early.expects(&reply));
        action = early.answer(reply, state);
    }
}

#[test]
fn lost_patience_stops_the_trainer() {
    let mut early = stopping("max", 1, false);
    let mut first = trainer(0, vec![("reward", Some(ticks(5)))]);
    assert_eq!(
        validate(&mut early, &mut first),
        vec!["#0 current reward: 5.0000, best reward: 5.0000 in #0"]
    );
    assert_eq!(first.should_stop, Some(false));
    let mut second = trainer(1, vec![("reward", Some(ticks(4)))]);
    assert_eq!(
        validate(&mut early, &mut second),
        vec!["#1 current reward: 4.0000, best reward: 5.0000 in #0", "On iteration 2: early stopping"]
    );
    assert_eq!(second.should_stop, Some(true));
    let mut least = stopping("min", 3, false);
    let mut one = trainer(0, vec![("reward", Some(ticks(5)))]);
    validate(&mut least, &mut one);
    assert!(least.is_improvement(ticks(4), ticks(5)));
    assert!(!least.is_improvement(ticks(5), ticks(5)));
    assert!(matches!(
        RlEarlyStopping::<u8, Ticks>::new(RlEarlyStoppingConfig { mode: "best".to_owned(), ..Default::default() }),
        Err(RlEarlyStoppingError::UnsupportedMode(mode)) if mode == "best"
    ));
}

#[test]
fn best_weights_are_restored() {
    let mut early = stopping("max", 1, true);
    let mut first = trainer(0, vec![("reward", Some(ticks(5)))]);
    let seen = validate(&mut early, &mut first);
    assert_eq!(seen[..4], ["save", "snapshot", "save", "snapshot"]);
    let saved = early.state_dict().unwrap();
    let mut second = trainer(1, vec![("reward", Some(ticks(4)))]);
    let seen = validate(&mut early, &mut second);
    assert_eq!(
        seen[1..],
        ["On iteration 2: early stopping", "Restoring model weights from the end of the best iteration: 1", "load"]
    );
    early.load_state_dict(&saved).unwrap();
    assert!(matches!(early.state.wait, RlCheckpointField::Present(ref wait) if wait.is_zero()));
    assert!(matches!(early.state.best, RlCheckpointField::Present(Ticks(Some(5)))));
}

#[test]
fn unavailable_metrics_are_warned_about() {
    let mut early = stopping("max", 0, false);
    let mut state = trainer(1, vec![("a", Some(ticks(5))), ("b", None), ("reward", None)]);
    match early.on_validate_end(&state) {
        StopAction::Log { level, message } => {
            assert_eq!(level, RlEarlyStoppingLogLevel::Warning);
            assert_eq!(
                message,
                "Early stopping conditioned on metric `reward` which is not available. Available metrics are: a,b,reward"
            );
        }
        _ => panic!("a warning is due"),
    }
    assert!(matches!(early.answer(StopReply::Done, &mut state), StopAction::Finished));
    let known = trainer(1, vec![("reward", Some(ticks(5)))]);
    assert!(matches!(early.get_monitor_value(&known), Ok(MonitoredValue::Known(Ticks(Some(5))))));
    let empty: RlEarlyStopping<u8, Ticks> = RlEarlyStopping::new(Default::default()).unwrap();
    assert!(matches!(
        empty.state_dict(),
        Err(RlEarlyStoppingError::Checkpoint(RlTrainerCheckpointError::MissingField(_)))
    ));
    let mut failing = stopping("max", 0, true);
    let mut given = trainer(1, vec![("reward", Some(ticks(5)))]);
    let _ = failing.on_validate_end(&given);
    assert!(matches!(
        failing.answer(StopReply::Failed("gone".to_owned()), &mut given),
        StopAction::Failed(RlEarlyStoppingError::Plugin { stage: "save", .. })
    ));
}

#[derive(Clone, Copy, Debug)]
struct Float(f64);

impl FloatFormat for Float {
    fn format(&self, spec: &str) -> Result<String, String> {
        pyformat_rs::format_float(self.0, spec).map_err(|error| error.to_string())
    }

    fn is_finite(&self) -> bool {
        self.0.is_finite()
    }

    fn is_percent_finite(&self) -> bool {
        (self.0 * 100.0).is_finite()
    }

    fn zero() -> Self {
        Float(0.0)
    }

    fn from_integer(value: &Integer) -> Option<Self> {
        value.text().parse::<f64>().ok().filter(|number| number.is_finite()).map(Float)
    }
}

impl CellText for Float {
    fn is_undefined(&self) -> bool {
        self.0.is_nan()
    }

    fn write(&self) -> String {
        rustpython_literal::float::to_string(self.0)
    }

    fn render(value: &TrainingMetricScalar<Self>) -> Result<String, String> {
        match value {
            TrainingMetricScalar::Float(number) => Ok(number.write()),
            TrainingMetricScalar::Integer(number) => Ok(number.text()),
            TrainingMetricScalar::Text(text) => Ok(text.clone()),
            TrainingMetricScalar::Boolean(flag) => Ok(if *flag { "True" } else { "False" }.to_owned()),
            TrainingMetricScalar::Null => Ok(String::new()),
            TrainingMetricScalar::Custom => Err("no text".to_owned()),
        }
    }
}

fn row<M>(pairs: Vec<(&str, M)>) -> OrderedMap<M> {
    let mut record = OrderedMap::new();
    for (name, value) in pairs {
        record.insert(name.to_owned(), value);
    }
    record
}

fn table(rows: Vec<OrderedMap<TrainingMetricScalar<Float>>>, terminator: Option<u8>) -> String {
    let table = write_rl_metrics_csv(&rows, terminator);
    assert!(table.failure.is_none());
    String::from_utf8(table.bytes).unwrap()
}

fn whole(value: i64) -> TrainingMetricScalar<Float> {
    TrainingMetricScalar::Integer(Integer::from_i64(value))
}

fn fraction(value: f64) -> TrainingMetricScalar<Float> {
    TrainingMetricScalar::Float(Float(value))
}

#[test]
fn tables_join_their_columns() {
    let rows = vec![row(vec![("a", whole(1)), ("b", fraction(0.5))]), row(vec![("b", fraction(f64::NAN)), ("c", whole(3))])];
    assert_eq!(table(rows, Some(b'\n')), ",a,b,c\n0,1.0,0.5,\n1,,,3.0\n");
    let whole_only = vec![row(vec![("a", whole(1))]), row(vec![("a", whole(2))])];
    assert_eq!(table(whole_only, None), ",a\r\n0,1\r\n1,2\r\n");
    let mixed = vec![
        row(vec![("a", TrainingMetricScalar::Text("x,\"y\"".to_owned()))]),
        row(vec![("a", TrainingMetricScalar::Boolean(true))]),
    ];
    assert_eq!(table(mixed, Some(b'\n')), ",a\n0,\"x,\"\"y\"\"\"\n1,True\n");
    assert_eq!(table(vec![OrderedMap::new()], Some(b'\n')), "\"\"\n");
}

#[test]
fn tables_report_what_fails() {
    let rows = vec![row(vec![("a", TrainingMetricScalar::<Float>::Custom)])];
    let broken = write_rl_metrics_csv(&rows, Some(b'\n'));
    assert!(matches!(broken.failure, Some(RlMetricsCsvError::Format(message)) if message == "no text"));
    let huge = (0..400).fold(Integer::from_usize(1), |sum, _| {
        sum.plus(&sum).plus(&sum).plus(&sum).plus(&sum).plus(&sum)
    });
    let rows = vec![row(vec![("a", TrainingMetricScalar::<Float>::Integer(huge))])];
    assert!(matches!(write_rl_metrics_csv(&rows, Some(b'\n')).failure, Some(RlMetricsCsvError::IntegerOverflow)));
    let optional: Vec<OrderedMap<Option<NoFloats>>> = vec![row(vec![("a", None)])];
    let text = write_rl_metrics_csv::<NoFloats, _>(&optional, Some(b'\n'));
    assert_eq!(text.bytes, b",a\n0,\n");
}

#[test]
fn histories_part_metrics_by_stage() {
    let mut writer: RlMetricsWriter<Ticks> = RlMetricsWriter::new("runs".to_owned(), Ok(())).unwrap();
    let state = trainer(0, vec![("a", ticks(1)), ("val/a", ticks(2))]);
    assert_eq!(writer.record(&state, false).unwrap().filename(), "train_result.csv");
    assert_eq!(writer.record(&state, true).unwrap().filename(), "validation_result.csv");
    assert_eq!(writer.train_records[0].name_at(0), "a");
    assert_eq!(writer.valid_records[0].name_at(0), "val/a");
    assert_eq!(writer.on_train_end(&state).unwrap(), MetricsTable::Train);
    assert_eq!(writer.on_validate_end(&state).unwrap(), MetricsTable::Validation);
    assert_eq!((writer.train_records.len(), writer.valid_records.len()), (2, 2));
    assert_eq!(recorded_history(RlTrainerHook::TrainEnd), Some(MetricsTable::Train));
    assert_eq!(recorded_history(RlTrainerHook::ValidateEnd), Some(MetricsTable::Validation));
    assert_eq!(recorded_history(RlTrainerHook::FitEnd), None);
    assert!(matches!(
        RlMetricsWriter::<Ticks>::new("runs".to_owned(), Err("full".to_owned())),
        Err(RlMetricsWriterError::Directory(message)) if message == "full"
    ));
    let fresh: RlTrainerState<Ticks> = Default::default();
    assert!(matches!(writer.record(&fresh, false), Err(RlMetricsWriterError::MissingMetrics)));
}

#[test]
fn weights_are_retried_once_under_prefixed_names() {
    let mut weights: PolicyWeights<u8, ()> = PolicyWeights { weights: row(vec![("a", 1), ("b", 2)]), metadata: () };
    let (mut load, step) = PolicyWeightLoad::begin();
    assert!(matches!(step, WeightStep::Load));
    let step = load.answer(Some(PolicyWeightLoadError::Runtime("names".to_owned())), &mut weights);
    assert!(matches!(step, WeightStep::Load));
    assert_eq!(weights.weights.get("_actor_critic.b"), Some(&2));
    assert_eq!(weights.weights.len(), 4);
    let step = load.answer(Some(PolicyWeightLoadError::Runtime("still".to_owned())), &mut weights);
    assert!(matches!(step, WeightStep::Failed(PolicyWeightLoadError::Runtime(message)) if message == "still"));
    let (mut other, _) = PolicyWeightLoad::begin();
    let step = other.answer(Some(PolicyWeightLoadError::Other("shape".to_owned())), &mut weights);
    assert!(matches!(step, WeightStep::Failed(PolicyWeightLoadError::Other(_))));
    let (mut good, _) = PolicyWeightLoad::begin();
    assert!(matches!(good.answer(None, &mut weights), WeightStep::Finished));
}

#[test]
fn policies_are_taken_out_of_documents() {
    let mut direct: PolicyCheckpointFile<(), DirectPolicyCheckpoint, u8> =
        PolicyCheckpointFile::new((), DirectPolicyCheckpoint);
    assert_eq!(direct.read_policy(Ok(5)).unwrap(), 5);
    assert!(matches!(direct.read_policy(Err("gone".to_owned())), Err(PolicyCheckpointError::Read(_))));
    type Document = RlTrainerCheckpoint<TrainingVesselCheckpoint<u8>, (), (), ()>;
    let mut whole_file: PolicyCheckpointFile<(), TrainerPolicyCheckpoint, Document> =
        PolicyCheckpointFile::new((), TrainerPolicyCheckpoint);
    let mut document: Document = Default::default();
    document.vessel = RlCheckpointField::Present(TrainingVesselCheckpoint { policy: 6 });
    assert_eq!(whole_file.read_policy(Ok(document)).unwrap(), 6);
    assert!(matches!(
        whole_file.read_policy(Ok(Default::default())),
        Err(PolicyCheckpointError::Extract(message)) if message == "checkpoint field is missing: vessel"
    ));
}

#[test]
fn graphs_save_their_components_by_name() {
    let component = |name: &str| RlOwnedCheckpointComponent { name: name.to_owned(), state: () };
    let graph: RlTrainerGraph<u8, (), ()> =
        RlTrainerGraph::new(vec![component("Saver"), component("Saver")], vec![component("Log")]);
    let mut save = graph.begin_save::<u8, u8>();
    save.vessel_saved(Ok(1)).unwrap();
    save.callback_saved(Ok(2)).unwrap();
    assert_eq!(save.due(), Some(CheckpointComponent::Callback(1)));
    assert_eq!(FileRlCheckpointStorage::new(3u8).codec, 3);
    assert!(matches!(
        file_restore_error("torn".to_owned()),
        RlTrainerDriverError::Plugin { message, .. } if message == "torn"
    ));
}

#[test]
fn updates_go_through_their_stages() {
    let stages = |family: PolicyFamily, weights: bool, scheduler: bool| {
        let mut update = PolicyUpdate::new(family);
        let mut seen = Vec::new();
        let mut action = update.begin(true, scheduler);
        while let UpdateAction::Do(stage) = action {
            seen.push(stage);
            update.set_weights(weights);
            action = update.done();
        }
        assert!(!update.updating);
        seen
    };
    assert_eq!(
        stages(PolicyFamily::Ppo, true, true),
        vec![
            UpdateStage::Sample, UpdateStage::Process, UpdateStage::Resolve, UpdateStage::Learn, UpdateStage::Weights,
            UpdateStage::Schedule,
        ]
    );
    assert_eq!(
        stages(PolicyFamily::Dqn, false, false),
        vec![UpdateStage::Sample, UpdateStage::Process, UpdateStage::Learn]
    );
    let mut update = PolicyUpdate::new(PolicyFamily::Dqn);
    assert!(matches!(update.begin(false, true), UpdateAction::Finished));
    let _ = update.begin(true, false);
    assert!(matches!(update.adapter_failed("empty".to_owned()), UpdateAction::Adapter { stage: "sample", .. }));
    let _ = update.begin(true, false);
    let _ = update.done();
    update.failed();
    assert!(update.updating);
}

#[test]
fn vessels_name_their_phases() {
    assert_eq!(seed_phase(RlTrainerPhase::Validation), TrainingSeedPhase::Val);
    assert!(matches!(
        run_error(RlTrainerPhase::Train, "x".to_owned()),
        RlTrainerDriverError::Plugin { message, .. } if message == "x"
    ));
    assert!(matches!(
        seed_error("y".to_owned()),
        RlTrainerDriverError::Plugin { message, .. } if message == "y"
    ));
}

#[test]
fn metrics_of_any_kind_are_recorded_and_written() {
    let mut writer: RlMetricsWriter<Arc<TrainingMetricScalar<Float>>> =
        RlMetricsWriter::new("runs".to_owned(), Ok(())).unwrap();
    let word: TrainingMetricScalar<Float> = TrainingMetricScalar::Text("good".to_owned());
    let state = trainer(0, vec![("a", Arc::new(whole(7))), ("word", Arc::new(word)), ("val/a", Arc::new(whole(8)))]);
    writer.record(&state, false).unwrap();
    writer.record(&state, true).unwrap();
    let train = write_rl_metrics_csv(&writer.train_records, Some(b'\n'));
    assert!(train.failure.is_none());
    assert_eq!(String::from_utf8(train.bytes).unwrap(), ",a,word\n0,7,good\n");
    let valid = write_rl_metrics_csv(&writer.valid_records, Some(b'\n'));
    assert_eq!(String::from_utf8(valid.bytes).unwrap(), ",val/a\n0,8\n");
}

#[test]
fn failures_of_callbacks_say_what_is_wrong() {
    let missing = RlCheckpointCallbackError::MissingTrainerField("metrics");
    assert_eq!(missing.message(), "trainer metrics has not been initialized");
    let runtime = RlEarlyStoppingError::Checkpoint(RlTrainerCheckpointError::MissingField("vessel".to_owned()));
    assert_eq!(runtime.message(), "checkpoint field is missing: vessel");
    let plugin = RlEarlyStoppingError::Plugin { stage: "save", message: "full".to_owned() };
    assert_eq!(plugin.message(), "early stopping save failed: full");
    assert_eq!(RlMetricsWriterError::Table("full".to_owned()).message(), "metrics table persistence failed: full");
    assert_eq!(RlMetricsCsvError::IntegerOverflow.message(), "int too large to convert to float");
    assert_eq!(PolicyWeightLoadError::Other("shape".to_owned()).message(), "shape");
}
