//! Plans and decisions of networks and policies on concrete shapes.
use qlib_core::number::Ticks;
use qlib_core::ordered::OrderedMap;
use qlib_core::rl_candle_categorical::{
    action_choice, check_simplex, check_support, sample_rows, ActionChoice, CategoricalError, TrainingPolicyMode,
};
use qlib_core::rl_candle_checkpoint::{
    decode_name, decode_tensors, encode_name, encode_tensors, layout_key, layout_of, parameter_step, read_layout, share_places,
    stored_layout_text, validate_layout, weight_sources, widen_bytes, widen_pairs, widen_truths, CandlePolicyLayout,
    ParameterStep, RestoreErrors, StoredTensor,
};
use qlib_core::rl_candle_dqn::{
    action_argmax, action_columns, complement_bytes, complement_integers, complement_words, dqn_exploration,
    mask_complement, product_type, row_argmax, target_actions, DqnBatch, DqnError, MaskComplement, ScoreTable,
    TargetActions,
};
use qlib_core::rl_candle_dqn_policy::{register_models, CandleDqnConfig, DqnPolicyError, DqnSchedule, Exploration};
use qlib_core::rl_candle_heads::{
    all_parameters, broadcast_extent, check_rebuilt, extractor_name, plan_contract, register_component, ContractPath,
    HeadError,
};
use qlib_core::rl_candle_network::{
    check_sequence, normalize_steps, plan_features, plan_linear, DType, LinearPath, NetworkError, RecurrentConfig,
    RecurrentKind,
};
use qlib_core::rl_candle_optimizer::{
    gradient_norm_type, validate_gradients, CandleAdam, OfferedParameter, OptimizerError, StepInput,
};
use qlib_core::rl_candle_policy::{
    actor_critic_parameters, loss_metrics, register_policy, tensor_positions, CandlePpoConfig, ConfigurationError,
    LearnRun, LearnStep, ParameterHandle,
};
use qlib_core::rl_candle_ppo::{surrogate_type, PpoBatchForm, PpoLossConfig, PpoLossError, TensorForm};
use qlib_core::rl_candle_returns::{check_returns, prepare_returns, CandleReturnError, ReturnStatistics};
use qlib_core::rl_candle_vessel::{check_keywords, learn_options, repeat_count, LearnOptionError, OptionValue};
use qlib_core::rl_episodic_return::EpisodicReturnInput;
use qlib_core::rl_policy_weight::PolicyWeightLoadError;
use rand::rngs::StdRng;
use rand::SeedableRng;
use safetensors::tensor::TensorView;
use safetensors::Dtype;
use std::collections::HashMap;

fn ticks(value: i64) -> Ticks {
    Ticks(Some(value))
}

fn list(values: &[i64]) -> Vec<Ticks> {
    values.iter().map(|value| ticks(*value)).collect()
}

fn container(names: &[&str], notes: &[(&str, &str)]) -> Vec<u8> {
    let data = [1u8, 2];
    let tensors: Vec<(String, TensorView)> =
        names.iter().map(|name| (name.to_string(), TensorView::new(Dtype::U8, vec![2], &data).unwrap())).collect();
    let notes: HashMap<String, String> = notes.iter().map(|(key, text)| (key.to_string(), text.to_string())).collect();
    safetensors::serialize(tensors, Some(notes)).unwrap()
}

#[test]
fn containers_are_read_back() {
    let written = encode_name("actor.weight");
    assert_eq!(written, "pactor.weight");
    assert_eq!(decode_name(&written, true), Some("actor.weight".to_owned()));
    assert_eq!(decode_name("actor", true), None);
    assert_eq!(decode_name("actor", false), Some("actor".to_owned()));
    let bytes = container(&["pb", "pa"], &[("core.candle_policy.tensor_names", "prefix-p-v1")]);
    let tensors = decode_tensors(&bytes).unwrap();
    assert_eq!(tensors.len(), 2);
    let tensor = tensors.get("a").unwrap();
    assert_eq!((tensor.dtype.as_str(), tensor.shape.as_slice(), tensor.data.as_slice()), ("U8", &[2][..], &[1, 2][..]));
    let plain = decode_tensors(&container(&["pb"], &[])).unwrap();
    assert!(plain.contains("pb"));
    assert!(decode_tensors(&container(&["pb"], &[("core.candle_policy.tensor_names", "other")])).is_err());
    assert!(decode_tensors(&container(&["b"], &[("core.candle_policy.tensor_names", "prefix-p-v1")])).is_err());
    assert!(decode_tensors(&[1, 2, 3]).is_err());
    let noted = container(&["pb"], &[(layout_key(), "text")]);
    assert_eq!(stored_layout_text(&noted).unwrap(), Some("text".to_owned()));
    assert_eq!(stored_layout_text(&bytes).unwrap(), None);
}

#[test]
fn written_containers_are_read_back() {
    let tensor = |dtype: &str, shape: Vec<usize>, data: Vec<u8>| StoredTensor { dtype: dtype.to_owned(), shape, data };
    let list = vec![
        ("__metadata__".to_owned(), tensor("I16", vec![2], vec![1, 0, 2, 0])),
        ("a".to_owned(), tensor("U8", vec![], vec![9])),
        ("empty".to_owned(), tensor("F32", vec![0, 3], vec![])),
    ];
    let bytes = encode_tensors(list, "layout").unwrap();
    let read = decode_tensors(&bytes).unwrap();
    assert_eq!(read.len(), 3);
    let first = read.get("__metadata__").unwrap();
    assert_eq!((first.dtype.as_str(), first.shape.as_slice(), first.data.as_slice()), ("I16", &[2][..], &[1, 0, 2, 0][..]));
    assert_eq!(read.get("a").unwrap().data, vec![9]);
    assert_eq!(read.get("empty").unwrap().shape, vec![0, 3]);
    assert_eq!(stored_layout_text(&bytes).unwrap(), Some("layout".to_owned()));
    assert!(encode_tensors(vec![("a".to_owned(), tensor("U8", vec![2], vec![9]))], "").is_err());
    assert!(encode_tensors(vec![("a".to_owned(), tensor("Q8", vec![1], vec![9]))], "").is_err());
}

#[test]
fn containers_hold_tensors_that_fill_their_shapes() {
    let written = |dtype: &str, shape: Vec<usize>, bytes: usize| {
        let tensor = StoredTensor { dtype: dtype.to_owned(), shape, data: vec![0; bytes] };
        encode_tensors(vec![("a".to_owned(), tensor)], "").is_ok()
    };
    let sizes = [
        ("F4", 4), ("F6_E2M3", 6), ("F6_E3M2", 6), ("BOOL", 8), ("U8", 8), ("I8", 8), ("F8_E5M2", 8), ("F8_E4M3", 8),
        ("F8_E8M0", 8), ("I16", 16), ("U16", 16), ("F16", 16), ("BF16", 16), ("I32", 32), ("U32", 32), ("F32", 32),
        ("I64", 64), ("U64", 64), ("F64", 64), ("C64", 64),
    ];
    for (dtype, bits) in sizes {
        assert!(written(dtype, vec![2, 4], bits));
        assert!(!written(dtype, vec![2, 4], bits + 1));
        assert!(!written(dtype, vec![2, 4], bits - 1));
    }
    assert!(!written("F4", vec![3], 1));
    assert!(!written("F4", vec![3], 2));
    assert!(!written("f32", vec![1], 4));
    assert!(!written("", vec![0], 0));
    assert!(!written("U8", vec![usize::MAX, 2], 0));
    assert!(!written("U8", vec![usize::MAX, 2, 0], 0));
    assert!(written("U8", vec![0, usize::MAX, 2], 0));
    assert!(!written("U64", vec![usize::MAX / 32], 0));
    assert!(encode_tensors(Vec::new(), "").is_ok());
}

#[test]
fn lengths_that_cannot_be_added_are_refused() {
    let extent: usize = usize::MAX / 8;
    let entry = |place: usize| {
        format!(
            "\"p{place}\":{{\"dtype\":\"U8\",\"shape\":[{extent}],\"data_offsets\":[{},{}]}}",
            place * extent,
            (place + 1) * extent
        )
    };
    let header = format!("{{{}}}", (0..8).map(entry).collect::<Vec<String>>().join(","));
    let mut bytes = (header.len() as u64).to_le_bytes().to_vec();
    bytes.extend(header.as_bytes());
    let refusal = "incomplete metadata, file not fully covered";
    assert_eq!(decode_tensors(&bytes).err().as_deref(), Some(refusal));
    assert_eq!(stored_layout_text(&bytes).unwrap_err(), refusal);
    assert!(decode_tensors(&[0, 0, 0, 0, 0, 0, 0, 1]).is_err());
    assert!(decode_tensors(&[9, 0, 0]).is_err());
}

#[test]
fn containers_bound_their_headers() {
    assert!(encode_tensors(Vec::new(), &"\u{1}".repeat(1_000_000)).is_ok());
    assert!(encode_tensors(Vec::new(), &"a".repeat(100_000_000)).is_err());
}

fn stored(data: u8) -> StoredTensor {
    StoredTensor { dtype: "U8".to_owned(), shape: vec![1], data: vec![data] }
}

fn tensors(pairs: &[(&str, u8)]) -> OrderedMap<StoredTensor> {
    let mut map = OrderedMap::new();
    for (name, data) in pairs {
        map.insert(name.to_string(), stored(*data));
    }
    map
}

fn layout(entries: &[(&str, usize)]) -> CandlePolicyLayout {
    CandlePolicyLayout { version: 1, entries: entries.iter().map(|(name, place)| (name.to_string(), *place)).collect() }
}

#[test]
fn layouts_name_shared_tensors() {
    assert_eq!(share_places(&vec![7, 8, 7, 9]), vec![0, 1, 0, 3]);
    let made = layout_of(&vec!["a".to_owned(), "b".to_owned()], &vec![5, 5]);
    assert!(made.same(&layout(&[("a", 0), ("b", 0)])));
    assert_eq!(weight_sources(&made), vec![None, Some(0)]);
    assert!(validate_layout(&tensors(&[("a", 1), ("b", 1)]), &made).is_ok());
    let failure = |held: &[(&str, u8)], layout: &CandlePolicyLayout| validate_layout(&tensors(held), layout).unwrap_err();
    assert_eq!(failure(&[("a", 1), ("b", 2)], &made), "inconsistent policy alias:b");
    assert_eq!(failure(&[("a", 1)], &made), "policy layout does not cover all tensors");
    assert_eq!(failure(&[("a", 1), ("c", 1)], &made), "missing policy layout tensor:b");
    assert_eq!(failure(&[("a", 1), ("b", 1)], &layout(&[("a", 0), ("a", 0)])), "duplicate policy layout name:a");
    assert_eq!(failure(&[("a", 1), ("b", 1)], &layout(&[("a", 4), ("b", 1)])), "forward policy alias:a:4");
    let later = CandlePolicyLayout { version: 2, entries: Vec::new() };
    assert_eq!(failure(&[], &later), "unsupported policy layout version:2");
    assert!(read_layout(None, None).is_err());
    assert!(read_layout(None, Some(&made)).unwrap().same(&made));
    assert!(read_layout(Some(Err("torn".to_owned())), Some(&made)).is_err());
}

#[test]
fn narrow_values_are_widened() {
    assert_eq!(widen_truths(&vec![0, 1, 7]), vec![0, 1, 1]);
    assert_eq!(widen_bytes(&vec![1, 255]), vec![1, -1]);
    assert_eq!(widen_pairs(&vec![1, 0, 255, 255, 0, 128]), vec![1, -1, -32768]);
}

#[test]
fn restores_report_every_name() {
    assert!(matches!(parameter_step("a", 1, None), ParameterStep::Missing));
    assert!(matches!(parameter_step("a", 0, Some(&vec![3])), ParameterStep::Copy { first_value: true }));
    assert!(matches!(parameter_step("a", 1, Some(&vec![3])), ParameterStep::Copy { first_value: false }));
    assert!(matches!(
        parameter_step("a", 0, Some(&vec![0])),
        ParameterStep::Failed(PolicyWeightLoadError::Other(message))
            if message == "index:a:index 0 is out of bounds for dimension 0 with size 0"
    ));
    let mut errors = RestoreErrors::new();
    errors.missing("a");
    let names = |list: &[&str]| list.iter().map(|name| name.to_string()).collect::<Vec<String>>();
    match errors.finish(&names(&["a", "b"]), &names(&["z", "b", "c"])) {
        Err(PolicyWeightLoadError::Runtime(message)) => {
            assert_eq!(message.lines().collect::<Vec<&str>>()[1..], ["unexpected:c", "unexpected:z"]);
        }
        _ => panic!("names are left over"),
    }
    assert!(RestoreErrors::new().finish(&names(&["a"]), &names(&["a"])).is_ok());
    let mut copied = RestoreErrors::new();
    copied.not_copied("a", "shape");
    assert!(copied.finish(&names(&["a"]), &names(&["a"])).is_err());
}

#[test]
fn features_register_their_parameters() {
    let mut config = RecurrentConfig::new(5);
    config.kind = RecurrentKind::Lstm;
    config.hidden_dim = 4;
    config.layers = 2;
    let parameters = plan_features(config).unwrap();
    assert_eq!(parameters.len(), 3 * 2 * 4 + 6 * 2);
    assert_eq!(parameters[0].name, "raw_rnn.weight_ih_l0");
    assert_eq!(parameters[0].shape, vec![16, 4]);
    assert_eq!(parameters[7].name, "raw_rnn.bias_hh_l1");
    let last = parameters.last().unwrap();
    assert_eq!((last.name.as_str(), last.shape.as_slice(), last.fan_in), ("fc.2.bias", &[config.output_dim][..], 4));
    config.layers = 0;
    assert_eq!(plan_features(config).err(), Some(NetworkError::EmptyDimension));
    config.layers = 1;
    config.hidden_dim = usize::MAX / 2;
    assert_eq!(plan_features(config).err(), Some(NetworkError::SourceOverflow));
    config.hidden_dim = usize::MAX / 3;
    assert_eq!(plan_features(config).err(), Some(NetworkError::GateOverflow));
}

#[test]
fn layers_plan_their_products() {
    let plan = plan_linear(&vec![2, 3, 4], DType::F32, 4, 7, DType::F32).unwrap();
    assert_eq!((plan.rows, plan.channels, plan.path), (6, 4, LinearPath::Direct));
    assert_eq!(plan.output, vec![2, 3, 7]);
    assert_eq!(plan_linear(&vec![0, 4], DType::F32, 4, 7, DType::F32).unwrap().path, LinearPath::Empty);
    assert_eq!(plan_linear(&vec![1, 4], DType::BF16, 4, 7, DType::BF16).unwrap().path, LinearPath::Widened);
    assert_eq!(plan_linear(&vec![], DType::F32, 4, 7, DType::F32).err(), Some(NetworkError::ScalarInput));
    assert_eq!(plan_linear(&vec![3], DType::F32, 4, 7, DType::F32).err(), Some(NetworkError::InputMismatch));
    assert_eq!(normalize_steps(&vec![-1, 0], 2, 3), Ok(vec![2, 0]));
    assert_eq!(normalize_steps(&vec![0], 2, 3), Err(NetworkError::IndexCount));
    assert_eq!(normalize_steps(&vec![3], 1, 3), Err(NetworkError::IndexRange));
    assert_eq!(normalize_steps(&vec![-4], 1, 3), Err(NetworkError::IndexRange));
    assert!(check_sequence(1).is_ok());
    assert_eq!(check_sequence(0), Err(NetworkError::EmptySequence));
    assert!(DType::F16.is_reduced() && DType::F64.is_float() && !DType::I64.is_float());
    assert_eq!(DType::F16.accumulation(), DType::F32);
}

fn map<T: Copy>(pairs: &[(&str, T)]) -> OrderedMap<T> {
    let mut entries = OrderedMap::new();
    for (name, value) in pairs {
        entries.insert(name.to_string(), *value);
    }
    entries
}

fn names<T>(map: &OrderedMap<T>) -> Vec<String> {
    (0..map.len()).map(|place| map.name_at(place).clone()).collect()
}

#[test]
fn heads_join_their_parameters() {
    assert_eq!(broadcast_extent(1, 4), Ok(4));
    assert_eq!(broadcast_extent(4, 1), Ok(4));
    assert_eq!(broadcast_extent(0, 1), Ok(0));
    assert_eq!(broadcast_extent(2, 3), Err(HeadError::IncompatibleDimensions));
    let plan = plan_contract((1, 2, 3), DType::F32, (5, 3, 4), DType::F32).unwrap();
    assert_eq!((plan.batch, plan.rows, plan.inner, plan.columns, plan.path), (5, 2, 3, 4, ContractPath::Direct));
    assert_eq!(plan_contract((1, 2, 3), DType::F32, (1, 3, 4), DType::F64).err(), Some(HeadError::TypeMismatch));
    let mut target: OrderedMap<u64> = OrderedMap::new();
    register_component(&mut target, "net", &map(&[("w", 1u64)]));
    assert_eq!(target.get("net.w"), Some(&1));
    let all = all_parameters(&map(&[("w", 1u64)]), &map(&[("b", 2u64)]));
    assert_eq!(all.len(), 2);
    let inner = (0..all.len()).filter_map(|place| extractor_name(all.name_at(place))).collect::<Vec<String>>();
    assert_eq!(inner, vec!["w"]);
    assert!(check_rebuilt(&map(&[("w", 1u64)]), &map(&[("w", 1u64)])).is_ok());
    assert_eq!(
        check_rebuilt(&map(&[("w", 1u64)]), &map(&[("w", 2u64)])),
        Err(HeadError::ParametersNotRetained)
    );
}

fn loss() -> PpoLossConfig<Ticks> {
    PpoLossConfig {
        eps_clip: ticks(2),
        value_clip: true,
        normalize_advantage: false,
        value_weight: ticks(3),
        entropy_weight: ticks(2),
        dual_clip: Some(ticks(5)),
    }
}

#[test]
fn losses_clip_ratios_and_values() {
    let config = loss();
    assert_eq!(config.surrogate(&ticks(2), &ticks(10)), ticks(20));
    assert_eq!(config.surrogate(&ticks(9), &ticks(10)), ticks(30));
    assert_eq!(config.surrogate(&ticks(9), &ticks(-10)), ticks(-50));
    assert_eq!(config.surrogate(&ticks(2), &ticks(-10)), ticks(-20));
    assert_eq!(config.policy_part(&ticks(9), &ticks(10)), ticks(-30));
    assert_eq!(config.value_error(&ticks(10), Some(&ticks(0)), &ticks(11)), ticks(81));
    assert_eq!(config.value_error(&ticks(10), None, &ticks(11)), ticks(1));
    assert_eq!(config.value_part(&ticks(10), Some(&ticks(0)), &ticks(11)), ticks(81));
    assert_eq!(config.total(&ticks(1), &ticks(2), &ticks(3)), ticks(1));
    assert!(config.check_dual_clip().is_ok());
    let low = PpoLossConfig { dual_clip: Some(ticks(1)), ..loss() };
    assert_eq!(low.check_dual_clip(), Err(PpoLossError::DualClip));
    assert_eq!(surrogate_type(DType::F64), DType::F64);
}

fn form(dims: &[usize]) -> TensorForm {
    TensorForm { dims: dims.to_vec(), dtype: DType::F32, device: 0 }
}

#[test]
fn losses_check_their_batch() {
    let table = form(&[2, 3]);
    let column = form(&[2]);
    let actions = TensorForm { dims: vec![2], dtype: DType::I64, device: 0 };
    let mut given = PpoBatchForm {
        probabilities: &table,
        values: &column,
        actions: &actions,
        old_log_prob: &column,
        advantages: &column,
        returned: &column,
        old_values: None,
    };
    assert!(loss().check_batch(&given).is_ok());
    assert_eq!(loss().check_old_values(&given), Err(PpoLossError::MissingOldValues));
    let long = form(&[3]);
    given.old_values = Some(&long);
    assert_eq!(loss().check_old_values(&given), Err(PpoLossError::OldValueMismatch));
    given.old_values = Some(&column);
    assert!(loss().check_old_values(&given).is_ok());
    given.returned = &long;
    assert_eq!(loss().check_batch(&given), Err(PpoLossError::FieldMismatch));
    given.returned = &column;
    given.actions = &long;
    assert_eq!(loss().check_batch(&given), Err(PpoLossError::ActionShape));
    given.probabilities = &column;
    assert_eq!(loss().check_batch(&given), Err(PpoLossError::Rank(vec![2])));
    let block = form(&[4, 3, 12]);
    given.probabilities = &block;
    assert_eq!(
        loss().check_batch(&given).unwrap_err().message(),
        "unexpected rank, expected: 2, got: 3 ([4, 3, 12])"
    );
    let empty = form(&[0, 3]);
    given.probabilities = &empty;
    assert_eq!(loss().check_batch(&given), Err(PpoLossError::EmptyBatch));
}

#[test]
fn returns_are_scaled_and_counted() {
    let mut statistics: ReturnStatistics<Ticks> = Default::default();
    statistics.update(&list(&[1, 3]));
    assert_eq!((statistics.mean, statistics.variance, statistics.count), (ticks(2), ticks(1), 2));
    assert_eq!(statistics.scale(), ticks(1));
    let rewards = list(&[1, 3]);
    let zero = list(&[0, 0]);
    let input = EpisodicReturnInput {
        rewards: &rewards,
        terminated: &[true, true],
        truncated: &[false, false],
        bootstrap_valid: &[true, true],
        indices: &[0, 1],
        unfinished_indices: &[],
        next_values: Some(&zero),
        values: Some(&zero),
    };
    let result = prepare_returns(&input, ticks(1), ticks(1), true, &mut statistics, true).unwrap();
    assert_eq!(result.returns, list(&[1, 3]));
    assert_eq!((statistics.mean, statistics.variance, statistics.count), (ticks(2), ticks(1), 4));
    assert!(check_returns(1, DType::F32, DType::F32).is_ok());
    assert!(matches!(check_returns(0, DType::F32, DType::F32), Err(CandleReturnError::Empty)));
    assert!(matches!(check_returns(1, DType::BF16, DType::F32), Err(CandleReturnError::Dtype)));
}

fn ppo() -> CandlePpoConfig<Ticks> {
    CandlePpoConfig {
        learning_rate: ticks(1),
        weight_decay: ticks(0),
        gamma: ticks(1),
        gae_lambda: ticks(0),
        max_grad_norm: Some(ticks(4)),
        reward_normalization: true,
        max_batch_size: 8,
        deterministic_eval: true,
        recompute_advantage: true,
        loss: loss(),
    }
}

#[test]
fn policies_check_their_settings() {
    assert!(ppo().check().is_ok());
    assert_eq!(CandlePpoConfig { gamma: ticks(2), ..ppo() }.check(), Err(ConfigurationError::Discount));
    let low = PpoLossConfig { dual_clip: Some(ticks(1)), ..loss() };
    assert_eq!(CandlePpoConfig { loss: low, ..ppo() }.check(), Err(ConfigurationError::DualClip));
    assert_eq!(CandlePpoConfig { reward_normalization: false, ..ppo() }.check(), Err(ConfigurationError::ValueClip));
    assert_eq!(ppo().gradient_limit(), Some(ticks(4)));
    assert_eq!(CandlePpoConfig { max_grad_norm: Some(ticks(0)), ..ppo() }.gradient_limit(), None);
}

fn handle(id: u64) -> ParameterHandle {
    ParameterHandle { id, live: true }
}

#[test]
fn policies_register_live_parameters() {
    let actor = map(&[("w", handle(1))]);
    let critic = map(&[("w", handle(2))]);
    let both = actor_critic_parameters(&actor, &critic);
    assert_eq!(names(&both), vec!["actor.w", "critic.w"]);
    let state = register_policy(&actor, &critic, &both).unwrap();
    assert_eq!(names(&state), vec!["actor.w", "critic.w", "_actor_critic.actor.w", "_actor_critic.critic.w"]);
    let constant = map(&[("w", ParameterHandle { id: 3, live: false })]);
    assert_eq!(
        register_policy(&actor, &constant, &both).err(),
        Some("PPO state requires live variable handles: critic.w".to_owned())
    );
    assert_eq!(names(&register_models(&actor, Some(&critic)).unwrap()), vec!["model.w", "model_old.w"]);
    assert_eq!(register_models(&constant, None).err(), Some(DqnPolicyError::NotLive));
    assert_eq!(tensor_positions(&vec![3, 1]), Some(vec![3, 1]));
}

#[test]
fn learning_repeats_over_minibatches() {
    let mut rng = StdRng::seed_from_u64(5);
    let mut run = LearnRun::begin(5, 2, 2, true);
    let mut seen = Vec::new();
    let mut covered: Vec<usize> = Vec::new();
    loop {
        match run.next() {
            LearnStep::Recompute => {
                seen.push("recompute");
                run.recomputed();
            }
            LearnStep::Split => {
                seen.push("split");
                run.split(&mut rng).unwrap();
            }
            LearnStep::Minibatch(_) => {
                seen.push("learn");
                covered.extend(run.minibatch());
                run.learned();
            }
            LearnStep::Finished => break,
        }
    }
    assert_eq!(seen, vec!["split", "learn", "learn", "recompute", "split", "learn", "learn"]);
    covered.sort();
    assert_eq!(covered, vec![0, 0, 1, 1, 2, 2, 3, 3, 4, 4]);
    assert!(LearnRun::begin(5, 0, 1, false).split(&mut rng).is_err());
    assert!(matches!(LearnRun::begin(5, 0, 0, false).next(), LearnStep::Finished));
    let metrics = loss_metrics(&vec![(1, 2, 3, 4), (5, 6, 7, 8)]);
    assert_eq!(names(&metrics), vec!["loss", "loss/clip", "loss/vf", "loss/ent"]);
    assert_eq!(metrics.get("loss/vf"), Some(&vec![3, 7]));
}

#[test]
fn learning_options_are_read() {
    let mut rng = StdRng::seed_from_u64(5);
    let mut read = |pairs: &[(&str, OptionValue<Ticks>)]| learn_options(&map(pairs), 10, &mut rng);
    assert_eq!(
        read(&[("batch_size", OptionValue::Unsigned(4)), ("repeat", OptionValue::Unsigned(2))]),
        Ok((4, 2))
    );
    assert_eq!(read(&[("repeat", OptionValue::Unsigned(2))]), Err(LearnOptionError::MissingBatchSize));
    assert_eq!(read(&[("batch_size", OptionValue::Unsigned(4))]), Err(LearnOptionError::MissingRepeat));
    assert_eq!(
        read(&[("batch_size", OptionValue::Unsigned(0)), ("repeat", OptionValue::Bool(true))]),
        Err(LearnOptionError::BatchSizeTooSmall)
    );
    assert_eq!(read(&[("batch_size", OptionValue::Other), ("repeat", OptionValue::Negative(-1))]), Ok((0, 0)));
    assert_eq!(
        read(&[("batch_size", OptionValue::Other), ("repeat", OptionValue::Unsigned(1))]),
        Err(LearnOptionError::BatchSizeNotComparable)
    );
    assert_eq!(repeat_count::<Ticks>(OptionValue::Other), Err(LearnOptionError::RepeatNotInteger));
    assert!(!LearnOptionError::MissingRepeat.message().is_empty());
    assert_eq!(check_keywords(&map(&[("repeat", 1), ("buffer", 2)])), Some("buffer".to_owned()));
    assert_eq!(check_keywords(&map(&[("repeat", 1)])), None);
}

#[test]
fn optimizers_take_each_parameter_once() {
    let offered = |id: u64| OfferedParameter { id, live: true, dtype: DType::F32 };
    let mut adam = CandleAdam::new(&vec![offered(1), offered(2), offered(1)], ticks(1), ticks(0)).unwrap();
    assert_eq!(adam.positions, vec![0, 1]);
    assert!(!adam.decays());
    let with = StepInput { values: 3, has_gradient: true };
    let without = StepInput { values: 3, has_gradient: false };
    let steps = adam.step(&vec![with, without]);
    assert_eq!(steps.len(), 1);
    assert!(steps[0].begins && steps[0].updates && steps[0].position == 0);
    assert_eq!(adam.initialized_parameter_count(), 1);
    assert!(!adam.step(&vec![with, with])[0].begins);
    assert_eq!(adam.set_learning_rate(ticks(-1)), Err(OptimizerError::LearningRate));
    assert_eq!(adam.learning_rate, ticks(1));
    adam.set_learning_rate(ticks(2)).unwrap();
    assert_eq!(adam.learning_rate, ticks(2));
    let refused = |parameters: &Vec<OfferedParameter>, decay: i64| {
        CandleAdam::new(parameters, ticks(1), ticks(decay)).err().unwrap()
    };
    assert_eq!(refused(&vec![], 0), OptimizerError::NoParameters);
    assert_eq!(refused(&vec![offered(1)], -1), OptimizerError::WeightDecay);
    let whole = OfferedParameter { id: 1, live: true, dtype: DType::I64 };
    assert_eq!(refused(&vec![whole], 0), OptimizerError::NotLiveFloat);
    assert_eq!(gradient_norm_type(&vec![DType::F16, DType::F32]), Some(DType::F32));
    assert_eq!(gradient_norm_type(&vec![]), None);
    assert!(validate_gradients(&vec![form(&[2])], &vec![Some(form(&[2]))]).is_ok());
    assert_eq!(
        validate_gradients(&vec![form(&[2])], &vec![Some(form(&[3]))]),
        Err(OptimizerError::GradientMismatch)
    );
}

#[test]
fn categorical_actions_are_checked() {
    assert!(check_simplex(&vec![1, 1], &vec![1]).is_ok());
    assert_eq!(check_simplex(&vec![1, 0], &vec![1]), Err(CategoricalError::NotSimplex));
    assert!(check_support(&list(&[0, 2]), 3).is_ok());
    assert_eq!(check_support(&list(&[3]), 3), Err(CategoricalError::OutsideSupport));
    assert_eq!(check_support(&vec![Ticks(None)], 3), Err(CategoricalError::OutsideSupport));
    assert_eq!(action_choice(TrainingPolicyMode::Train, true), ActionChoice::Sample);
    assert_eq!(action_choice(TrainingPolicyMode::Evaluation, true), ActionChoice::Greatest);
    assert_eq!(sample_rows(6, 3), Ok(vec![(0, 3), (3, 6)]));
    assert_eq!(sample_rows(6, 0), Err(CategoricalError::NoEvents));
}

#[test]
fn masks_are_turned_around() {
    assert_eq!(complement_bytes(&vec![0, 1, 2]), vec![1, 0, 255]);
    assert_eq!(complement_words(&vec![0, 1, 2]), vec![1, 0, u32::MAX]);
    assert_eq!(complement_integers(&vec![0, 1, i64::MIN]), vec![1, 0, i64::MIN + 1]);
    assert_eq!(mask_complement(DType::U8, false), MaskComplement::Bytes);
    assert_eq!(mask_complement(DType::U8, true), MaskComplement::Integers);
}

#[test]
fn values_choose_actions() {
    assert_eq!(row_argmax(&list(&[1, 5, 5])), 1);
    assert_eq!(row_argmax(&vec![ticks(9), Ticks(None), Ticks(None)]), 1);
    assert_eq!(action_argmax(&vec![list(&[1, 2]), list(&[4, 3])], 2), Ok(vec![1, 0]));
    assert_eq!(action_argmax::<Ticks>(&vec![vec![]], 0), Err(DqnError::NoActions));
    assert_eq!(action_columns(&vec![-1, 0], true, 2, 3), Ok(vec![2, 0]));
    assert_eq!(action_columns(&vec![0], false, 1, 3), Err(DqnError::ActionShape));
    assert_eq!(target_actions(true), TargetActions::Online);
    assert_eq!(target_actions(false), TargetActions::Greatest);
    assert_eq!(product_type(DType::F32, DType::F64, false), DType::F64);
    assert_eq!(product_type(DType::F32, DType::F64, true), DType::F32);
    let scores = ScoreTable { rows: vec![list(&[1, 2]), list(&[1, 2])], columns: 2 };
    let mask = ScoreTable { rows: vec![list(&[10, 0])], columns: 2 };
    assert_eq!(dqn_exploration(&vec![0, 0], &vec![true, false], &scores, &None), Ok(vec![1, 0]));
    assert_eq!(dqn_exploration(&vec![1, 1], &vec![true, false], &scores, &Some(mask)), Ok(vec![0, 1]));
    let wide = ScoreTable { rows: vec![list(&[1, 2, 3])], columns: 3 };
    assert_eq!(dqn_exploration(&vec![0, 0], &vec![true, true], &scores, &Some(wide)), Err(DqnError::MaskShape));
    let mut batch: DqnBatch<u8, u8> = DqnBatch { returned: None, weight: Some(3) };
    assert_eq!(batch.require_returns(), Err(DqnError::MissingReturns));
    assert_eq!(batch.take_weight(), Some(3));
    batch.publish(4);
    assert_eq!(batch.weight, Some(4));
}

#[test]
fn targets_are_brought_up_to_date() {
    let config = CandleDqnConfig {
        learning_rate: ticks(1),
        weight_decay: ticks(0),
        gamma: ticks(1),
        steps: 1,
        target_update_frequency: 2,
        reward_normalization: false,
        is_double: true,
        huber: false,
    };
    assert!(config.check().is_ok());
    assert_eq!(CandleDqnConfig { steps: 0, ..config }.check(), Err(DqnPolicyError::Steps));
    assert_eq!(CandleDqnConfig { gamma: ticks(-1), ..config }.check(), Err(DqnPolicyError::Discount));
    let mut schedule = DqnSchedule::new(&config);
    let due: Vec<bool> = (0..4)
        .map(|_| {
            let due = schedule.sync_due();
            schedule.learned().unwrap();
            due
        })
        .collect();
    assert_eq!(due, vec![true, false, true, false]);
    assert_eq!(schedule.exploration(ticks(0)), Exploration::Nothing);
    schedule.set_epsilon(ticks(1));
    assert_eq!(schedule.exploration(ticks(0)), Exploration::Fails);
    schedule.note_actions(3);
    assert_eq!(schedule.exploration(ticks(0)), Exploration::Draws(3));
    schedule.set_mode(TrainingPolicyMode::Evaluation);
    assert_eq!(schedule.mode, TrainingPolicyMode::Evaluation);
    let without = DqnSchedule::new(&CandleDqnConfig { target_update_frequency: 0, ..config });
    assert!(!without.has_target());
    assert_eq!(without.check_target(), Err(DqnPolicyError::MissingTarget));
}

#[test]
fn failures_say_what_is_wrong() {
    assert_eq!(CategoricalError::NotSimplex.message(), "categorical probabilities are not a simplex");
    assert_eq!(PpoLossError::DualClip.message(), "PPO dual clip must be greater than one");
    assert_eq!(PpoLossError::MissingOldValues.message(), "PPO value clipping requires old values");
    assert_eq!(ConfigurationError::Steps.message(), "steps must be positive");
}
