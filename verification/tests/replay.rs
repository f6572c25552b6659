//! Replay buffers, returns and collections on concrete episodes.
use qlib_core::integer::Integer;
use qlib_core::number::{Number, Ticks};
use qlib_core::random::{draw_positions, draw_weighted, shuffle_items};
use qlib_core::rl_candle_collector::{
    after_stage, begin_step, buffer_capacity, check_children, present_observations, step_columns,
    CandleCollectionStatistics, CandleCollectorFactory, CandleTerminationInfo, CollectMetric, CollectedTransition,
    CollectorFailure, CollectorRun,
    EpisodeAverages, HandedActions, Progress, StepAction, StepStage, TimeLimitFlag, TrainingCollectLimit,
};
use qlib_core::rl_candle_network::DType;
use qlib_core::rl_candle_nstep::{
    mark_ends, nstep_returns, plan_nstep_returns, prepare_nstep_returns, CandleNStepConfig, CandleNStepError,
    CandleNStepReplay,
};
use qlib_core::rl_candle_replay::{
    child_counts, CandleReplayBuffer, CandleReplayError, CandleVectorReplayBuffer, CandleVectorReplayError, ReplayRow,
    ReplayStorage,
};
use qlib_core::rl_candle_rollout::sample_size;
use qlib_core::rl_episodic_return::{episodic_returns, EpisodicReturnError, EpisodicReturnInput};
use qlib_core::rl_policy_batch::{minibatch_indices, split_order, InvalidBatchSize};
use qlib_core::rl_replay_index::{select_positions, ReplayEpisode, ReplayIndex, ReplayIndexError};
use rand::rngs::StdRng;
use rand::SeedableRng;

fn ticks(value: i64) -> Ticks {
    Ticks(Some(value))
}

fn list(values: &[i64]) -> Vec<Ticks> {
    values.iter().map(|value| ticks(*value)).collect()
}

fn filled() -> ReplayIndex<Ticks> {
    let mut index: ReplayIndex<Ticks> = ReplayIndex::new(3);
    index.initialize_done();
    for (reward, done) in [(1, false), (2, true)] {
        let episode = index.advance(ticks(reward), done).unwrap();
        index.commit_done(episode.index, done).unwrap();
    }
    index
}

#[test]
fn rings_walk_within_episodes() {
    let mut fresh: ReplayIndex<Ticks> = ReplayIndex::new(3);
    assert!(fresh.is_empty());
    assert_eq!(fresh.unfinished_indices(), Err(ReplayIndexError::MissingDone));
    fresh.initialize_done();
    let first = fresh.advance(ticks(1), false).unwrap();
    assert_eq!(first, ReplayEpisode { index: 0, reward: ticks(0), length: 0, start: 0 });
    let second = fresh.advance(ticks(2), true).unwrap();
    assert_eq!(second, ReplayEpisode { index: 1, reward: ticks(3), length: 2, start: 0 });
    let index = filled();
    assert_eq!(index.len(), 2);
    assert_eq!(index.capacity(), 3);
    assert_eq!(index.next_write_index(), 2);
    assert_eq!(index.last_index(), 1);
    assert_eq!(index.previous(&[0, 1]), Ok(vec![0, 0]));
    assert_eq!(index.next(&[0, 1]), Ok(vec![1, 1]));
    assert_eq!(index.unfinished_indices(), Ok(vec![]));
    let mut open = filled();
    let third = open.advance(ticks(5), false).unwrap();
    open.commit_done(third.index, false).unwrap();
    assert_eq!(open.unfinished_indices(), Ok(vec![2]));
    assert_eq!(open.commit_done(3, true), Err(ReplayIndexError::Index));
    let fourth = open.advance(ticks(5), true).unwrap();
    assert_eq!(fourth, ReplayEpisode { index: 0, reward: ticks(10), length: 2, start: 2 });
    open.commit_done(0, true).unwrap();
    assert_eq!(open.len(), 3);
    assert_eq!(open.previous(&[0]), Ok(vec![2]));
    open.reset(false);
    assert!(open.is_empty());
    assert_eq!(ReplayIndex::<Ticks>::new(0).advance(ticks(1), true), Err(ReplayIndexError::ZeroCapacity));
}

#[test]
fn samples_come_from_what_is_held() {
    let index = filled();
    let mut rng = StdRng::seed_from_u64(7);
    assert_eq!(index.sample_indices(0, 1, false, &mut rng), Ok(vec![0, 1]));
    assert_eq!(index.sample_indices(-1, 1, false, &mut rng), Ok(vec![]));
    let drawn = index.sample_indices(50, 1, false, &mut rng).unwrap();
    assert_eq!(drawn.len(), 50);
    assert!(drawn.iter().all(|position| *position < 2));
    assert!(drawn.contains(&0) && drawn.contains(&1));
    assert_eq!(index.sample_indices(1, 0, false, &mut rng), Err(ReplayIndexError::StackCount));
    let empty: ReplayIndex<Ticks> = ReplayIndex::new(3);
    assert_eq!(empty.sample_indices(1, 1, false, &mut rng), Err(ReplayIndexError::EmptyPopulation));
    assert_eq!(select_positions(&vec![5, 6, 7], &vec![2, 0, 2]), vec![7, 5, 7]);
    let again = |seed: u64| draw_positions(&mut StdRng::seed_from_u64(seed), 1000, 20);
    assert_eq!(again(3), again(3));
    assert_ne!(again(3), again(4));
    let weighted = draw_weighted(&mut rng, &vec![0, 3, 0], 10);
    assert_eq!(weighted, vec![1; 10]);
    let mut items: Vec<usize> = (0..50).collect();
    shuffle_items(&mut rng, &mut items);
    assert_ne!(items, (0..50).collect::<Vec<usize>>());
    items.sort();
    assert_eq!(items, (0..50).collect::<Vec<usize>>());
}

#[test]
fn batches_partition_an_order() {
    assert_eq!(split_order(&vec![4, 3, 2, 1, 0], 2, true), Ok(vec![vec![4, 3], vec![2, 1, 0]]));
    assert_eq!(split_order(&vec![4, 3, 2, 1, 0], 2, false), Ok(vec![vec![4, 3], vec![2, 1], vec![0]]));
    assert_eq!(split_order(&vec![1], 0, false), Err(InvalidBatchSize));
    let mut rng = StdRng::seed_from_u64(1);
    assert_eq!(minibatch_indices(3, 2, false, false, &mut rng), Ok(vec![vec![0, 1], vec![2]]));
    let mut all: Vec<usize> = minibatch_indices(9, 4, true, true, &mut rng).unwrap().concat();
    all.sort();
    assert_eq!(all, (0..9).collect::<Vec<usize>>());
}

fn row(reward: i64, terminated: bool) -> ReplayRow<Ticks> {
    ReplayRow { reward: ticks(reward), terminated, truncated: false }
}

#[test]
fn storages_answer_for_their_rows() {
    let mut storage: ReplayStorage<Ticks> = ReplayStorage::new();
    assert_eq!(storage.rewards(), Err(CandleReplayError::MissingStorage));
    assert!(storage.initialize(2));
    assert!(!storage.initialize(5));
    storage.write(1, row(4, true));
    assert_eq!(storage.rewards(), Ok(list(&[0, 4])));
    assert_eq!(storage.end_flags(), Ok(vec![false, true]));
    assert_eq!(storage.bootstrap_mask(&[1, 0]), Ok(vec![false, true]));
    assert_eq!(storage.get(&[1]), Ok(vec![row(4, true)]));
    assert!(storage.get(&[2]).is_err());
}

#[test]
fn single_buffers_reserve_and_commit() {
    let mut buffer: CandleReplayBuffer<Ticks> = CandleReplayBuffer::new(2);
    let dims = vec![vec![1, 3]];
    let episode = buffer.reserve(&dims, row(1, true)).unwrap();
    assert_eq!(episode.index, 0);
    buffer.commit(episode.index, row(1, true));
    assert_eq!(buffer.storage().rewards().unwrap(), list(&[1, 0]));
    assert_eq!(buffer.index().len(), 1);
    assert_eq!(buffer.reserve(&[vec![2, 3]], row(1, true)), Err(CandleReplayError::BatchSize));
    buffer.reset(false);
    assert!(buffer.index().is_empty());
}

fn vector() -> CandleVectorReplayBuffer<Ticks> {
    let mut buffer: CandleVectorReplayBuffer<Ticks> = CandleVectorReplayBuffer::new(4, 2).unwrap();
    for (rewards, ends) in [([1, 10], [false, true]), ([2, 20], [true, false])] {
        let episodes = buffer.reserve(&[0, 1], &list(&rewards), &ends, &[false, false]).unwrap();
        buffer.commit(&[0, 1], &episodes, &list(&rewards), &ends, &[false, false]).unwrap();
    }
    buffer
}

#[test]
fn vector_buffers_hold_a_ring_per_environment() {
    let mut rng = StdRng::seed_from_u64(2);
    let mut buffer = vector();
    assert_eq!(buffer.capacity(), 4);
    assert_eq!(buffer.children().len(), 2);
    assert_eq!(buffer.len(), 4);
    assert_eq!(buffer.storage().rewards().unwrap(), list(&[1, 2, 10, 20]));
    assert_eq!(buffer.unfinished_indices(), Ok(vec![3]));
    assert_eq!(buffer.next(&[0, 1, 2, 3]), Ok(vec![1, 1, 2, 3]));
    assert_eq!(buffer.previous(&[1, 3]), Ok(vec![0, 3]));
    assert_eq!(buffer.sample_indices(0, &mut rng), Ok(vec![0, 1, 2, 3]));
    let drawn = buffer.sample_indices(40, &mut rng).unwrap();
    assert_eq!(drawn.len(), 40);
    assert!(drawn.iter().any(|index| *index < 2) && drawn.iter().any(|index| *index >= 2));
    assert_eq!(child_counts(&vec![1, 0, 1], 2), vec![1, 2]);
    assert_eq!(
        buffer.reserve(&[2], &list(&[1]), &[false], &[false]).err(),
        Some(CandleVectorReplayError::EnvironmentIndex)
    );
    assert!(matches!(
        CandleVectorReplayBuffer::<Ticks>::new(4, 0).err(),
        Some(CandleVectorReplayError::EnvironmentCount)
    ));
    buffer.reset(false);
    assert!(buffer.is_empty());
}

#[test]
fn batches_hold_the_rows_of_their_positions() {
    let mut rng = StdRng::seed_from_u64(2);
    let buffer = vector();
    let batch = buffer.get(&[2, 0, 2]).unwrap();
    assert_eq!(batch.rewards, list(&[10, 1, 10]));
    assert_eq!(batch.terminated, vec![true, false, true]);
    assert_eq!(batch.bootstrap_valid, vec![false, true, false]);
    assert_eq!(batch.indices, vec![2, 0, 2]);
    assert_eq!(batch.unfinished_indices, vec![3]);
    assert_eq!(buffer.sample_batch(0, &mut rng).unwrap().rewards, list(&[1, 2, 10, 20]));
    assert_eq!(buffer.sample_batch(7, &mut rng).unwrap().indices.len(), 7);
    assert!(buffer.get(&[4]).is_err());
    let mut single: CandleReplayBuffer<Ticks> = CandleReplayBuffer::new(2);
    assert_eq!(single.get(&[]).err(), Some(CandleReplayError::MissingStorage));
    assert_eq!(
        single.sample_batch(1, &mut rng).err(),
        Some(CandleReplayError::Index(ReplayIndexError::EmptyPopulation))
    );
    let episode = single.reserve(&[vec![1]], row(5, false)).unwrap();
    single.commit(episode.index, row(5, false));
    let batch = single.sample_batch(0, &mut rng).unwrap();
    assert_eq!((batch.rewards, batch.unfinished_indices), (list(&[5]), vec![0]));
    assert_eq!(sample_size(9), Ok(9));
    assert_eq!(sample_size(u64::MAX), Err(CandleReplayError::SampleSize));
}

#[test]
fn episodic_returns_discount_rewards() {
    let rewards = list(&[1, 2, 3]);
    let ends = [false, false, true];
    let none = [false; 3];
    let valid = [true; 3];
    let indices = [0, 1, 2];
    let mut input = EpisodicReturnInput {
        rewards: &rewards,
        terminated: &ends,
        truncated: &none,
        bootstrap_valid: &valid,
        indices: &indices,
        unfinished_indices: &[],
        next_values: None,
        values: None,
    };
    let result = episodic_returns(&input, ticks(2), ticks(1), true).unwrap();
    assert_eq!(result.returns, list(&[17, 8, 3]));
    assert_eq!(
        episodic_returns(&input, ticks(2), ticks(0), false).err(),
        Some(EpisodicReturnError::MissingBootstrap)
    );
    let next = list(&[5, 6, 7]);
    let values = list(&[4, 5, 6]);
    input.next_values = Some(&next);
    input.values = Some(&values);
    let result = episodic_returns(&input, ticks(2), ticks(0), false).unwrap();
    assert_eq!(result.advantages, list(&[1 + 10 - 4, 2 + 12 - 5, 3 + 14 - 6]));
    assert_eq!(result.returns, list(&[11, 14, 17]));
    input.rewards = &rewards[..2];
    assert!(matches!(
        episodic_returns(&input, ticks(2), ticks(0), false),
        Err(EpisodicReturnError::Length { .. })
    ));
}

#[test]
fn returns_over_several_steps_stop_at_ends() {
    let result = nstep_returns(&list(&[1, 2]), &[false, true], &[list(&[100])], &[vec![0], vec![1]], ticks(2));
    assert_eq!(result.unwrap(), vec![list(&[405])]);
    let stopped = nstep_returns(&list(&[1, 2]), &[true, true], &[list(&[100])], &[vec![0], vec![1]], ticks(2));
    assert_eq!(stopped.unwrap(), vec![list(&[201])]);
    let elsewhere = nstep_returns(&list(&[1, 2]), &[true, true], &[list(&[100])], &[vec![0], vec![0]], ticks(2));
    assert_eq!(elsewhere.unwrap(), vec![list(&[201])]);
    assert_eq!(mark_ends(vec![false, false], &[1]), Ok(vec![false, true]));
    assert!(mark_ends(vec![false], &[1]).is_err());
}

#[test]
fn returns_over_several_steps_are_planned() {
    let buffer = vector();
    let config = |steps: usize| CandleNStepConfig { gamma: ticks(2), steps, reward_normalization: false };
    let plan = plan_nstep_returns(&buffer, &[0, 3], config(2)).unwrap();
    assert_eq!(plan.walk, vec![vec![0, 3], vec![1, 3]]);
    let target = vec![list(&[100]), list(&[100])];
    let result = prepare_nstep_returns(&buffer, &plan, &target, DType::F32, ticks(2)).unwrap();
    assert_eq!(result[0], list(&[1 + 2 * 2]));
    assert_eq!(result[1], list(&[20 + 2 * 100]));
    assert_eq!(plan_nstep_returns(&buffer, &[0], config(0)).err(), Some(CandleNStepError::Horizon));
    let empty = plan_nstep_returns(&buffer, &[], config(1)).unwrap();
    let prepared = |plan, target: &[Vec<Ticks>], dtype| prepare_nstep_returns(&buffer, plan, target, dtype, ticks(2));
    assert_eq!(prepared(&empty, &[], DType::F64).err(), Some(CandleNStepError::Empty));
    for dtype in [DType::BF16, DType::F16] {
        assert_eq!(prepared(&plan, &target, dtype).err(), Some(CandleNStepError::Dtype(dtype)));
    }
    let normalized = CandleNStepConfig { gamma: ticks(1), steps: 1, reward_normalization: true };
    assert_eq!(plan_nstep_returns(&buffer, &[0], normalized).err(), Some(CandleNStepError::RewardNormalization));
}

/// A replay that fails at one of its lists.
struct Torn(&'static str);

impl Torn {
    fn read<T>(&self, list: &str, values: Vec<T>) -> Result<Vec<T>, String> {
        if self.0 == list {
            Err(format!("no {list} today"))
        } else {
            Ok(values)
        }
    }
}

impl CandleNStepReplay<Ticks> for Torn {
    fn rewards(&self) -> Result<Vec<Ticks>, String> {
        self.read("rewards", list(&[1, 2]))
    }

    fn next_indices(&self, indices: &[usize]) -> Result<Vec<usize>, String> {
        self.read("next", indices.iter().map(|_| 1).collect())
    }

    fn bootstrap_mask(&self, indices: &[usize]) -> Result<Vec<bool>, String> {
        self.read("bootstrap", indices.iter().map(|_| true).collect())
    }

    fn end_flags(&self) -> Result<Vec<bool>, String> {
        self.read("ends", vec![false, false])
    }

    fn unfinished(&self) -> Result<Vec<usize>, String> {
        self.read("unfinished", vec![1])
    }
}

#[test]
fn replays_fail_in_their_own_words() {
    let config = CandleNStepConfig { gamma: ticks(2), steps: 2, reward_normalization: false };
    let target = vec![list(&[100])];
    let run = |replay: Torn, dtype: DType| {
        let plan = plan_nstep_returns(&replay, &[0], config)?;
        prepare_nstep_returns(&replay, &plan, &target, dtype, ticks(2))
    };
    assert_eq!(run(Torn("nothing"), DType::F32).unwrap(), vec![list(&[1 + 2 * 2 + 4 * 100])]);
    for (list, stage) in [
        ("rewards", "rewards"),
        ("next", "next"),
        ("bootstrap", "bootstrap"),
        ("ends", "end flags"),
        ("unfinished", "unfinished"),
    ] {
        let error = run(Torn(list), DType::F32).unwrap_err();
        assert_eq!(error.message(), format!("n-step {stage} adapter failed: no {list} today"));
    }
    assert_eq!(run(Torn("bootstrap"), DType::BF16).unwrap_err(), CandleNStepError::Dtype(DType::BF16));
    assert!(matches!(
        run(Torn("bootstrap"), DType::F16).unwrap_err(),
        CandleNStepError::Adapter { stage: "bootstrap", .. }
    ));
}

/// Information that cannot always be read.
struct Spoken(Result<bool, &'static str>);

impl CandleTerminationInfo for Spoken {
    fn time_limit_truncated(&self) -> Result<bool, String> {
        self.0.map_err(str::to_owned)
    }
}

#[test]
fn time_limits_fail_in_their_own_words() {
    let step = |info: Option<Result<bool, &'static str>>| CollectedTransition {
        reward: Some(ticks(1)),
        done: true,
        info: info.map(Spoken),
    };
    let columns = step_columns(&[step(Some(Ok(true))), step(Some(Ok(false)))]).unwrap();
    assert_eq!(columns.truncated, vec![true, false]);
    let error = step_columns(&[step(Some(Ok(true))), step(Some(Err("first"))), step(Some(Err("second")))]).err();
    assert_eq!(error.unwrap().message, "first");
}

#[test]
fn every_environment_starts_anew_behind_episodes_only() {
    let begun = |limit: TrainingCollectLimit| CollectorRun::<Ticks, u8>::begin(2, 2, limit, vec![1, 2]).unwrap();
    assert!(begun(TrainingCollectLimit::Episodes(Some(1))).resets_all());
    assert!(!begun(TrainingCollectLimit::Steps(Integer::from_usize(4))).resets_all());
}

#[test]
fn rings_go_round_and_report_their_slots() {
    let mut ring: ReplayIndex<Ticks> = ReplayIndex::new(3);
    let mut length: usize = 0;
    for step in 0..20usize {
        let done = step % 7 == 4;
        length += 1;
        let episode = ring.advance(ticks(1), done).unwrap();
        assert_eq!((episode.index, ring.last_index()), (step % 3, step % 3));
        assert_eq!((ring.next_write_index(), ring.len()), ((step + 1) % 3, (step + 1).min(3)));
        assert_eq!(episode.length, if done { length } else { 0 });
        if done {
            length = 0;
        }
    }
}

fn ended(index: usize, reward: i64) -> ReplayEpisode<Ticks> {
    ReplayEpisode { index, reward: ticks(reward), length: 1, start: index }
}

#[test]
fn surplus_environments_leave_a_collection() {
    let begun: Result<CollectorRun<Ticks, u8>, CollectorFailure> =
        CollectorRun::begin(3, 3, TrainingCollectLimit::Episodes(Some(2)), vec![10, 20, 30]);
    let mut run = begun.unwrap();
    assert_eq!(run.next_step().unwrap(), (&[0usize, 1][..], &[10u8, 20][..]));
    let ids = run.take_step(vec![11, 21], &[true, false], &[ended(0, 5), ended(1, 0)]).unwrap();
    assert_eq!(ids, vec![0]);
    run.take_reset(vec![12]);
    assert!(!run.settle());
    assert_eq!(run.next_step().unwrap(), (&[1usize][..], &[21u8][..]));
    assert_eq!(run.take_step(vec![22], &[true], &[ended(1, 7)]).unwrap(), vec![1]);
    run.take_reset(vec![23]);
    assert!(run.settle());
    let (progress, _) = run.finish();
    assert_eq!(progress.steps, 3);
    assert_eq!(progress.rewards, list(&[5, 7]));
    let averages =
        EpisodeAverages { reward_mean: ticks(6), reward_std: ticks(1), length_mean: ticks(1), length_std: ticks(0) };
    let mut statistics: CandleCollectionStatistics<Ticks> = CandleCollectionStatistics::new();
    statistics.add_run(&progress, ticks(0), ticks(1)).unwrap();
    assert_eq!((statistics.steps, statistics.episodes, statistics.seconds), (3, 2, ticks(1)));
    let metrics = progress.metrics(averages);
    let names: Vec<&str> = metrics.iter().map(|entry| entry.0).collect();
    assert_eq!(names, vec!["n/ep", "n/st", "rews", "lens", "idxs", "rew", "len", "rew_std", "len_std"]);
    assert!(matches!(metrics[5].1, CollectMetric::Value(Ticks(Some(6)))));
}

#[test]
fn step_limits_may_be_passed() {
    let begun: Result<CollectorRun<Ticks, u8>, CollectorFailure> =
        CollectorRun::begin(2, 2, TrainingCollectLimit::Steps(Integer::from_usize(3)), vec![1, 2]);
    let mut run = begun.unwrap();
    assert!(run.may_overshoot(2));
    let open = |index: usize| ReplayEpisode { index, reward: ticks(0), length: 0, start: 0 };
    run.take_step(vec![1, 2], &[false, false], &[open(0), open(0)]).unwrap();
    assert!(!run.settle());
    run.take_step(vec![1, 2], &[false, false], &[open(1), open(1)]).unwrap();
    assert!(run.settle());
    let refused = |environments: usize, limit: TrainingCollectLimit| {
        CollectorRun::<Ticks, u8>::begin(environments, 2, limit, vec![1, 2]).err().unwrap()
    };
    assert_eq!(refused(1, TrainingCollectLimit::Episodes(None)).message, "environment count changed");
    assert_eq!(
        refused(2, TrainingCollectLimit::Episodes(Some(0))).message,
        "specify a positive episode or step count"
    );
    assert_eq!(refused(2, TrainingCollectLimit::Steps(Integer::zero())).stage, "collect limit");
}

#[test]
fn steps_become_columns() {
    let transition = |reward: Option<i64>, done: bool, flag: TimeLimitFlag| CollectedTransition {
        reward: reward.map(ticks),
        done,
        info: Some(flag),
    };
    let columns = step_columns(&[
        transition(Some(1), true, TimeLimitFlag::Flag(true)),
        transition(Some(2), true, TimeLimitFlag::Absent),
        transition(Some(3), false, TimeLimitFlag::Flag(false)),
    ])
    .unwrap();
    assert_eq!(columns.rewards, list(&[1, 2, 3]));
    assert_eq!(columns.truncated, vec![true, false, false]);
    assert_eq!(columns.terminated, vec![false, true, false]);
    assert_eq!(columns.dones, vec![true, true, false]);
    let error = |transitions: &[CollectedTransition<Ticks, TimeLimitFlag>]| step_columns(transitions).err().unwrap();
    assert_eq!(
        error(&[transition(Some(1), true, TimeLimitFlag::Other), transition(None, true, TimeLimitFlag::Absent)]).message,
        "missing reward"
    );
    assert_eq!(
        error(&[transition(Some(1), true, TimeLimitFlag::Other)]).message,
        "TimeLimit.truncated must be a boolean"
    );
    assert_eq!(present_observations(&[Some(1), Some(2)]).unwrap(), vec![&1, &2]);
    assert_eq!(present_observations::<u8>(&[]).err().unwrap().message, "empty observation batch");
    assert_eq!(present_observations(&[Some(1), None]).err().unwrap().message, "missing observation");
    assert!(check_children(2, 2).is_ok());
    assert!(check_children(1, 2).is_err());
    assert_eq!(buffer_capacity(5).ok(), Some(5));
    assert!(buffer_capacity(-1).is_err());
    assert_eq!(CandleCollectorFactory.create_buffer::<Ticks>(5, 2).unwrap().capacity(), 6);
    assert!(CandleCollectorFactory.create_buffer::<Ticks>(5, 0).is_err());
    assert!(Progress::<Ticks>::new().rewards.is_empty());
    assert!(!ticks(0).is_missing());
}

#[test]
fn rings_begin_again_at_the_first_slot() {
    let mut index: ReplayIndex<Ticks> = ReplayIndex::new(3);
    index.initialize_done();
    for turn in 0..4 {
        let episode = index.advance(ticks(1), false).unwrap();
        assert_eq!(episode.index, turn % 3);
        index.commit_done(episode.index, false).unwrap();
    }
    assert_eq!((index.len(), index.next_write_index(), index.last_index()), (3, 1, 0));
    let mut rng = StdRng::seed_from_u64(7);
    assert_eq!(index.sample_indices(0, 1, false, &mut rng), Ok(vec![1, 2, 0]));
    assert!(rng == StdRng::seed_from_u64(7));
    minibatch_indices(5, 2, false, false, &mut rng).unwrap();
    assert!(rng == StdRng::seed_from_u64(7));
    index.sample_indices(2, 1, false, &mut rng).unwrap();
    assert!(rng != StdRng::seed_from_u64(7));
}

fn stages(noise: bool) -> Vec<(StepStage, HandedActions)> {
    let mut seen = Vec::new();
    let mut action = begin_step();
    while let StepAction::Do(stage, handed) = action {
        seen.push((stage, handed));
        action = after_stage(stage, noise, Ok(()));
    }
    assert!(matches!(action, StepAction::Finished));
    seen
}

#[test]
fn steps_go_through_their_stages_in_order() {
    let quiet = stages(false);
    assert_eq!(
        quiet,
        vec![
            (StepStage::Stack, HandedActions::Nothing),
            (StepStage::Forward, HandedActions::Nothing),
            (StepStage::Adapt, HandedActions::Own),
            (StepStage::Step, HandedActions::Mapped),
            (StepStage::Columns, HandedActions::Nothing),
            (StepStage::StackNext, HandedActions::Nothing),
            (StepStage::Store, HandedActions::Own),
        ]
    );
    let noisy = stages(true);
    assert_eq!(noisy[2], (StepStage::Explore, HandedActions::Own));
    assert_eq!(noisy.len(), quiet.len() + 1);
    let failed = |stage: StepStage| after_stage(stage, false, Err("torn".to_owned()));
    for (stage, name) in [
        (StepStage::Stack, "collector observation"),
        (StepStage::Forward, "collector forward"),
        (StepStage::Explore, "collector exploration"),
        (StepStage::Adapt, "collector map action"),
        (StepStage::StackNext, "collector observation"),
        (StepStage::Store, "collector replay"),
    ] {
        assert!(matches!(failed(stage), StepAction::Failed { stage, message } if stage == name && message == "torn"));
    }
    assert!(matches!(failed(StepStage::Step), StepAction::Passed(message) if message == "torn"));
    assert!(matches!(failed(StepStage::Columns), StepAction::Passed(message) if message == "torn"));
}

#[test]
fn failures_of_replays_say_what_is_wrong() {
    let index = CandleReplayError::Index(ReplayIndexError::EmptyPopulation);
    assert_eq!(index.message(), "cannot sample from an empty replay population");
    let adapter = CandleNStepError::Adapter { stage: "reward", message: "torn".to_owned() };
    assert_eq!(adapter.message(), "n-step reward adapter failed: torn");
    assert_eq!(
        CandleNStepError::Dtype(DType::BF16).message(),
        "n-step returns do not support target dtype BF16"
    );
    let empty: CandleVectorReplayBuffer<Ticks> = CandleVectorReplayBuffer::new(4, 2).unwrap();
    assert_eq!(
        plan_nstep_returns(&empty, &[0], CandleNStepConfig { gamma: ticks(1), steps: 1, reward_normalization: false })
            .err()
            .unwrap()
            .message(),
        "n-step rewards adapter failed: replay observation storage is not initialized"
    );
    let length = EpisodicReturnError::Length { field: "values", actual: 2, expected: 13 };
    assert_eq!(length.message(), "values length 2 does not match rewards length 13");
}
