//! Synchronous collection of transitions from several environments.
//!
//! The policy, the environments and the tensors of observations stay outside: a run says which
//! environments take part in the next step, takes what the step gave, and says which of them to
//! reset.
use vstd::prelude::*;

use crate::integer::{truncated_remainder, Integer};
use crate::number::{Number, Ticks};
use crate::rl_candle_replay::{CandleVectorReplayBuffer, CandleVectorReplayError};
use crate::rl_replay_index::ReplayEpisode;

verus! {

/// Why collection stopped.
#[derive(Clone, Debug, PartialEq, Eq)]
pub struct CollectorFailure {
    pub stage: &'static str,
    pub message: String,
}

fn failure(stage: &'static str, message: &str) -> (result: CollectorFailure)
    ensures
        result.stage@ == stage@,
        result.message@ == message@,
{
    CollectorFailure { stage, message: message.to_owned() }
}

/// How much a caller wants to collect.
pub enum TrainingCollectLimit {
    Episodes(Option<i64>),
    Steps(Integer),
}

/// What is said of a number that does not fit another type.
pub open spec fn conversion_message() -> Seq<char> {
    "out of range integral type conversion attempted"@
}

/// A valid amount to collect.
pub enum Target {
    Episodes(usize),
    Steps(Integer),
}

impl Target {
    /// Reads a limit; it must be positive.
    pub fn parse(limit: TrainingCollectLimit) -> (result: Result<Target, CollectorFailure>)
        ensures
            match (limit, result) {
                (TrainingCollectLimit::Episodes(Some(count)), Ok(Target::Episodes(target))) => count > 0 && target == count,
                (TrainingCollectLimit::Steps(count), Ok(Target::Steps(target))) => count@ > 0 && target@ == count@,
                (TrainingCollectLimit::Episodes(Some(count)), Err(error)) => error.stage@ == "collect limit"@ && if count
                    > 0 {
                    count > usize::MAX && error.message@ == conversion_message()
                } else {
                    error.message@ == "specify a positive episode or step count"@
                },
                (TrainingCollectLimit::Episodes(None), Err(error)) => error.stage@ == "collect limit"@ && error.message@
                    == "specify a positive episode or step count"@,
                (TrainingCollectLimit::Steps(count), Err(error)) => count@ <= 0 && error.stage@ == "collect limit"@
                    && error.message@ == "specify a positive episode or step count"@,
                _ => false,
            },
    {
        match limit {
            TrainingCollectLimit::Episodes(Some(count)) => if count > 0 {
                if count as u64 > usize::MAX as u64 {
                    Err(failure("collect limit", "out of range integral type conversion attempted"))
                } else {
                    Ok(Target::Episodes(count as usize))
                }
            } else {
                Err(failure("collect limit", "specify a positive episode or step count"))
            },
            TrainingCollectLimit::Steps(count) => if count.is_positive() {
                Ok(Target::Steps(count))
            } else {
                Err(failure("collect limit", "specify a positive episode or step count"))
            },
            TrainingCollectLimit::Episodes(None) => Err(
                failure("collect limit", "specify a positive episode or step count"),
            ),
        }
    }

    /// Whether enough was collected.
    pub open spec fn satisfied(&self, steps: nat, episodes: nat) -> bool {
        match self {
            Target::Episodes(count) => episodes >= *count,
            Target::Steps(count) => steps >= count@,
        }
    }

    /// Whether enough was collected.
    pub fn reached<V: Number>(&self, progress: &Progress<V>) -> (result: bool)
        ensures
            result == self.satisfied(progress.steps as nat, progress.rewards@.len()),
    {
        match self {
            Target::Episodes(count) => progress.rewards.len() >= *count,
            Target::Steps(count) => !Integer::from_usize(progress.steps).less(count),
        }
    }
}

/// What was collected so far.
pub struct Progress<V> {
    pub steps: usize,
    pub rewards: Vec<V>,
    pub lengths: Vec<i64>,
    pub starts: Vec<i64>,
}

/// The contents of a progress.
#[verifier::ext_equal]
pub struct ProgressState<V> {
    pub rewards: Seq<V>,
    pub lengths: Seq<i64>,
    pub starts: Seq<i64>,
}

impl<V> View for Progress<V> {
    type V = ProgressState<V>;

    open spec fn view(&self) -> ProgressState<V> {
        ProgressState { rewards: self.rewards@, lengths: self.lengths@, starts: self.starts@ }
    }
}

/// The rows among the first `count` at which an episode ended.
pub open spec fn finished_rows(dones: Seq<bool>, count: int) -> Seq<usize>
    decreases count,
{
    if count <= 0 {
        Seq::empty()
    } else if dones[count - 1] {
        finished_rows(dones, count - 1).push((count - 1) as usize)
    } else {
        finished_rows(dones, count - 1)
    }
}

/// Takes the episodes that ended in the first `count` rows. An episode whose length or start
/// exceeds the signed range stops it, with its reward, and possibly its length, already taken.
pub open spec fn recorded_rows<V>(
    progress: ProgressState<V>,
    dones: Seq<bool>,
    episodes: Seq<ReplayEpisode<V>>,
    count: int,
) -> (ProgressState<V>, Option<Seq<char>>)
    decreases count,
{
    if count <= 0 {
        (progress, None)
    } else {
        let (earlier, stopped) = recorded_rows(progress, dones, episodes, count - 1);
        let episode = episodes[count - 1];
        if stopped is Some || !dones[count - 1] {
            (earlier, stopped)
        } else {
            let rewarded = ProgressState { rewards: earlier.rewards.push(episode.reward), ..earlier };
            if episode.length > i64::MAX {
                (rewarded, Some("episode length"@))
            } else {
                let measured = ProgressState { lengths: earlier.lengths.push(episode.length as i64), ..rewarded };
                if episode.start > i64::MAX {
                    (measured, Some("episode start"@))
                } else {
                    (ProgressState { starts: earlier.starts.push(episode.start as i64), ..measured }, None)
                }
            }
        }
    }
}

/// The number of rows that two columns have in common.
pub open spec fn common(a: nat, b: nat) -> int {
    if a < b {
        a as int
    } else {
        b as int
    }
}

proof fn first_stop_stays<V>(
    progress: ProgressState<V>,
    dones: Seq<bool>,
    episodes: Seq<ReplayEpisode<V>>,
    count: int,
    later: int,
)
    requires
        0 <= count <= later,
        recorded_rows(progress, dones, episodes, count).1 is Some,
    ensures
        recorded_rows(progress, dones, episodes, later) == recorded_rows(progress, dones, episodes, count),
    decreases later,
{
    if count < later {
        first_stop_stays(progress, dones, episodes, count, later - 1);
    }
}

impl<V: Number> Progress<V> {
    pub fn new() -> (result: Self)
        ensures
            result.steps == 0,
            result@ == (ProgressState::<V> { rewards: Seq::empty(), lengths: Seq::empty(), starts: Seq::empty() }),
    {
        Progress { steps: 0, rewards: Vec::new(), lengths: Vec::new(), starts: Vec::new() }
    }

    /// Takes the result of one step and gives the rows at which an episode ended.
    pub fn record(&mut self, dones: &[bool], episodes: &[ReplayEpisode<V>]) -> (result: Result<
        Vec<usize>,
        CollectorFailure,
    >)
        ensures
            ({
                let rows = common(dones@.len(), episodes@.len());
                let (state, stopped) = recorded_rows(old(self)@, dones@, episodes@, rows);
                if old(self).steps + dones@.len() > usize::MAX {
                    &&& result matches Err(error) && error.stage@ == "collect statistics"@ && error.message@
                        == "step count overflow"@
                    &&& final(self).steps == old(self).steps
                    &&& final(self)@ == old(self)@
                } else {
                    &&& final(self).steps == old(self).steps + dones@.len()
                    &&& final(self)@ == state
                    &&& match result {
                        Ok(finished) => stopped is None && finished@ == finished_rows(dones@, rows),
                        Err(error) => stopped == Some(error.stage@) && error.message@ == conversion_message(),
                    }
                }
            }),
    {
        self.steps = match self.steps.checked_add(dones.len()) {
            Some(steps) => steps,
            None => return Err(failure("collect statistics", "step count overflow")),
        };
        let rows: usize = if dones.len() < episodes.len() {
            dones.len()
        } else {
            episodes.len()
        };
        let mut finished: Vec<usize> = Vec::new();
        let mut i: usize = 0;
        while i < rows
            invariant
                i <= rows,
                rows == common(dones@.len(), episodes@.len()),
                old(self).steps + dones@.len() <= usize::MAX,
                self.steps == old(self).steps + dones@.len(),
                recorded_rows(old(self)@, dones@, episodes@, i as int) == (self@, None::<Seq<char>>),
                finished@ == finished_rows(dones@, i as int),
            decreases rows - i,
        {
            if dones[i] {
                self.rewards.push(episodes[i].reward);
                if episodes[i].length as u64 > i64::MAX as u64 {
                    proof {
                        assert(recorded_rows(old(self)@, dones@, episodes@, i + 1).1 is Some);
                        first_stop_stays(old(self)@, dones@, episodes@, i + 1, rows as int);
                    }
                    return Err(failure("episode length", "out of range integral type conversion attempted"));
                }
                self.lengths.push(episodes[i].length as i64);
                if episodes[i].start as u64 > i64::MAX as u64 {
                    proof {
                        assert(recorded_rows(old(self)@, dones@, episodes@, i + 1).1 is Some);
                        first_stop_stays(old(self)@, dones@, episodes@, i + 1, rows as int);
                    }
                    return Err(failure("episode start", "out of range integral type conversion attempted"));
                }
                self.starts.push(episodes[i].start as i64);
                finished.push(i);
            }
            i += 1;
        }
        Ok(finished)
    }
}

/// The rows that are kept, in order.
pub open spec fn kept_rows<T>(rows: Seq<T>, keep: Seq<bool>) -> Seq<T>
    decreases rows.len(),
{
    if rows.len() == 0 {
        Seq::empty()
    } else if keep[rows.len() - 1] {
        kept_rows(rows.drop_last(), keep).push(rows.last())
    } else {
        kept_rows(rows.drop_last(), keep)
    }
}

fn keep_rows<T>(rows: &mut Vec<T>, keep: &Vec<bool>)
    requires
        old(rows)@.len() <= keep@.len(),
    ensures
        final(rows)@ == kept_rows(old(rows)@, keep@),
{
    let ghost all = rows@;
    let count: usize = rows.len();
    let mut place: usize = 0;
    let mut row: usize = 0;
    assert(rows@ =~= kept_rows(all.take(0), keep@) + all.skip(0));
    while row < count
        invariant
            row <= count,
            count == all.len(),
            count <= keep@.len(),
            place == kept_rows(all.take(row as int), keep@).len(),
            place <= row,
            rows@ == kept_rows(all.take(row as int), keep@) + all.skip(row as int),
        decreases count - row,
    {
        proof {
            assert(all.take(row + 1).drop_last() =~= all.take(row as int));
            assert(all.take(row + 1).last() == all[row as int]);
        }
        let ghost front = kept_rows(all.take(row as int), keep@);
        if keep[row] {
            proof {
                assert(front.push(all[row as int]) + all.skip(row + 1) =~= front + all.skip(row as int));
            }
            place += 1;
        } else {
            rows.remove(place);
            proof {
                assert(rows@ =~= front + all.skip(row + 1));
            }
        }
        row += 1;
    }
    proof {
        assert(all.take(row as int) =~= all);
        assert(rows@ =~= kept_rows(all, keep@));
    }
}

/// The number of environments that are not needed for the episodes that are still missing.
pub open spec fn surplus(ready: nat, count: nat, collected: nat) -> nat {
    let missing = if collected < count {
        (count - collected) as nat
    } else {
        0
    };
    if missing < ready {
        (ready - missing) as nat
    } else {
        0
    }
}

/// Which rows stay: of the rows whose episode ended, the first ones that are surplus leave.
pub open spec fn staying(ready: nat, finished: Seq<usize>, leaving: nat) -> Seq<bool> {
    Seq::new(
        ready,
        |i: int| !finished.take(common(finished.len(), leaving)).contains(i as usize),
    )
}

/// The state of a collection run.
#[verifier::ext_equal]
pub struct RunState<V, O> {
    /// The environments that take part in the next step.
    pub ready: Seq<usize>,
    /// The observation of every ready environment.
    pub observations: Seq<O>,
    /// The observations that the last step gave, until it is settled.
    pub next: Seq<O>,
    pub steps: usize,
    pub progress: ProgressState<V>,
    /// The rows of the last step at which an episode ended.
    pub finished: Seq<usize>,
}

/// A collection run.
pub struct CollectorRun<V, O> {
    target: Target,
    ready: Vec<usize>,
    observations: Vec<O>,
    next: Vec<O>,
    progress: Progress<V>,
    finished: Vec<usize>,
}

impl<V: Number, O> View for CollectorRun<V, O> {
    type V = RunState<V, O>;

    closed spec fn view(&self) -> RunState<V, O> {
        RunState {
            ready: self.ready@,
            observations: self.observations@,
            next: self.next@,
            steps: self.progress.steps,
            progress: self.progress@,
            finished: self.finished@,
        }
    }
}

/// The first positions.
pub open spec fn first_positions(count: nat) -> Seq<usize> {
    Seq::new(count, |i: int| i as usize)
}

/// Whether rows are strictly increasing and below a bound.
pub open spec fn rows_below(rows: Seq<usize>, bound: nat) -> bool {
    &&& forall|i: int| 0 <= i < rows.len() ==> #[trigger] rows[i] < bound
    &&& forall|i: int, j: int| 0 <= i < j < rows.len() ==> rows[i] < rows[j]
}

proof fn finished_below(dones: Seq<bool>, count: int)
    requires
        0 <= count <= usize::MAX,
    ensures
        rows_below(finished_rows(dones, count), count as nat),
    decreases count,
{
    if count > 0 {
        finished_below(dones, count - 1);
    }
}

impl<V: Number, O> CollectorRun<V, O> {
    /// What the run is meant to collect.
    pub closed spec fn goal(&self) -> Target {
        self.target
    }

    /// Begins a run over the environments of a collector.
    ///
    /// For an episode limit, no more environments take part than episodes are wanted.
    pub fn begin(
        environments: usize,
        environment_count: usize,
        limit: TrainingCollectLimit,
        observations: Vec<O>,
    ) -> (result: Result<Self, CollectorFailure>)
        ensures
            match result {
                Err(error) => if environments != environment_count {
                    error.stage@ == "collector environment"@ && error.message@ == "environment count changed"@
                } else {
                    error.stage@ == "collect limit"@ && match limit {
                        TrainingCollectLimit::Episodes(Some(count)) => (count <= 0 && error.message@
                            == "specify a positive episode or step count"@) || (count > usize::MAX && error.message@
                            == conversion_message()),
                        TrainingCollectLimit::Episodes(None) => error.message@
                            == "specify a positive episode or step count"@,
                        TrainingCollectLimit::Steps(count) => count@ <= 0 && error.message@
                            == "specify a positive episode or step count"@,
                    }
                },
                Ok(run) => {
                    &&& environments == environment_count
                    &&& run@.steps == 0
                    &&& run@.progress == (ProgressState::<V> {
                        rewards: Seq::empty(),
                        lengths: Seq::empty(),
                        starts: Seq::empty(),
                    })
                    &&& run@.finished.len() == 0
                    &&& run@.next.len() == 0
                    &&& match (limit, run.goal()) {
                        (TrainingCollectLimit::Episodes(Some(count)), Target::Episodes(wanted)) => {
                            let active = common(environments as nat, count as nat);
                            &&& count > 0
                            &&& wanted == count
                            &&& run@.ready == first_positions(active as nat)
                            &&& run@.observations == if active < observations@.len() {
                                observations@.take(active)
                            } else {
                                observations@
                            }
                        },
                        (TrainingCollectLimit::Steps(count), Target::Steps(wanted)) => {
                            &&& count@ > 0
                            &&& wanted@ == count@
                            &&& run@.ready == first_positions(environments as nat)
                            &&& run@.observations == observations@
                        },
                        _ => false,
                    }
                },
            },
    {
        if environments != environment_count {
            return Err(failure("collector environment", "environment count changed"));
        }
        let target = match Target::parse(limit) {
            Ok(target) => target,
            Err(error) => return Err(error),
        };
        let mut rows = observations;
        let active: usize = match &target {
            Target::Episodes(count) => {
                let active: usize = if environments < *count {
                    environments
                } else {
                    *count
                };
                if active < rows.len() {
                    rows.truncate(active);
                    assert(rows@ =~= observations@.take(active as int));
                }
                active
            },
            Target::Steps(_) => environments,
        };
        let mut ready: Vec<usize> = Vec::new();
        let mut i: usize = 0;
        while i < active
            invariant
                i <= active,
                ready@ == first_positions(i as nat),
            decreases active - i,
        {
            ready.push(i);
            i += 1;
            assert(ready@ =~= first_positions(i as nat));
        }
        Ok(
            CollectorRun {
                target,
                ready,
                observations: rows,
                next: Vec::new(),
                progress: Progress::new(),
                finished: Vec::new(),
            },
        )
    }

    /// Whether the number of steps may exceed what is wanted: it is no multiple of the number of
    /// environments.
    pub fn may_overshoot(&self, environments: usize) -> (result: bool)
        requires
            environments > 0,
        ensures
            result == match self.goal() {
                Target::Steps(count) => truncated_remainder(count@, environments as int) != 0,
                Target::Episodes(_) => false,
            },
    {
        match &self.target {
            Target::Steps(count) => !count.divisible_by(&Integer::from_usize(environments)),
            Target::Episodes(_) => false,
        }
    }

    /// The environments and observations of the next step; there is one observation for each.
    pub fn next_step(&self) -> (result: Result<(&[usize], &[O]), CollectorFailure>)
        ensures
            match result {
                Err(error) => self@.observations.len() != self@.ready.len() && error.stage@ == "collector state"@
                    && error.message@ == "observation rows differ from ready environment ids"@,
                Ok(step) => self@.observations.len() == self@.ready.len() && step.0@ == self@.ready && step.1@
                    == self@.observations,
            },
    {
        if self.observations.len() != self.ready.len() {
            return Err(failure("collector state", "observation rows differ from ready environment ids"));
        }
        Ok((self.ready.as_slice(), self.observations.as_slice()))
    }

    /// Takes the result of a step and gives the environments that have to be reset. The observations
    /// of the run stay as they are until the step is settled.
    pub fn take_step(&mut self, next: Vec<O>, dones: &[bool], episodes: &[ReplayEpisode<V>]) -> (result: Result<
        Vec<usize>,
        CollectorFailure,
    >)
        requires
            dones@.len() == old(self)@.ready.len(),
            next@.len() == old(self)@.ready.len(),
        ensures
            final(self).goal() == old(self).goal(),
            ({
                let rows = common(dones@.len(), episodes@.len());
                let (state, stopped) = recorded_rows(old(self)@.progress, dones@, episodes@, rows);
                let overflow = old(self)@.steps + dones@.len() > usize::MAX;
                match result {
                    Err(error) => if overflow {
                        error.stage@ == "collect statistics"@ && error.message@ == "step count overflow"@
                            && final(self)@ == old(self)@
                    } else {
                        stopped == Some(error.stage@) && error.message@ == conversion_message() && final(self)@ == (
                        RunState {
                            steps: (old(self)@.steps + dones@.len()) as usize,
                            progress: state,
                            ..old(self)@
                        })
                    },
                    Ok(ids) => {
                        &&& !overflow
                        &&& stopped is None
                        &&& ids@ == finished_rows(dones@, rows).map_values(|row: usize| old(self)@.ready[row as int])
                        &&& final(self)@ == (RunState {
                            next: next@,
                            steps: (old(self)@.steps + dones@.len()) as usize,
                            progress: state,
                            finished: finished_rows(dones@, rows),
                            ..old(self)@
                        })
                        &&& rows_below(final(self)@.finished, old(self)@.ready.len())
                    },
                }
            }),
    {
        let finished = match self.progress.record(dones, episodes) {
            Ok(finished) => finished,
            Err(error) => return Err(error),
        };
        proof {
            finished_below(dones@, common(dones@.len(), episodes@.len()));
        }
        let mut ids: Vec<usize> = Vec::new();
        let mut i: usize = 0;
        while i < finished.len()
            invariant
                i <= finished@.len(),
                rows_below(finished@, self.ready@.len()),
                self.ready@ == old(self)@.ready,
                ids@.len() == i,
                forall|j: int| 0 <= j < i ==> #[trigger] ids@[j] == self.ready@[finished@[j] as int],
            decreases finished@.len() - i,
        {
            let row: usize = finished[i];
            ids.push(self.ready[row]);
            i += 1;
        }
        assert(ids@ =~= finished@.map_values(|row: usize| old(self)@.ready[row as int]));
        self.next = next;
        self.finished = finished;
        Ok(ids)
    }

    /// Takes the first observations of reset environments, row by row of what had ended.
    pub fn take_reset(&mut self, reset: Vec<O>)
        requires
            rows_below(old(self)@.finished, old(self)@.next.len()),
        ensures
            final(self).goal() == old(self).goal(),
            final(self)@ == (RunState {
                next: reset_rows(
                    old(self)@.next,
                    old(self)@.finished,
                    reset@,
                    common(old(self)@.finished.len(), reset@.len()),
                ),
                ..old(self)@
            }),
    {
        let mut rest = reset;
        let count: usize = if self.finished.len() < rest.len() {
            self.finished.len()
        } else {
            rest.len()
        };
        while rest.len() > count
            invariant
                count <= rest@.len(),
                rest@ == reset@.take(rest@.len() as int),
                rest@.len() <= reset@.len(),
            decreases rest@.len(),
        {
            rest.pop();
            assert(rest@ =~= reset@.take(rest@.len() as int));
        }
        let ghost before = self.next@;
        proof {
            reset_is_a_choice(before, self.finished@, reset@, count as int);
        }
        let mut i: usize = count;
        while i > 0
            invariant
                i <= count,
                rest@ == reset@.take(i as int),
                count == common(self.finished@.len(), reset@.len()),
                self.finished@ == old(self)@.finished,
                self.ready@ == old(self)@.ready,
                self.observations == old(self).observations,
                self.progress == old(self).progress,
                self.target == old(self).target,
                rows_below(self.finished@, before.len()),
                before == old(self)@.next,
                self.next@.len() == before.len(),
                forall|k: int| i <= k < count ==> self.next@[#[trigger] self.finished@[k] as int] == reset@[k],
                forall|r: int|
                    0 <= r < before.len() && !(exists|k: int| i <= k < count && #[trigger] self.finished@[k] == r)
                        ==> #[trigger] self.next@[r] == before[r],
            decreases i,
        {
            i -= 1;
            let observation = rest.pop().unwrap();
            let row: usize = self.finished[i];
            self.next.set(row, observation);
            assert(rest@ =~= reset@.take(i as int));
        }
        proof {
            let after = reset_rows(before, self.finished@, reset@, count as int);
            assert forall|r: int| 0 <= r < before.len() implies self.next@[r] == after[r] by {
                if exists|k: int| 0 <= k < count && #[trigger] self.finished@[k] == r {
                    let k = choose|k: int| 0 <= k < count && #[trigger] self.finished@[k] == r;
                    assert(self.next@[self.finished@[k] as int] == reset@[k]);
                }
            }
            assert(self.next@ =~= after);
        }
    }

    /// Lets surplus environments leave and says whether enough was collected.
    pub fn settle(&mut self) -> (result: bool)
        requires
            rows_below(old(self)@.finished, old(self)@.ready.len()),
            old(self)@.next.len() == old(self)@.ready.len(),
        ensures
            final(self).goal() == old(self).goal(),
            result == old(self).goal().satisfied(old(self)@.steps as nat, old(self)@.progress.rewards.len()),
            final(self)@ == match old(self).goal() {
                Target::Episodes(count) => {
                    let keep = staying(
                        old(self)@.ready.len(),
                        old(self)@.finished,
                        surplus(old(self)@.ready.len(), count as nat, old(self)@.progress.rewards.len()),
                    );
                    RunState {
                        ready: kept_rows(old(self)@.ready, keep),
                        observations: kept_rows(old(self)@.next, keep),
                        next: Seq::empty(),
                        finished: Seq::empty(),
                        ..old(self)@
                    }
                },
                Target::Steps(_) => RunState {
                    observations: old(self)@.next,
                    next: Seq::empty(),
                    finished: Seq::empty(),
                    ..old(self)@
                },
            },
    {
        let mut following: Vec<O> = Vec::new();
        core::mem::swap(&mut self.next, &mut following);
        assert(self.next@ =~= Seq::<O>::empty());
        match &self.target {
            Target::Episodes(count) => {
                let collected: usize = self.progress.rewards.len();
                let missing: usize = if collected < *count {
                    *count - collected
                } else {
                    0
                };
                let ready: usize = self.ready.len();
                let leaving: usize = if missing < ready {
                    ready - missing
                } else {
                    0
                };
                let bound: usize = if self.finished.len() < leaving {
                    self.finished.len()
                } else {
                    leaving
                };
                let mut keep: Vec<bool> = Vec::new();
                let mut i: usize = 0;
                let ghost gone = self.finished@.take(bound as int);
                while i < ready
                    invariant
                        i <= ready,
                        bound <= self.finished@.len(),
                        gone == self.finished@.take(bound as int),
                        keep@.len() == i,
                        forall|r: int| 0 <= r < i ==> #[trigger] keep@[r] == !gone.contains(r as usize),
                    decreases ready - i,
                {
                    let mut stays = true;
                    let mut k: usize = 0;
                    while k < bound
                        invariant
                            k <= bound,
                            bound <= self.finished@.len(),
                            gone == self.finished@.take(bound as int),
                            stays == !(exists|m: int| 0 <= m < k && #[trigger] gone[m] == i),
                        decreases bound - k,
                    {
                        assert(gone[k as int] == self.finished@[k as int]);
                        if self.finished[k] == i {
                            stays = false;
                        }
                        k += 1;
                    }
                    proof {
                        if gone.contains(i) {
                            let m = choose|m: int| 0 <= m < gone.len() && gone[m] == i;
                            assert(gone[m] == i);
                        }
                    }
                    keep.push(stays);
                    i += 1;
                }
                proof {
                    assert(keep@ =~= staying(
                        old(self)@.ready.len(),
                        old(self)@.finished,
                        surplus(old(self)@.ready.len(), *count as nat, old(self)@.progress.rewards.len()),
                    ));
                }
                keep_rows(&mut self.ready, &keep);
                keep_rows(&mut following, &keep);
            },
            Target::Steps(_) => {},
        }
        self.observations = following;
        self.finished = Vec::new();
        assert(self.finished@ =~= Seq::<usize>::empty());
        self.target.reached(&self.progress)
    }

    /// Whether all environments are reset once enough was collected, and their observations replace
    /// those of the run: behind an episode limit they are, behind a step limit the observations stay.
    pub fn resets_all(&self) -> (result: bool)
        ensures
            result == (self.goal() is Episodes),
    {
        match &self.target {
            Target::Episodes(_) => true,
            Target::Steps(_) => false,
        }
    }

    /// Ends the run, also in the middle, and gives what was collected and the observations of the last
    /// settled step.
    pub fn finish(self) -> (result: (Progress<V>, Vec<O>))
        ensures
            result.0@ == self@.progress,
            result.0.steps == self@.steps,
            result.1@ == self@.observations,
    {
        (self.progress, self.observations)
    }
}

/// The observations after the first rows of what had ended take their new observation.
pub open spec fn reset_rows<O>(observations: Seq<O>, finished: Seq<usize>, reset: Seq<O>, count: int) -> Seq<O>
    decreases count,
{
    if count <= 0 {
        observations
    } else {
        reset_rows(observations, finished, reset, count - 1).update(finished[count - 1] as int, reset[count - 1])
    }
}

proof fn reset_is_a_choice<O>(observations: Seq<O>, finished: Seq<usize>, reset: Seq<O>, count: int)
    requires
        rows_below(finished, observations.len()),
        0 <= count <= finished.len(),
    ensures
        reset_rows(observations, finished, reset, count).len() == observations.len(),
        forall|k: int| 0 <= k < count ==> reset_rows(observations, finished, reset, count)[#[trigger] finished[k] as int]
            == reset[k],
        forall|r: int|
            0 <= r < observations.len() && !(exists|k: int| 0 <= k < count && #[trigger] finished[k] == r)
                ==> #[trigger] reset_rows(observations, finished, reset, count)[r] == observations[r],
    decreases count,
{
    if count > 0 {
        reset_is_a_choice(observations, finished, reset, count - 1);
        let earlier = reset_rows(observations, finished, reset, count - 1);
        let after = reset_rows(observations, finished, reset, count);
        assert forall|k: int| 0 <= k < count implies after[#[trigger] finished[k] as int] == reset[k] by {
            if k < count - 1 {
                assert(finished[k] < finished[count - 1]);
                assert(earlier[finished[k] as int] == reset[k]);
            }
        }
        assert forall|r: int|
            0 <= r < observations.len() && !(exists|k: int| 0 <= k < count && #[trigger] finished[k] == r) implies #[trigger] after[r]
            == observations[r] by {
            assert(finished[count - 1] != r);
            assert(earlier[r] == observations[r]);
        }
    }
}


/// What an environment's auxiliary data says about a time limit.
#[derive(Clone, Copy, Debug, PartialEq, Eq, Structural)]
pub enum TimeLimitFlag {
    /// There is no such entry.
    Absent,
    Flag(bool),
    /// The entry is not a boolean.
    Other,
}

/// Reads the time-limit flag of auxiliary data, without mixing up termination and truncation.
pub trait CandleTerminationInfo {
    /// Whether the data says that the time limit cut the episode off, or why it cannot be read.
    open spec fn limit_read(&self) -> Result<bool, Seq<char>> {
        arbitrary()
    }

    /// Whether the time limit cut the episode off.
    fn time_limit_truncated(&self) -> (result: Result<bool, String>)
        ensures
            match self.limit_read() {
                Ok(cut) => result == Ok::<bool, String>(cut),
                Err(message) => result is Err && result->Err_0@ == message,
            },
    ;
}

impl CandleTerminationInfo for () {
    open spec fn limit_read(&self) -> Result<bool, Seq<char>> {
        Ok(false)
    }

    fn time_limit_truncated(&self) -> (result: Result<bool, String>) {
        Ok(false)
    }
}

impl CandleTerminationInfo for TimeLimitFlag {
    open spec fn limit_read(&self) -> Result<bool, Seq<char>> {
        match self {
            TimeLimitFlag::Absent => Ok(false),
            TimeLimitFlag::Flag(value) => Ok(*value),
            TimeLimitFlag::Other => Err("TimeLimit.truncated must be a boolean"@),
        }
    }

    fn time_limit_truncated(&self) -> (result: Result<bool, String>) {
        match self {
            TimeLimitFlag::Absent => Ok(false),
            TimeLimitFlag::Flag(value) => Ok(*value),
            TimeLimitFlag::Other => Err("TimeLimit.truncated must be a boolean".to_owned()),
        }
    }
}

/// What one environment gave for one action.
pub struct CollectedTransition<V, I> {
    pub reward: Option<V>,
    pub done: bool,
    pub info: Option<I>,
}

/// The scalar columns of one step.
pub struct StepColumns<V> {
    pub rewards: Vec<V>,
    pub truncated: Vec<bool>,
    pub terminated: Vec<bool>,
    pub dones: Vec<bool>,
}

/// What the auxiliary data of a transition says; without data there was no time limit.
pub open spec fn limit_of<V, I: CandleTerminationInfo>(transition: CollectedTransition<V, I>) -> Result<bool, Seq<char>> {
    match transition.info {
        Some(info) => info.limit_read(),
        None => Ok(false),
    }
}

/// Whether the time limit cut an episode off at a transition.
pub open spec fn cut_off<V, I: CandleTerminationInfo>(transition: CollectedTransition<V, I>) -> bool {
    limit_of(transition) == Ok::<bool, Seq<char>>(true)
}

/// The first transition whose auxiliary data cannot be read, from a place on.
pub open spec fn first_unread<V, I: CandleTerminationInfo>(
    transitions: Seq<CollectedTransition<V, I>>,
    from: int,
) -> Option<Seq<char>>
    decreases transitions.len() - from,
{
    if from < 0 || from >= transitions.len() {
        None
    } else {
        match limit_of(transitions[from]) {
            Ok(_) => first_unread(transitions, from + 1),
            Err(message) => Some(message),
        }
    }
}

/// Reads the scalar columns of a step. Missing rewards are reported before unreadable time-limit
/// flags, of which the first is, in its own words. An episode terminated where it is done and was not
/// cut off.
pub fn step_columns<V: Number, I: CandleTerminationInfo>(transitions: &[CollectedTransition<V, I>]) -> (result: Result<
    StepColumns<V>,
    CollectorFailure,
>)
    ensures
        match result {
            Err(error) => if exists|i: int| 0 <= i < transitions@.len() && (#[trigger] transitions@[i]).reward is None {
                error.stage@ == "collector reward"@ && error.message@ == "missing reward"@
            } else {
                error.stage@ == "collector truncation"@ && first_unread(transitions@, 0) == Some(error.message@)
            },
            Ok(columns) => {
                let n = transitions@.len();
                &&& forall|i: int| 0 <= i < n ==> (#[trigger] transitions@[i]).reward is Some
                &&& first_unread(transitions@, 0) is None
                &&& columns.rewards@ == Seq::new(n, |i: int| transitions@[i].reward->Some_0)
                &&& columns.truncated@ == Seq::new(n, |i: int| cut_off(transitions@[i]))
                &&& columns.terminated@ == Seq::new(n, |i: int| transitions@[i].done && !cut_off(transitions@[i]))
                &&& columns.dones@ == Seq::new(n, |i: int| transitions@[i].done)
            },
        },
{
    let mut rewards: Vec<V> = Vec::new();
    let mut i: usize = 0;
    while i < transitions.len()
        invariant
            i <= transitions@.len(),
            forall|j: int| 0 <= j < i ==> (#[trigger] transitions@[j]).reward is Some,
            rewards@ == Seq::new(i as nat, |j: int| transitions@[j].reward->Some_0),
        decreases transitions@.len() - i,
    {
        match transitions[i].reward {
            Some(reward) => {
                rewards.push(reward);
            },
            None => {
                assert(transitions@[i as int].reward is None);
                return Err(failure("collector reward", "missing reward"));
            },
        }
        i += 1;
        assert(rewards@ =~= Seq::new(i as nat, |j: int| transitions@[j].reward->Some_0));
    }
    let mut truncated: Vec<bool> = Vec::new();
    let mut terminated: Vec<bool> = Vec::new();
    let mut dones: Vec<bool> = Vec::new();
    let mut k: usize = 0;
    while k < transitions.len()
        invariant
            k <= transitions@.len(),
            forall|j: int| 0 <= j < transitions@.len() ==> (#[trigger] transitions@[j]).reward is Some,
            first_unread(transitions@, 0) == first_unread(transitions@, k as int),
            truncated@ == Seq::new(k as nat, |j: int| cut_off(transitions@[j])),
            terminated@ == Seq::new(k as nat, |j: int| transitions@[j].done && !cut_off(transitions@[j])),
            dones@ == Seq::new(k as nat, |j: int| transitions@[j].done),
        decreases transitions@.len() - k,
    {
        let cut = match &transitions[k].info {
            Some(info) => match info.time_limit_truncated() {
                Ok(cut) => cut,
                Err(message) => {
                    return Err(CollectorFailure { stage: "collector truncation", message });
                },
            },
            None => false,
        };
        truncated.push(cut);
        terminated.push(transitions[k].done && !cut);
        dones.push(transitions[k].done);
        k += 1;
        assert(truncated@ =~= Seq::new(k as nat, |j: int| cut_off(transitions@[j])));
        assert(terminated@ =~= Seq::new(k as nat, |j: int| transitions@[j].done && !cut_off(transitions@[j])));
        assert(dones@ =~= Seq::new(k as nat, |j: int| transitions@[j].done));
    }
    assert(rewards@ =~= Seq::new(transitions@.len(), |j: int| transitions@[j].reward->Some_0));
    Ok(StepColumns { rewards, truncated, terminated, dones })
}

/// Counters over all runs of a collector.
pub struct CandleCollectionStatistics<V> {
    pub steps: usize,
    pub episodes: usize,
    pub seconds: V,
}

impl<V: Number> CandleCollectionStatistics<V> {
    pub fn new() -> (result: Self)
        ensures
            result.steps == 0,
            result.episodes == 0,
            result.seconds == V::zero_spec(),
    {
        CandleCollectionStatistics { steps: 0, episodes: 0, seconds: V::zero() }
    }

    /// Adds a run. Steps are added before episodes; what was added before an overflow stays.
    /// `elapsed` counts as no less than `shortest`.
    pub fn add_run(&mut self, progress: &Progress<V>, elapsed: V, shortest: V) -> (result: Result<(), CollectorFailure>)
        ensures
            ({
                let steps_fit = old(self).steps + progress.steps <= usize::MAX;
                let episodes_fit = old(self).episodes + progress.rewards@.len() <= usize::MAX;
                &&& result is Ok <==> steps_fit && episodes_fit
                &&& result matches Err(error) ==> error.stage@ == "collector statistics"@ && error.message@ == if steps_fit {
                    "episode count overflow"@
                } else {
                    "step count overflow"@
                }
                &&& final(self).steps == if steps_fit {
                    old(self).steps + progress.steps
                } else {
                    old(self).steps as int
                }
                &&& final(self).episodes == if steps_fit && episodes_fit {
                    old(self).episodes + progress.rewards@.len()
                } else {
                    old(self).episodes as int
                }
                &&& final(self).seconds == if steps_fit && episodes_fit {
                    old(self).seconds.plus_spec(
                        if elapsed.below_spec(shortest) {
                            shortest
                        } else {
                            elapsed
                        },
                    )
                } else {
                    old(self).seconds
                }
            }),
    {
        self.steps = match self.steps.checked_add(progress.steps) {
            Some(steps) => steps,
            None => return Err(failure("collector statistics", "step count overflow")),
        };
        self.episodes = match self.episodes.checked_add(progress.rewards.len()) {
            Some(episodes) => episodes,
            None => return Err(failure("collector statistics", "episode count overflow")),
        };
        self.seconds = self.seconds.plus(
            if elapsed.below(shortest) {
                shortest
            } else {
                elapsed
            },
        );
        Ok(())
    }
}

/// One reported value of a run.
pub enum CollectMetric<V> {
    Count(usize),
    Values(Vec<V>),
    Positions(Vec<i64>),
    Value(V),
}

/// Averages over the episodes of a run.
#[derive(Clone, Copy)]
pub struct EpisodeAverages<V> {
    pub reward_mean: V,
    pub reward_std: V,
    pub length_mean: V,
    pub length_std: V,
}

impl<V: Number> Progress<V> {
    /// The reported values of a run, in order. Without episodes all averages are zero.
    pub fn metrics(self, averages: EpisodeAverages<V>) -> (result: Vec<(&'static str, CollectMetric<V>)>)
        ensures
            result@.len() == 9,
            result@[0].0@ == "n/ep"@ && result@[0].1 == CollectMetric::<V>::Count(self.rewards@.len() as usize),
            result@[1].0@ == "n/st"@ && result@[1].1 == CollectMetric::<V>::Count(self.steps),
            result@[2].0@ == "rews"@,
            result@[2].1 matches CollectMetric::Values(list) && list@ == self.rewards@,
            result@[3].0@ == "lens"@,
            result@[3].1 matches CollectMetric::Positions(list) && list@ == self.lengths@,
            result@[4].0@ == "idxs"@,
            result@[4].1 matches CollectMetric::Positions(list) && list@ == self.starts@,
            ({
                let none = self.rewards@.len() == 0;
                let zero = CollectMetric::Value(V::zero_spec());
                &&& result@[5].0@ == "rew"@ && result@[5].1 == if none { zero } else { CollectMetric::Value(averages.reward_mean) }
                &&& result@[6].0@ == "len"@ && result@[6].1 == if none { zero } else { CollectMetric::Value(averages.length_mean) }
                &&& result@[7].0@ == "rew_std"@ && result@[7].1 == if none { zero } else { CollectMetric::Value(averages.reward_std) }
                &&& result@[8].0@ == "len_std"@ && result@[8].1 == if none { zero } else { CollectMetric::Value(averages.length_std) }
            }),
    {
        let episodes: usize = self.rewards.len();
        let shown = if episodes == 0 {
            EpisodeAverages {
                reward_mean: V::zero(),
                reward_std: V::zero(),
                length_mean: V::zero(),
                length_std: V::zero(),
            }
        } else {
            averages
        };
        let mut metrics: Vec<(&'static str, CollectMetric<V>)> = Vec::new();
        metrics.push(("n/ep", CollectMetric::Count(episodes)));
        metrics.push(("n/st", CollectMetric::Count(self.steps)));
        metrics.push(("rews", CollectMetric::Values(self.rewards)));
        metrics.push(("lens", CollectMetric::Positions(self.lengths)));
        metrics.push(("idxs", CollectMetric::Positions(self.starts)));
        metrics.push(("rew", CollectMetric::Value(shown.reward_mean)));
        metrics.push(("len", CollectMetric::Value(shown.length_mean)));
        metrics.push(("rew_std", CollectMetric::Value(shown.reward_std)));
        metrics.push(("len_std", CollectMetric::Value(shown.length_std)));
        metrics
    }
}

/// How many of the first rows leave.
pub open spec fn leaving_below(gone: Seq<usize>, bound: int) -> nat
    decreases gone.len(),
{
    if gone.len() == 0 {
        0
    } else {
        leaving_below(gone.drop_last(), bound) + if gone.last() < bound {
            1nat
        } else {
            0
        }
    }
}

proof fn leaving_all(gone: Seq<usize>, bound: int)
    requires
        forall|i: int| 0 <= i < gone.len() ==> #[trigger] gone[i] < bound,
    ensures
        leaving_below(gone, bound) == gone.len(),
    decreases gone.len(),
{
    if gone.len() > 0 {
        leaving_all(gone.drop_last(), bound);
    }
}

proof fn leaving_step(gone: Seq<usize>, bound: int)
    requires
        forall|i: int, j: int| 0 <= i < j < gone.len() ==> gone[i] < gone[j],
        0 <= bound <= usize::MAX,
    ensures
        leaving_below(gone, bound + 1) == leaving_below(gone, bound) + if gone.contains(bound as usize) {
            1nat
        } else {
            0
        },
    decreases gone.len(),
{
    if gone.len() > 0 {
        let front = gone.drop_last();
        leaving_step(front, bound);
        if gone.contains(bound as usize) {
            let k = choose|k: int| 0 <= k < gone.len() && gone[k] == bound as usize;
            if k < front.len() {
                assert(front[k] == bound as usize);
            }
        }
        if front.contains(bound as usize) {
            let k = choose|k: int| 0 <= k < front.len() && front[k] == bound as usize;
            assert(gone[k] == bound as usize);
            assert(gone[k] < gone.last());
        } else if gone.last() == bound {
            assert(gone[gone.len() - 1] == bound as usize);
        }
    }
}

proof fn kept_count<T>(rows: Seq<T>, gone: Seq<usize>, keep: Seq<bool>)
    requires
        forall|i: int, j: int| 0 <= i < j < gone.len() ==> gone[i] < gone[j],
        rows.len() <= keep.len(),
        rows.len() <= usize::MAX,
        forall|i: int| 0 <= i < rows.len() ==> #[trigger] keep[i] == !gone.contains(i as usize),
    ensures
        kept_rows(rows, keep).len() + leaving_below(gone, rows.len() as int) == rows.len(),
    decreases rows.len(),
{
    if rows.len() > 0 {
        kept_count(rows.drop_last(), gone, keep);
        leaving_step(gone, rows.len() - 1);
        assert(keep[rows.len() - 1] == !gone.contains((rows.len() - 1) as usize));
    } else {
        leaving_none(gone);
    }
}

proof fn leaving_none(gone: Seq<usize>)
    ensures
        leaving_below(gone, 0) == 0,
    decreases gone.len(),
{
    if gone.len() > 0 {
        leaving_none(gone.drop_last());
    }
}

/// Of the environments whose episode ended, exactly the surplus ones leave: as many as exceed the
/// episodes that are still missing, and no more than ended.
pub proof fn only_surplus_environments_leave(ready: Seq<usize>, finished: Seq<usize>, count: nat, collected: nat)
    requires
        ready.len() <= usize::MAX,
        rows_below(finished, ready.len()),
    ensures
        ({
            let leaving = surplus(ready.len(), count, collected);
            kept_rows(ready, staying(ready.len(), finished, leaving)).len() == ready.len() - common(
                finished.len(),
                leaving,
            )
        }),
{
    let leaving = surplus(ready.len(), count, collected);
    let gone = finished.take(common(finished.len(), leaving));
    let keep = staying(ready.len(), finished, leaving);
    kept_count(ready, gone, keep);
    leaving_all(gone, ready.len() as int);
}

/// An environment that leaves has just ended an episode: every other one stays.
pub proof fn running_environments_stay(ready: nat, finished: Seq<usize>, leaving: nat, row: int)
    requires
        0 <= row < ready,
        row <= usize::MAX,
        !finished.contains(row as usize),
    ensures
        staying(ready, finished, leaving)[row],
{
    let gone = finished.take(common(finished.len(), leaving));
    if gone.contains(row as usize) {
        let k = choose|k: int| 0 <= k < gone.len() && gone[k] == row as usize;
        assert(finished[k] == row as usize);
    }
}

/// The observations of a step, all of which must be there.
pub fn present_observations<'a, O>(observations: &'a [Option<O>]) -> (result: Result<Vec<&'a O>, CollectorFailure>)
    ensures
        match result {
            Err(error) => error.stage@ == "collector observation"@ && if observations@.len() == 0 {
                error.message@ == "empty observation batch"@
            } else {
                error.message@ == "missing observation"@ && exists|i: int|
                    0 <= i < observations@.len() && #[trigger] observations@[i] is None
            },
            Ok(list) => observations@.len() > 0 && list@.len() == observations@.len() && forall|i: int|
                0 <= i < list@.len() ==> #[trigger] observations@[i] == Some(*list@[i]),
        },
{
    let mut list: Vec<&'a O> = Vec::new();
    let mut i: usize = 0;
    while i < observations.len()
        invariant
            i <= observations@.len(),
            list@.len() == i,
            forall|j: int| 0 <= j < i ==> #[trigger] observations@[j] == Some(*list@[j]),
        decreases observations@.len() - i,
    {
        match &observations[i] {
            Some(observation) => {
                list.push(observation);
            },
            None => {
                assert(observations@[i as int] is None);
                return Err(failure("collector observation", "missing observation"));
            },
        }
        i += 1;
    }
    if observations.len() == 0 {
        return Err(failure("collector observation", "empty observation batch"));
    }
    Ok(list)
}

/// Checks that a replay has a child for every environment.
pub fn check_children(children: usize, environments: usize) -> (result: Result<(), CollectorFailure>)
    ensures
        result is Ok <==> children >= environments,
        result matches Err(error) ==> error.stage@ == "collector buffer"@ && error.message@
            == "fewer replay children than environments"@,
{
    if children < environments {
        Err(failure("collector buffer", "fewer replay children than environments"))
    } else {
        Ok(())
    }
}

/// Reads a requested replay capacity.
pub fn buffer_capacity(capacity: i64) -> (result: Result<usize, CollectorFailure>)
    ensures
        match result {
            Ok(size) => size == capacity,
            Err(error) => (capacity < 0 || capacity > usize::MAX) && error.stage@ == "collector buffer"@ && error.message@
                == conversion_message(),
        },
{
    if capacity < 0 || capacity as u64 > usize::MAX as u64 {
        Err(failure("collector buffer", "out of range integral type conversion attempted"))
    } else {
        Ok(capacity as usize)
    }
}

/// Whether a failure is about a buffer.
pub open spec fn is_buffer_failure(error: CollectorFailure, message: Seq<char>) -> bool {
    error.stage@ == "collector buffer"@ && error.message@ == message
}

/// Makes the replay buffers that collectors fill.
#[derive(Clone, Copy, Debug, Default)]
pub struct CandleCollectorFactory;

impl CandleCollectorFactory {
    /// A buffer of a requested capacity for several environments.
    pub fn create_buffer<V: Number>(&self, capacity: i64, environments: usize) -> (result: Result<
        CandleVectorReplayBuffer<V>,
        CollectorFailure,
    >)
        requires
            capacity <= usize::MAX / 2,
        ensures
            if capacity < 0 {
                result is Err && is_buffer_failure(result->Err_0, conversion_message())
            } else if environments == 0 {
                result is Err && is_buffer_failure(
                    result->Err_0,
                    "vector replay requires at least one environment"@,
                )
            } else {
                let slots = (capacity + environments - 1) / environments as int;
                match result {
                    Ok(buffer) => buffer.wf() && slots * environments <= usize::MAX && buffer.rings().len() == environments
                        && buffer.child_slots() == slots && buffer.rows() is None,
                    Err(error) => slots * environments > usize::MAX && is_buffer_failure(
                        error,
                        "rounded vector replay capacity exceeds native index range"@,
                    ),
                }
            },
    {
        let size: usize = match buffer_capacity(capacity) {
            Ok(size) => size,
            Err(error) => return Err(error),
        };
        match CandleVectorReplayBuffer::new(size, environments) {
            Ok(buffer) => {
                proof {
                    let slots = buffer.child_slots() as int;
                    assert(slots * environments == environments * slots) by (nonlinear_arith);
                }
                Ok(buffer)
            },
            Err(CandleVectorReplayError::EnvironmentCount) => Err(
                failure("collector buffer", "vector replay requires at least one environment"),
            ),
            Err(_) => Err(
                failure("collector buffer", "rounded vector replay capacity exceeds native index range"),
            ),
        }
    }
}

// ---- the stages of a step ---------------------------------------------------------------------

/// The stages of a step, in order.
#[derive(Clone, Copy, Debug, PartialEq, Eq, Structural)]
pub enum StepStage {
    /// The observations of the ready environments are stacked.
    Stack,
    /// The policy chooses actions.
    Forward,
    /// The policy adds noise to its actions.
    Explore,
    /// The policy maps its actions for the environments.
    Adapt,
    /// The environments take actions.
    Step,
    /// Rewards and flags are read.
    Columns,
    /// The observations that followed are stacked.
    StackNext,
    /// The replay stores the step.
    Store,
}

/// Which actions are handed on.
#[derive(Clone, Copy, Debug, PartialEq, Eq, Structural)]
pub enum HandedActions {
    /// None is.
    Nothing,
    /// The actions of the policy, with noise where there is any.
    Own,
    /// The actions of the policy, mapped for the environments.
    Mapped,
}

/// What is done next in a step.
#[derive(Debug)]
pub enum StepAction {
    Do(StepStage, HandedActions),
    Finished,
    /// A stage failed under a name of its own.
    Failed { stage: &'static str, message: String },
    /// A stage failed with a failure that its owner names.
    Passed(String),
}

/// Which actions a stage is handed.
pub open spec fn handed(stage: StepStage) -> HandedActions {
    match stage {
        StepStage::Explore | StepStage::Adapt | StepStage::Store => HandedActions::Own,
        StepStage::Step => HandedActions::Mapped,
        _ => HandedActions::Nothing,
    }
}

/// The stage behind another one: noise is added if and only if it is asked for.
pub open spec fn following_stage(stage: StepStage, exploration_noise: bool) -> Option<StepStage> {
    match stage {
        StepStage::Stack => Some(StepStage::Forward),
        StepStage::Forward => if exploration_noise {
            Some(StepStage::Explore)
        } else {
            Some(StepStage::Adapt)
        },
        StepStage::Explore => Some(StepStage::Adapt),
        StepStage::Adapt => Some(StepStage::Step),
        StepStage::Step => Some(StepStage::Columns),
        StepStage::Columns => Some(StepStage::StackNext),
        StepStage::StackNext => Some(StepStage::Store),
        StepStage::Store => None,
    }
}

/// The name under which a stage fails; the environments, and the columns of a step, name their own.
pub open spec fn stage_name(stage: StepStage) -> Option<Seq<char>> {
    match stage {
        StepStage::Stack | StepStage::StackNext => Some("collector observation"@),
        StepStage::Forward => Some("collector forward"@),
        StepStage::Explore => Some("collector exploration"@),
        StepStage::Adapt => Some("collector map action"@),
        StepStage::Store => Some("collector replay"@),
        StepStage::Step | StepStage::Columns => None,
    }
}

/// What begins a step.
pub fn begin_step() -> (result: StepAction)
    ensures
        result == StepAction::Do(StepStage::Stack, HandedActions::Nothing),
{
    StepAction::Do(StepStage::Stack, HandedActions::Nothing)
}

/// What is done behind a stage: the next stage with the actions that it is handed, or nothing more
/// where the stage failed.
pub fn after_stage(stage: StepStage, exploration_noise: bool, outcome: Result<(), String>) -> (result: StepAction)
    ensures
        match outcome {
            Ok(_) => result == match following_stage(stage, exploration_noise) {
                Some(next) => StepAction::Do(next, handed(next)),
                None => StepAction::Finished,
            },
            Err(failed) => match stage_name(stage) {
                Some(name) => result matches StepAction::Failed { stage: said, message } && said@ == name && message
                    == failed,
                None => result == StepAction::Passed(failed),
            },
        },
{
    match outcome {
        Ok(_) => match stage {
            StepStage::Stack => StepAction::Do(StepStage::Forward, HandedActions::Nothing),
            StepStage::Forward => if exploration_noise {
                StepAction::Do(StepStage::Explore, HandedActions::Own)
            } else {
                StepAction::Do(StepStage::Adapt, HandedActions::Own)
            },
            StepStage::Explore => StepAction::Do(StepStage::Adapt, HandedActions::Own),
            StepStage::Adapt => StepAction::Do(StepStage::Step, HandedActions::Mapped),
            StepStage::Step => StepAction::Do(StepStage::Columns, HandedActions::Nothing),
            StepStage::Columns => StepAction::Do(StepStage::StackNext, HandedActions::Nothing),
            StepStage::StackNext => StepAction::Do(StepStage::Store, HandedActions::Own),
            StepStage::Store => StepAction::Finished,
        },
        Err(message) => match stage {
            StepStage::Stack | StepStage::StackNext => StepAction::Failed { stage: "collector observation", message },
            StepStage::Forward => StepAction::Failed { stage: "collector forward", message },
            StepStage::Explore => StepAction::Failed { stage: "collector exploration", message },
            StepStage::Adapt => StepAction::Failed { stage: "collector map action", message },
            StepStage::Store => StepAction::Failed { stage: "collector replay", message },
            StepStage::Step | StepStage::Columns => StepAction::Passed(message),
        },
    }
}

/// The stage after a number of stages of a step that none of them failed in.
pub open spec fn stage_at(exploration_noise: bool, count: nat) -> Option<StepStage>
    decreases count,
{
    if count == 0 {
        Some(StepStage::Stack)
    } else {
        match stage_at(exploration_noise, (count - 1) as nat) {
            Some(stage) => following_stage(stage, exploration_noise),
            None => None,
        }
    }
}

/// A step comes to its end: with noise behind eight stages, and otherwise behind seven, none of which
/// adds noise. The environments are handed the mapped actions and the replay those of the policy.
pub proof fn steps_end_in_the_replay(exploration_noise: bool)
    ensures
        exploration_noise ==> stage_at(true, 2) == Some(StepStage::Explore) && stage_at(true, 7) == Some(
            StepStage::Store,
        ) && stage_at(true, 8) is None,
        !exploration_noise ==> stage_at(false, 6) == Some(StepStage::Store) && stage_at(false, 7) is None && forall|
            count: nat,
        | #[trigger] stage_at(false, count) != Some(StepStage::Explore),
        handed(StepStage::Step) == HandedActions::Mapped,
        handed(StepStage::Store) == HandedActions::Own,
{
    reveal_with_fuel(stage_at, 9);
    assert forall|count: nat| !exploration_noise implies #[trigger] stage_at(false, count) != Some(StepStage::Explore) by {
        plain_steps_add_no_noise(count);
    }
}

proof fn plain_steps_add_no_noise(count: nat)
    ensures
        stage_at(false, count) != Some(StepStage::Explore),
    decreases count,
{
    if count > 0 {
        plain_steps_add_no_noise((count - 1) as nat);
    }
}

// ---- whole collections ------------------------------------------------------------------------

/// A step of a collection: which rows ended an episode, and the episodes of all rows.
pub type CollectedRows<V> = (Seq<bool>, Seq<ReplayEpisode<V>>);

/// The environments that are ready and what was collected behind steps of a collection that wants a
/// number of episodes.
pub open spec fn episodes_after<V>(environments: nat, count: nat, steps: Seq<CollectedRows<V>>) -> (
    Seq<usize>,
    ProgressState<V>,
)
    decreases steps.len(),
{
    if steps.len() == 0 {
        (
            first_positions(common(environments, count) as nat),
            ProgressState { rewards: Seq::empty(), lengths: Seq::empty(), starts: Seq::empty() },
        )
    } else {
        let (ready, progress) = episodes_after(environments, count, steps.drop_last());
        let (dones, episodes) = steps.last();
        let rows = common(dones.len(), episodes.len());
        let after = recorded_rows(progress, dones, episodes, rows).0;
        (
            kept_rows(
                ready,
                staying(ready.len(), finished_rows(dones, rows), surplus(ready.len(), count, after.rewards.len())),
            ),
            after,
        )
    }
}

/// Whether every step has a row for each environment that was ready, and none of them stopped the
/// collection.
pub open spec fn steps_fit<V>(environments: nat, count: nat, steps: Seq<CollectedRows<V>>) -> bool
    decreases steps.len(),
{
    if steps.len() == 0 {
        true
    } else {
        let (ready, progress) = episodes_after(environments, count, steps.drop_last());
        let (dones, episodes) = steps.last();
        &&& steps_fit(environments, count, steps.drop_last())
        &&& dones.len() == ready.len()
        &&& episodes.len() == ready.len()
        &&& recorded_rows(progress, dones, episodes, dones.len() as int).1 is None
    }
}

proof fn rows_are_recorded<V>(
    progress: ProgressState<V>,
    dones: Seq<bool>,
    episodes: Seq<ReplayEpisode<V>>,
    count: int,
)
    requires
        0 <= count,
        recorded_rows(progress, dones, episodes, count).1 is None,
    ensures
        recorded_rows(progress, dones, episodes, count).0.rewards.len() == progress.rewards.len() + finished_rows(
            dones,
            count,
        ).len(),
        finished_rows(dones, count).len() <= count,
    decreases count,
{
    if count > 0 {
        rows_are_recorded(progress, dones, episodes, count - 1);
    }
}

/// A collection of episodes never has more environments under way than episodes are missing, so it
/// never collects more than is wanted: once enough is collected, it is exactly what was wanted.
pub proof fn collections_yield_exactly_their_episodes<V>(environments: nat, count: nat, steps: Seq<CollectedRows<V>>)
    requires
        environments <= usize::MAX,
        steps_fit(environments, count, steps),
    ensures
        ({
            let (ready, progress) = episodes_after(environments, count, steps);
            &&& ready.len() <= environments
            &&& progress.rewards.len() + ready.len() <= count
            &&& progress.rewards.len() >= count ==> progress.rewards.len() == count && ready.len() == 0
        }),
    decreases steps.len(),
{
    if steps.len() > 0 {
        let earlier = steps.drop_last();
        collections_yield_exactly_their_episodes(environments, count, earlier);
        let (ready, progress) = episodes_after(environments, count, earlier);
        let (dones, episodes) = steps.last();
        rows_are_recorded(progress, dones, episodes, dones.len() as int);
        finished_below(dones, dones.len() as int);
        let collected = recorded_rows(progress, dones, episodes, dones.len() as int).0.rewards.len();
        only_surplus_environments_leave(ready, finished_rows(dones, dones.len() as int), count, collected);
    }
}

/// The steps that a collection took behind rounds in which every environment takes part.
pub open spec fn steps_taken(environments: nat, rounds: nat) -> nat {
    environments * rounds
}

/// A collection of steps takes the least multiple of the number of environments that is enough: it
/// goes on as long as fewer are taken than are wanted.
pub proof fn collections_take_the_least_multiple(environments: nat, wanted: nat, rounds: nat, other: nat)
    requires
        environments > 0,
        rounds > 0,
        steps_taken(environments, (rounds - 1) as nat) < wanted,
        steps_taken(environments, rounds) >= wanted,
        steps_taken(environments, other) >= wanted,
    ensures
        steps_taken(environments, rounds) <= steps_taken(environments, other),
        steps_taken(environments, rounds) < wanted + environments,
{
    assert(environments * rounds == environments * (rounds - 1) + environments) by (nonlinear_arith)
        requires
            rounds > 0,
    ;
    if other < rounds {
        assert(environments * other <= environments * (rounds - 1)) by (nonlinear_arith)
            requires
                other <= rounds - 1,
        ;
    } else {
        assert(environments * rounds <= environments * other) by (nonlinear_arith)
            requires
                rounds <= other,
        ;
    }
}

/// An episode that is done either terminated or was cut off by its time limit, and never both.
pub proof fn ends_are_told_apart(
    transitions: &[CollectedTransition<Ticks, TimeLimitFlag>],
    result: Result<StepColumns<Ticks>, CollectorFailure>,
    place: int,
)
    requires
        call_ensures(step_columns::<Ticks, TimeLimitFlag>, (transitions,), result),
        result is Ok,
        0 <= place < transitions@.len(),
    ensures
        ({
            let (columns, transition) = (result->Ok_0, transitions@[place]);
            let cut = transition.info == Some(TimeLimitFlag::Flag(true));
            &&& columns.rewards@.len() == transitions@.len() && columns.dones@.len() == transitions@.len()
            &&& transition.reward == Some(columns.rewards@[place])
            &&& columns.dones@[place] == transition.done
            &&& columns.truncated@[place] <==> cut
            &&& !(columns.terminated@[place] && columns.truncated@[place])
            &&& transition.done ==> columns.terminated@[place] || columns.truncated@[place]
            &&& !transition.done ==> !columns.terminated@[place]
        }),
{
}

/// A step counts all of its rows and takes the episodes of those that ended, each once and in order,
/// with reward, length and start.
pub proof fn ended_episodes_are_taken<V: Number>(
    progress: &mut Progress<V>,
    dones: &[bool],
    episodes: &[ReplayEpisode<V>],
    result: Result<Vec<usize>, CollectorFailure>,
    row: int,
    place: int,
)
    requires
        call_ensures(Progress::<V>::record, (progress, dones, episodes), result),
        result is Ok,
        dones@.len() == episodes@.len(),
        0 <= row < dones@.len(),
    ensures
        final(progress).steps == old(progress).steps + dones@.len(),
        result->Ok_0@.contains(row as usize) <==> dones@[row],
        final(progress).rewards@.len() == old(progress).rewards@.len() + result->Ok_0@.len(),
        final(progress).lengths@.len() == old(progress).lengths@.len() + result->Ok_0@.len(),
        final(progress).starts@.len() == old(progress).starts@.len() + result->Ok_0@.len(),
        0 <= place < result->Ok_0@.len() ==> ({
            let episode = episodes@[result->Ok_0@[place] as int];
            &&& result->Ok_0@[place] < dones@.len()
            &&& final(progress).rewards@[old(progress).rewards@.len() + place] == episode.reward
            &&& final(progress).lengths@[old(progress).lengths@.len() + place] == episode.length
            &&& final(progress).starts@[old(progress).starts@.len() + place] == episode.start
        }),
        0 < place < result->Ok_0@.len() ==> result->Ok_0@[place - 1] < result->Ok_0@[place],
{
    let count = dones@.len() as int;
    assert(dones@.len() == dones.len());
    finished_below(dones@, count);
    ended_rows_are_finished(dones@, count, row);
    rows_are_taken(old(progress)@, dones@, episodes@, count, place);
}

proof fn ended_rows_are_finished(dones: Seq<bool>, count: int, row: int)
    requires
        0 <= count <= dones.len(),
        count <= usize::MAX,
        0 <= row < dones.len(),
        row <= usize::MAX,
    ensures
        finished_rows(dones, count).contains(row as usize) <==> row < count && dones[row],
    decreases count,
{
    if count > 0 {
        ended_rows_are_finished(dones, count - 1, row);
        let earlier = finished_rows(dones, count - 1);
        let after = finished_rows(dones, count);
        if dones[count - 1] {
            if row == count - 1 {
                assert(after[earlier.len() as int] == row as usize);
            }
            if earlier.contains(row as usize) {
                let k = choose|k: int| 0 <= k < earlier.len() && earlier[k] == row as usize;
                assert(after[k] == row as usize);
            }
        }
    }
}

proof fn rows_are_taken<V>(
    progress: ProgressState<V>,
    dones: Seq<bool>,
    episodes: Seq<ReplayEpisode<V>>,
    count: int,
    place: int,
)
    requires
        0 <= count <= dones.len() == episodes.len(),
        count <= usize::MAX,
        recorded_rows(progress, dones, episodes, count).1 is None,
    ensures
        ({
            let after = recorded_rows(progress, dones, episodes, count).0;
            let finished = finished_rows(dones, count);
            &&& after.rewards.len() == progress.rewards.len() + finished.len()
            &&& after.lengths.len() == progress.lengths.len() + finished.len()
            &&& after.starts.len() == progress.starts.len() + finished.len()
            &&& 0 <= place < finished.len() ==> ({
                let episode = episodes[finished[place] as int];
                &&& finished[place] < count
                &&& after.rewards[progress.rewards.len() + place] == episode.reward
                &&& after.lengths[progress.lengths.len() + place] == episode.length
                &&& after.starts[progress.starts.len() + place] == episode.start
            })
        }),
    decreases count,
{
    if count > 0 {
        rows_are_taken(progress, dones, episodes, count - 1, place);
    }
}

/// A collection has enough once it has as many as it wants of what it wants, and not before.
pub proof fn enough_is_as_many_as_wanted<V: Number>(target: Target, progress: Progress<V>, result: bool)
    requires
        call_ensures(Target::reached::<V>, (&target, &progress), result),
    ensures
        target matches Target::Episodes(count) ==> (result <==> progress.rewards@.len() >= count),
        target matches Target::Steps(count) ==> (result <==> progress.steps >= count@),
{
}

/// A number of steps that is no multiple of the number of environments is overshot; no other is.
pub proof fn multiples_are_not_overshot<V: Number, O>(
    run: CollectorRun<V, O>,
    environments: usize,
    result: bool,
    rounds: int,
)
    requires
        call_ensures(CollectorRun::<V, O>::may_overshoot, (&run, environments), result),
        environments > 0,
        run.goal() is Steps,
        run.goal()->Steps_0@ > 0,
    ensures
        run.goal()->Steps_0@ == rounds * environments ==> !result,
        !result ==> exists|whole: int| run.goal()->Steps_0@ == #[trigger] (whole * environments),
{
    let (count, parts) = (run.goal()->Steps_0@, environments as int);
    vstd::arithmetic::div_mod::lemma_fundamental_div_mod(count, parts);
    assert(parts * (count / parts) == (count / parts) * parts) by (nonlinear_arith);
    if count == rounds * parts {
        vstd::arithmetic::div_mod::lemma_mod_multiples_basic(rounds, parts);
    }
}

/// Environments that were reset go on from their new observations, and the others from those that the
/// step gave.
pub proof fn reset_environments_begin_anew<V: Number, O>(run: &mut CollectorRun<V, O>, reset: Vec<O>, place: int, row: int)
    requires
        call_ensures(CollectorRun::<V, O>::take_reset, (run, reset), ()),
        rows_below(old(run)@.finished, old(run)@.next.len()),
        reset@.len() == old(run)@.finished.len(),
        0 <= place < reset@.len(),
        0 <= row < old(run)@.next.len(),
    ensures
        final(run)@.next.len() == old(run)@.next.len(),
        final(run)@.next[old(run)@.finished[place] as int] == reset@[place],
        (forall|k: int| 0 <= k < old(run)@.finished.len() ==> #[trigger] old(run)@.finished[k] != row)
            ==> final(run)@.next[row] == old(run)@.next[row],
        final(run)@.ready == old(run)@.ready && final(run)@.progress == old(run)@.progress,
{
    reset_is_a_choice(old(run)@.next, old(run)@.finished, reset@, reset@.len() as int);
}

/// A settled step leaves the running environments with what they saw last. Where steps are counted all
/// environments go on; where episodes are, as many remain as can still be used, or as are running.
pub proof fn settled_steps_go_on<V: Number, O>(run: &mut CollectorRun<V, O>, result: bool, wanted: int)
    requires
        call_ensures(CollectorRun::<V, O>::settle, (run,), result),
        rows_below(old(run)@.finished, old(run)@.ready.len()),
        old(run)@.next.len() == old(run)@.ready.len() <= usize::MAX,
        old(run).goal() matches Target::Episodes(count) ==> wanted == count,
    ensures
        final(run)@.progress == old(run)@.progress && final(run)@.steps == old(run)@.steps,
        old(run).goal() is Steps ==> final(run)@.ready == old(run)@.ready && final(run)@.observations == old(run)@.next,
        old(run).goal() is Episodes ==> ({
            let (ready, ended) = (old(run)@.ready.len() as int, old(run)@.finished.len() as int);
            let missing = wanted - old(run)@.progress.rewards.len();
            let left = final(run)@.ready.len() as int;
            &&& final(run)@.observations.len() == left
            &&& left <= ready
            &&& ready <= missing ==> left == ready
            &&& missing < ready && 0 <= missing && ready - missing <= ended ==> left == missing
            &&& missing < ready && ready - missing > ended ==> left == ready - ended
            &&& missing < 0 && ready <= ended ==> left == 0
        }),
{
    if old(run).goal() is Episodes {
        let state = old(run)@;
        let leaving = surplus(state.ready.len(), wanted as nat, state.progress.rewards.len());
        only_surplus_environments_leave(state.ready, state.finished, wanted as nat, state.progress.rewards.len());
        let gone = state.finished.take(common(state.finished.len(), leaving));
        let keep = staying(state.ready.len(), state.finished, leaving);
        kept_count(state.next, gone, keep);
        leaving_all(gone, state.ready.len() as int);
        ended_rows_fit(state.finished, state.ready.len());
    }
}

/// No more rows ended than there are.
proof fn ended_rows_fit(rows: Seq<usize>, bound: nat)
    requires
        rows_below(rows, bound),
    ensures
        rows.len() <= bound,
    decreases rows.len(),
{
    if rows.len() > 0 {
        let last = rows.last() as nat;
        let fewer = rows.drop_last();
        assert(rows_below(fewer, last)) by {
            assert forall|i: int| 0 <= i < fewer.len() implies #[trigger] fewer[i] < last by {
                assert(rows[i] < rows[rows.len() - 1]);
            }
        }
        ended_rows_fit(fewer, last);
        assert(rows[rows.len() - 1] < bound);
    }
}

/// Runs add up: steps, episodes and seconds, and a run takes no less time than the shortest one.
pub proof fn runs_add_up(
    statistics: &mut CandleCollectionStatistics<Ticks>,
    progress: Progress<Ticks>,
    elapsed: i64,
    shortest: i64,
    result: Result<(), CollectorFailure>,
)
    requires
        call_ensures(
            CandleCollectionStatistics::<Ticks>::add_run,
            (statistics, &progress, Ticks(Some(elapsed)), Ticks(Some(shortest))),
            result,
        ),
        result is Ok,
        final(statistics).seconds.0 is Some,
    ensures
        final(statistics).steps == old(statistics).steps + progress.steps,
        final(statistics).episodes == old(statistics).episodes + progress.rewards@.len(),
        ({
            let taken = final(statistics).seconds.0->Some_0 - old(statistics).seconds.0->Some_0;
            taken >= elapsed && taken >= shortest && (taken == elapsed || taken == shortest)
        }),
{
}

/// A collection begins with no more environments than it wants episodes, and with all of them where it
/// wants steps; those that take part are the first.
pub proof fn collections_begin_with_the_first<V: Number, O>(
    environments: usize,
    limit: TrainingCollectLimit,
    observations: Vec<O>,
    result: Result<CollectorRun<V, O>, CollectorFailure>,
    place: int,
)
    requires
        call_ensures(CollectorRun::<V, O>::begin, (environments, environments, limit, observations), result),
        result is Ok,
        observations@.len() == environments,
        0 <= place < result->Ok_0@.ready.len(),
    ensures
        result->Ok_0@.ready.len() <= environments,
        limit matches TrainingCollectLimit::Episodes(Some(count)) ==> result->Ok_0@.ready.len() <= count && (
        result->Ok_0@.ready.len() == environments || result->Ok_0@.ready.len() == count),
        limit is Steps ==> result->Ok_0@.ready.len() == environments,
        result->Ok_0@.ready[place] == place,
        result->Ok_0@.observations.len() == result->Ok_0@.ready.len(),
        result->Ok_0@.observations[place] == observations@[place],
        result->Ok_0@.steps == 0,
{
}

} // verus!
