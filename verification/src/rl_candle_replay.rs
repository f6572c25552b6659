//! Replay storage of scalar transition columns over one or several rings.
//!
//! Tensor columns live beside this storage; a transition is reserved here first, then its tensors
//! are written, then its scalars are committed here.
use rand::rngs::StdRng;
use vstd::prelude::*;

use crate::number::Number;
use crate::random::{draw_weighted, total_weight};
use crate::rl_replay_index::{fresh_ring, ReplayEpisode, ReplayIndex, ReplayIndexError, ReplayState};

verus! {

/// The scalar columns of one transition.
#[derive(Clone, Copy, Debug, PartialEq, Eq)]
pub struct ReplayRow<V> {
    pub reward: V,
    pub terminated: bool,
    pub truncated: bool,
}

/// Failures of a single-stream replay.
#[derive(Clone, Copy, Debug, PartialEq, Eq, Structural)]
pub enum CandleReplayError {
    /// The storage has not been allocated.
    MissingStorage,
    /// An inserted column does not have exactly one leading row.
    BatchSize,
    /// A sample size exceeds the native signed range.
    SampleSize,
    Index(ReplayIndexError),
}

/// Failures of a multi-environment replay.
#[derive(Clone, Copy, Debug, PartialEq, Eq, Structural)]
pub enum CandleVectorReplayError {
    EnvironmentCount,
    CapacityOverflow,
    /// An environment id is outside the child buffers.
    EnvironmentIndex,
    /// Reward or flag rows do not match the environment ids.
    BatchSize,
    /// An insertion without environments has no positions.
    EmptyIndices,
    Storage(CandleReplayError),
    Index(ReplayIndexError),
}

/// What is said of a failure.
pub open spec fn replay_words(error: CandleReplayError) -> Seq<char> {
    match error {
        CandleReplayError::MissingStorage => "replay observation storage is not initialized"@,
        CandleReplayError::BatchSize => "replay insertion requires one leading batch row"@,
        CandleReplayError::SampleSize => "sample size exceeds the native signed index range"@,
        CandleReplayError::Index(error) => crate::rl_replay_index::index_words(error),
    }
}

impl CandleReplayError {
    /// What is said of the failure.
    pub fn message(self) -> (result: &'static str)
        ensures
            result@ == replay_words(self),
    {
        match self {
            CandleReplayError::MissingStorage => "replay observation storage is not initialized",
            CandleReplayError::BatchSize => "replay insertion requires one leading batch row",
            CandleReplayError::SampleSize => "sample size exceeds the native signed index range",
            CandleReplayError::Index(error) => error.message(),
        }
    }
}

/// What is said of a failure.
pub open spec fn vector_words(error: CandleVectorReplayError) -> Seq<char> {
    match error {
        CandleVectorReplayError::EnvironmentCount => "vector replay requires at least one environment"@,
        CandleVectorReplayError::CapacityOverflow => "rounded vector replay capacity exceeds native index range"@,
        CandleVectorReplayError::EnvironmentIndex => "vector replay environment id is outside the child buffers"@,
        CandleVectorReplayError::BatchSize => "vector replay reward/flag rows do not match environment ids"@,
        CandleVectorReplayError::EmptyIndices => "empty vector insertion has no integer physical indices"@,
        CandleVectorReplayError::Storage(error) => replay_words(error),
        CandleVectorReplayError::Index(error) => crate::rl_replay_index::index_words(error),
    }
}

impl CandleVectorReplayError {
    /// What is said of the failure.
    pub fn message(self) -> (result: &'static str)
        ensures
            result@ == vector_words(self),
    {
        match self {
            CandleVectorReplayError::EnvironmentCount => "vector replay requires at least one environment",
            CandleVectorReplayError::CapacityOverflow => "rounded vector replay capacity exceeds native index range",
            CandleVectorReplayError::EnvironmentIndex => "vector replay environment id is outside the child buffers",
            CandleVectorReplayError::BatchSize => "vector replay reward/flag rows do not match environment ids",
            CandleVectorReplayError::EmptyIndices => "empty vector insertion has no integer physical indices",
            CandleVectorReplayError::Storage(error) => error.message(),
            CandleVectorReplayError::Index(error) => error.message(),
        }
    }
}

/// The scalar columns of a storage: not allocated, or one row per physical slot.
pub struct ReplayStorage<V> {
    rows: Option<Vec<ReplayRow<V>>>,
}

/// The row of a slot that was never written.
pub open spec fn zero_row<V: Number>() -> ReplayRow<V> {
    ReplayRow { reward: V::zero_spec(), terminated: false, truncated: false }
}

/// The first position that lies outside a storage.
pub open spec fn outside(indices: Seq<usize>, slots: nat) -> bool {
    exists|i: int| 0 <= i < indices.len() && #[trigger] indices[i] >= slots
}

impl<V: Number> ReplayStorage<V> {
    /// The rows, once they are allocated.
    pub closed spec fn rows(&self) -> Option<Seq<ReplayRow<V>>> {
        match self.rows {
            Some(rows) => Some(rows@),
            None => None,
        }
    }

    pub fn new() -> (result: Self)
        ensures
            result.rows() is None,
    {
        ReplayStorage { rows: None }
    }

    /// Allocates zero rows, unless rows are there, and says whether it did.
    pub fn initialize(&mut self, capacity: usize) -> (result: bool)
        ensures
            result == (old(self).rows() is None),
            result ==> final(self).rows() == Some(Seq::new(capacity as nat, |i: int| zero_row::<V>())),
            !result ==> final(self).rows() == old(self).rows(),
    {
        if self.rows.is_some() {
            return false;
        }
        let mut rows: Vec<ReplayRow<V>> = Vec::new();
        let mut i: usize = 0;
        while i < capacity
            invariant
                i <= capacity,
                rows@ == Seq::new(i as nat, |j: int| zero_row::<V>()),
            decreases capacity - i,
        {
            rows.push(ReplayRow { reward: V::zero(), terminated: false, truncated: false });
            i += 1;
            assert(rows@ =~= Seq::new(i as nat, |j: int| zero_row::<V>()));
        }
        self.rows = Some(rows);
        true
    }

    /// Writes the row of a slot.
    pub fn write(&mut self, index: usize, row: ReplayRow<V>)
        requires
            old(self).rows() matches Some(rows) && index < rows.len(),
        ensures
            final(self).rows() == Some(old(self).rows()->Some_0.update(index as int, row)),
    {
        let mut taken = None;
        core::mem::swap(&mut self.rows, &mut taken);
        let mut rows = taken.unwrap();
        rows.set(index, row);
        self.rows = Some(rows);
    }

    /// The rows at several positions, in the given order.
    pub fn get(&self, indices: &[usize]) -> (result: Result<Vec<ReplayRow<V>>, CandleReplayError>)
        ensures
            match result {
                Err(CandleReplayError::MissingStorage) => self.rows() is None,
                Err(CandleReplayError::Index(error)) => error == ReplayIndexError::Index && self.rows() is Some
                    && outside(indices@, self.rows()->Some_0.len()),
                Err(_) => false,
                Ok(list) => self.rows() is Some && !outside(indices@, self.rows()->Some_0.len()) && list@
                    == indices@.map_values(|index: usize| self.rows()->Some_0[index as int]),
            },
    {
        let rows = match &self.rows {
            Some(rows) => rows,
            None => return Err(CandleReplayError::MissingStorage),
        };
        let mut list: Vec<ReplayRow<V>> = Vec::new();
        let mut i: usize = 0;
        while i < indices.len()
            invariant
                i <= indices@.len(),
                self.rows() == Some(rows@),
                list@.len() == i,
                forall|j: int| 0 <= j < i ==> #[trigger] indices@[j] < rows@.len(),
                forall|j: int| 0 <= j < i ==> list@[j] == rows@[indices@[j] as int],
            decreases indices@.len() - i,
        {
            let index: usize = indices[i];
            if index >= rows.len() {
                return Err(CandleReplayError::Index(ReplayIndexError::Index));
            }
            list.push(rows[index]);
            i += 1;
        }
        assert(list@ =~= indices@.map_values(|index: usize| self.rows()->Some_0[index as int]));
        Ok(list)
    }

    /// The rewards of all physical slots.
    pub fn rewards(&self) -> (result: Result<Vec<V>, CandleReplayError>)
        ensures
            match result {
                Err(error) => error == CandleReplayError::MissingStorage && self.rows() is None,
                Ok(list) => self.rows() is Some && list@ == self.rows()->Some_0.map_values(
                    |row: ReplayRow<V>| row.reward,
                ),
            },
    {
        let rows = match &self.rows {
            Some(rows) => rows,
            None => return Err(CandleReplayError::MissingStorage),
        };
        let mut list: Vec<V> = Vec::new();
        let mut i: usize = 0;
        while i < rows.len()
            invariant
                i <= rows@.len(),
                list@.len() == i,
                forall|j: int| 0 <= j < i ==> list@[j] == rows@[j].reward,
            decreases rows@.len() - i,
        {
            list.push(rows[i].reward);
            i += 1;
        }
        assert(list@ =~= self.rows()->Some_0.map_values(|row: ReplayRow<V>| row.reward));
        Ok(list)
    }

    /// Whether an episode ended at each physical slot.
    pub fn end_flags(&self) -> (result: Result<Vec<bool>, CandleReplayError>)
        ensures
            match result {
                Err(error) => error == CandleReplayError::MissingStorage && self.rows() is None,
                Ok(list) => self.rows() is Some && list@ == self.rows()->Some_0.map_values(
                    |row: ReplayRow<V>| row.terminated || row.truncated,
                ),
            },
    {
        let rows = match &self.rows {
            Some(rows) => rows,
            None => return Err(CandleReplayError::MissingStorage),
        };
        let mut list: Vec<bool> = Vec::new();
        let mut i: usize = 0;
        while i < rows.len()
            invariant
                i <= rows@.len(),
                list@.len() == i,
                forall|j: int| 0 <= j < i ==> list@[j] == (rows@[j].terminated || rows@[j].truncated),
            decreases rows@.len() - i,
        {
            list.push(rows[i].terminated || rows[i].truncated);
            i += 1;
        }
        assert(list@ =~= self.rows()->Some_0.map_values(|row: ReplayRow<V>| row.terminated || row.truncated));
        Ok(list)
    }

    /// Whether a value may be bootstrapped from each position: it did not terminate there.
    pub fn bootstrap_mask(&self, indices: &[usize]) -> (result: Result<Vec<bool>, CandleReplayError>)
        ensures
            match result {
                Err(CandleReplayError::MissingStorage) => self.rows() is None,
                Err(CandleReplayError::Index(error)) => error == ReplayIndexError::Index && self.rows() is Some
                    && outside(indices@, self.rows()->Some_0.len()),
                Err(_) => false,
                Ok(list) => self.rows() is Some && !outside(indices@, self.rows()->Some_0.len()) && list@
                    == indices@.map_values(|index: usize| !self.rows()->Some_0[index as int].terminated),
            },
    {
        let rows = match self.get(indices) {
            Ok(rows) => rows,
            Err(error) => return Err(error),
        };
        let mut list: Vec<bool> = Vec::new();
        let mut i: usize = 0;
        while i < rows.len()
            invariant
                i <= rows@.len(),
                list@.len() == i,
                forall|j: int| 0 <= j < i ==> list@[j] == !rows@[j].terminated,
            decreases rows@.len() - i,
        {
            list.push(!rows[i].terminated);
            i += 1;
        }
        assert(list@ =~= indices@.map_values(|index: usize| !self.rows()->Some_0[index as int].terminated));
        Ok(list)
    }
}

/// Whether every column has exactly one leading row.
pub open spec fn single_rows(dims: Seq<Vec<usize>>) -> bool {
    forall|i: int| 0 <= i < dims.len() ==> (#[trigger] dims[i])@.len() > 0 && dims[i]@[0] == 1
}

fn are_single_rows(dims: &[Vec<usize>]) -> (result: bool)
    ensures
        result == single_rows(dims@),
{
    let mut i: usize = 0;
    while i < dims.len()
        invariant
            i <= dims@.len(),
            forall|j: int| 0 <= j < i ==> (#[trigger] dims@[j])@.len() > 0 && dims@[j]@[0] == 1,
        decreases dims@.len() - i,
    {
        if dims[i].len() == 0 || dims[i][0] != 1 {
            assert(!(dims@[i as int]@.len() > 0 && dims@[i as int]@[0] == 1));
            return false;
        }
        i += 1;
    }
    true
}

/// Replay of a single stream of transitions.
pub struct CandleReplayBuffer<V> {
    index: ReplayIndex<V>,
    storage: ReplayStorage<V>,
}

impl<V: Number> CandleReplayBuffer<V> {
    /// The ring of positions.
    pub closed spec fn ring(&self) -> ReplayState<V> {
        self.index@
    }

    /// The scalar rows, once they are allocated.
    pub closed spec fn rows(&self) -> Option<Seq<ReplayRow<V>>> {
        self.storage.rows()
    }

    /// The ring is valid, and allocated rows cover it.
    pub open spec fn wf(&self) -> bool {
        &&& self.ring().valid()
        &&& self.rows() matches Some(rows) ==> rows.len() == self.ring().capacity()
    }

    pub fn new(capacity: usize) -> (result: Self)
        requires
            capacity <= usize::MAX / 2,
        ensures
            result.wf(),
            result.rows() is None,
            result.ring() == fresh_ring::<V>(capacity as nat),
    {
        CandleReplayBuffer { index: ReplayIndex::new(capacity), storage: ReplayStorage::new() }
    }

    pub fn index(&self) -> (result: &ReplayIndex<V>)
        ensures
            result@ == self.ring(),
    {
        &self.index
    }

    pub fn storage(&self) -> (result: &ReplayStorage<V>)
        ensures
            result.rows() == self.rows(),
    {
        &self.storage
    }

    pub fn reset(&mut self, keep_statistics: bool)
        requires
            old(self).wf(),
        ensures
            final(self).wf(),
            final(self).ring() == old(self).ring().cleared(keep_statistics),
            final(self).rows() == old(self).rows(),
    {
        self.index.reset(keep_statistics);
    }

    /// Reserves a slot for a transition and allocates rows where none are.
    ///
    /// Columns without exactly one leading row are refused before anything changes; a failure to
    /// reserve a slot keeps what was changed before it.
    pub fn reserve(&mut self, dims: &[Vec<usize>], row: ReplayRow<V>) -> (result: Result<
        ReplayEpisode<V>,
        CandleReplayError,
    >)
        requires
            old(self).wf(),
        ensures
            final(self).wf(),
            ({
                let (ring, outcome) = old(self).ring().advanced(row.reward, row.terminated || row.truncated);
                match result {
                    Err(CandleReplayError::BatchSize) => !single_rows(dims@) && final(self).ring() == old(self).ring()
                        && final(self).rows() == old(self).rows(),
                    Err(CandleReplayError::Index(error)) => single_rows(dims@) && outcome == Err::<ReplayEpisode<V>, _>(
                        error,
                    ) && final(self).ring() == ring && final(self).rows() == old(self).rows(),
                    Err(_) => false,
                    Ok(episode) => {
                        &&& single_rows(dims@)
                        &&& outcome == Ok::<_, ReplayIndexError>(episode)
                        &&& episode.index < final(self).ring().capacity()
                        &&& match old(self).rows() {
                            Some(rows) => final(self).rows() == Some(rows) && final(self).ring() == ring,
                            None => final(self).rows() == Some(
                                Seq::new(ring.capacity(), |i: int| zero_row::<V>()),
                            ) && final(self).ring() == (ReplayState { initialized: true, ..ring }),
                        }
                    },
                }
            }),
    {
        if !are_single_rows(dims) {
            return Err(CandleReplayError::BatchSize);
        }
        let episode = match self.index.advance(row.reward, row.terminated || row.truncated) {
            Ok(episode) => episode,
            Err(error) => return Err(CandleReplayError::Index(error)),
        };
        let capacity: usize = self.index.capacity();
        if self.storage.initialize(capacity) {
            self.index.initialize_done();
        }
        Ok(episode)
    }

    /// Commits the scalars of a reserved slot and its terminal flag.
    pub fn commit(&mut self, index: usize, row: ReplayRow<V>)
        requires
            old(self).wf(),
            old(self).rows() is Some,
            index < old(self).ring().capacity(),
        ensures
            final(self).wf(),
            final(self).rows() == Some(old(self).rows()->Some_0.update(index as int, row)),
            final(self).ring() == (ReplayState {
                done: old(self).ring().done.update(index as int, row.terminated || row.truncated),
                initialized: true,
                ..old(self).ring()
            }),
    {
        self.storage.write(index, row);
        let outcome = self.index.commit_done(index, row.terminated || row.truncated);
        assert(outcome is Ok);
    }
}

/// A position of one child among the positions of all children.
pub open spec fn global_position(id: int, child_capacity: nat, local: int) -> int {
    id * child_capacity + local
}

/// What reserving slots for the first rows of a batch leads to.
pub open spec fn reserved_rows<V: Number>(
    children: Seq<ReplayState<V>>,
    child_capacity: nat,
    ids: Seq<usize>,
    rewards: Seq<V>,
    terminated: Seq<bool>,
    truncated: Seq<bool>,
    count: int,
) -> (Seq<ReplayState<V>>, Result<Seq<ReplayEpisode<V>>, CandleVectorReplayError>)
    decreases count,
{
    if count <= 0 {
        (children, Ok(Seq::empty()))
    } else {
        let row = count - 1;
        let (states, earlier) = reserved_rows(children, child_capacity, ids, rewards, terminated, truncated, row);
        match earlier {
            Err(error) => (states, Err(error)),
            Ok(episodes) => {
                let id = ids[row] as int;
                if id >= states.len() {
                    (states, Err(CandleVectorReplayError::EnvironmentIndex))
                } else if row >= rewards.len() || row >= terminated.len() || row >= truncated.len() {
                    (states, Err(CandleVectorReplayError::BatchSize))
                } else {
                    let (ring, outcome) = states[id].advanced(rewards[row], terminated[row] || truncated[row]);
                    let after = states.update(id, ring);
                    match outcome {
                        Err(error) => (after, Err(CandleVectorReplayError::Index(error))),
                        Ok(episode) => (
                            after,
                            Ok(
                                episodes.push(
                                    ReplayEpisode {
                                        index: global_position(id, child_capacity, episode.index as int) as usize,
                                        reward: episode.reward,
                                        length: episode.length,
                                        start: global_position(id, child_capacity, episode.start as int) as usize,
                                    },
                                ),
                            ),
                        ),
                    }
                }
            },
        }
    }
}

/// Equal-sized child rings over one physical storage.
pub struct CandleVectorReplayBuffer<V> {
    children: Vec<ReplayIndex<V>>,
    child_capacity: usize,
    capacity: usize,
    storage: ReplayStorage<V>,
}

/// The states of several rings.
pub open spec fn rings<V: Number>(children: Seq<ReplayIndex<V>>) -> Seq<ReplayState<V>> {
    children.map_values(|child: ReplayIndex<V>| child@)
}

/// The number of active slots of several rings.
pub open spec fn active_slots<V: Number>(children: Seq<ReplayState<V>>) -> int
    decreases children.len(),
{
    if children.len() == 0 {
        0
    } else {
        active_slots(children.drop_last()) + children.last().size
    }
}

/// Positions of unfinished episodes of the first children, among all positions.
pub open spec fn unfinished_of<V: Number>(children: Seq<ReplayState<V>>, child_capacity: nat, count: int) -> Seq<usize>
    decreases count,
{
    if count <= 0 {
        Seq::empty()
    } else {
        unfinished_of(children, child_capacity, count - 1) + children[count - 1].unfinished().map_values(
            |local: usize| global_position(count - 1, child_capacity, local as int) as usize,
        )
    }
}

/// The contents of the first children, each oldest first, among all positions.
pub open spec fn chronological_of<V: Number>(children: Seq<ReplayState<V>>, child_capacity: nat, count: int) -> Seq<usize>
    decreases count,
{
    if count <= 0 {
        Seq::empty()
    } else {
        chronological_of(children, child_capacity, count - 1) + children[count - 1].chronological().map_values(
            |local: usize| global_position(count - 1, child_capacity, local as int) as usize,
        )
    }
}

proof fn active_slots_bounded<V: Number>(children: Seq<ReplayState<V>>, child_capacity: nat)
    requires
        forall|i: int| 0 <= i < children.len() ==> (#[trigger] children[i]).size <= child_capacity,
    ensures
        0 <= active_slots(children) <= children.len() * child_capacity,
    decreases children.len(),
{
    if children.len() > 0 {
        active_slots_bounded(children.drop_last(), child_capacity);
        assert(children.len() * child_capacity == (children.len() - 1) * child_capacity + child_capacity)
            by (nonlinear_arith)
            requires
                children.len() > 0,
        ;
    }
}

proof fn position_in_range(id: int, child_capacity: nat, children: nat, local: int)
    requires
        0 <= id < children,
        0 <= local < child_capacity || local == 0,
    ensures
        0 <= id * child_capacity,
        global_position(id, child_capacity, local) <= children * child_capacity,
        local < child_capacity ==> global_position(id, child_capacity, local) < children * child_capacity,
{
    assert(0 <= id * child_capacity) by (nonlinear_arith)
        requires
            0 <= id,
    ;
    assert(id * child_capacity + child_capacity <= children * child_capacity) by (nonlinear_arith)
        requires
            id < children,
            0 <= id,
    ;
}

impl<V: Number> CandleVectorReplayBuffer<V> {
    /// The child rings.
    pub closed spec fn rings(&self) -> Seq<ReplayState<V>> {
        rings(self.children@)
    }

    /// The number of slots of every child.
    pub closed spec fn child_slots(&self) -> nat {
        self.child_capacity as nat
    }

    /// The number of slots of all children.
    pub closed spec fn slots(&self) -> nat {
        self.capacity as nat
    }

    /// The scalar rows, once they are allocated.
    pub closed spec fn rows(&self) -> Option<Seq<ReplayRow<V>>> {
        self.storage.rows()
    }

    /// Every child is a valid ring of the same size; together they cover the storage.
    pub open spec fn wf(&self) -> bool {
        &&& self.rings().len() > 0
        &&& self.slots() == self.rings().len() * self.child_slots()
        &&& self.slots() <= usize::MAX
        &&& forall|i: int|
            0 <= i < self.rings().len() ==> (#[trigger] self.rings()[i]).valid() && self.rings()[i].capacity()
                == self.child_slots()
        &&& self.rows() matches Some(rows) ==> rows.len() == self.slots()
        &&& forall|i: int| 0 <= i < self.rings().len() ==> (#[trigger] self.rings()[i]).initialized == (self.rows() is Some)
    }

    /// Rings for several environments. The capacity is rounded up to equally many slots each.
    pub fn new(total_size: usize, environments: usize) -> (result: Result<Self, CandleVectorReplayError>)
        requires
            total_size <= usize::MAX / 2,
        ensures
            match result {
                Err(CandleVectorReplayError::EnvironmentCount) => environments == 0,
                Err(CandleVectorReplayError::CapacityOverflow) => environments > 0 && (total_size + environments - 1)
                    / environments as int * environments > usize::MAX,
                Err(_) => false,
                Ok(buffer) => {
                    &&& environments > 0
                    &&& buffer.wf()
                    &&& buffer.rings().len() == environments
                    &&& buffer.child_slots() == (total_size + environments - 1) / environments as int
                    &&& buffer.rows() is None
                    &&& forall|i: int| 0 <= i < environments ==> (#[trigger] buffer.rings()[i]).size == 0 && !buffer.rings()[i].initialized
                },
            },
    {
        if environments == 0 {
            return Err(CandleVectorReplayError::EnvironmentCount);
        }
        let rest: usize = total_size % environments;
        let whole: usize = total_size / environments;
        let child_capacity: usize = if rest == 0 {
            whole
        } else {
            whole + 1
        };
        proof {
            let t = total_size as int;
            let e = environments as int;
            vstd::arithmetic::div_mod::lemma_fundamental_div_mod(t, e);
            if rest == 0 {
                vstd::arithmetic::div_mod::lemma_fundamental_div_mod_converse(t + e - 1, e, t / e, e - 1);
            } else {
                assert((t / e + 1) * e == e * (t / e) + e) by (nonlinear_arith);
                vstd::arithmetic::div_mod::lemma_fundamental_div_mod_converse(t + e - 1, e, t / e + 1, t % e - 1);
            }
            assert(child_capacity == (t + e - 1) / e);
            assert(t / e <= t) by (nonlinear_arith)
                requires
                    t >= 0,
                    e > 0,
            ;
            if rest > 0 && e == 1 {
                assert(false);
            }
            if rest > 0 {
                assert(2 * (t / e) <= t) by (nonlinear_arith)
                    requires
                        e >= 2,
                        t >= 0,
                        t == e * (t / e) + t % e,
                        t % e >= 0,
                        t / e >= 0,
                ;
            }
        }
        let capacity: usize = match child_capacity.checked_mul(environments) {
            Some(capacity) => capacity,
            None => return Err(CandleVectorReplayError::CapacityOverflow),
        };
        let mut children: Vec<ReplayIndex<V>> = Vec::new();
        let mut i: usize = 0;
        while i < environments
            invariant
                i <= environments,
                child_capacity <= usize::MAX / 2,
                children@.len() == i,
                forall|j: int|
                    0 <= j < i ==> (#[trigger] children@[j])@.valid() && children@[j]@.capacity() == child_capacity
                        && children@[j]@.size == 0 && !children@[j]@.initialized,
            decreases environments - i,
        {
            children.push(ReplayIndex::new(child_capacity));
            i += 1;
        }
        let buffer = CandleVectorReplayBuffer { children, child_capacity, capacity, storage: ReplayStorage::new() };
        proof {
            assert(buffer.slots() == buffer.rings().len() * buffer.child_slots()) by (nonlinear_arith)
                requires
                    buffer.slots() == child_capacity * environments,
                    buffer.rings().len() == environments,
                    buffer.child_slots() == child_capacity,
            ;
        }
        Ok(buffer)
    }

    pub fn capacity(&self) -> (result: usize)
        ensures
            result == self.slots(),
    {
        self.capacity
    }

    pub fn children(&self) -> (result: &[ReplayIndex<V>])
        ensures
            rings(result@) == self.rings(),
    {
        self.children.as_slice()
    }

    pub fn storage(&self) -> (result: &ReplayStorage<V>)
        ensures
            result.rows() == self.rows(),
    {
        &self.storage
    }

    /// The number of active slots of all children.
    pub fn len(&self) -> (result: usize)
        requires
            self.wf(),
        ensures
            result == active_slots(self.rings()),
    {
        let mut total: usize = 0;
        let mut i: usize = 0;
        let ghost all = self.rings();
        assert(all.take(0) =~= Seq::<ReplayState<V>>::empty());
        while i < self.children.len()
            invariant
                self.wf(),
                all == self.rings(),
                i <= self.children@.len(),
                total == active_slots(all.take(i as int)),
            decreases self.children@.len() - i,
        {
            proof {
                assert(all.take(i + 1).drop_last() =~= all.take(i as int));
                assert(all.take(i + 1).last() == self.children@[i as int]@);
                active_slots_bounded(all.take(i + 1), self.child_slots());
                assert((i + 1) * self.child_slots() <= all.len() * self.child_slots()) by (nonlinear_arith)
                    requires
                        i + 1 <= all.len(),
                ;
            }
            total = total + self.children[i].len();
            i += 1;
        }
        assert(all.take(i as int) =~= all);
        total
    }

    pub fn is_empty(&self) -> (result: bool)
        ensures
            result == (forall|i: int| 0 <= i < self.rings().len() ==> (#[trigger] self.rings()[i]).size == 0),
    {
        let mut i: usize = 0;
        while i < self.children.len()
            invariant
                i <= self.children@.len(),
                forall|j: int| 0 <= j < i ==> (#[trigger] self.rings()[j]).size == 0,
            decreases self.children@.len() - i,
        {
            if !self.children[i].is_empty() {
                assert(self.rings()[i as int].size != 0);
                return false;
            }
            i += 1;
        }
        true
    }

    pub fn reset(&mut self, keep_statistics: bool)
        requires
            old(self).wf(),
        ensures
            final(self).wf(),
            final(self).rows() == old(self).rows(),
            final(self).child_slots() == old(self).child_slots(),
            final(self).rings() == old(self).rings().map_values(
                |ring: ReplayState<V>| ring.cleared(keep_statistics),
            ),
    {
        let ghost before = self.rings();
        let mut i: usize = 0;
        while i < self.children.len()
            invariant
                i <= self.children@.len(),
                before == old(self).rings(),
                old(self).wf(),
                self.children@.len() == before.len(),
                self.child_slots() == old(self).child_slots(),
                self.slots() == old(self).slots(),
                self.rows() == old(self).rows(),
                forall|j: int| 0 <= j < i ==> (#[trigger] self.children@[j])@ == before[j].cleared(keep_statistics),
                forall|j: int| i <= j < before.len() ==> (#[trigger] self.children@[j])@ == before[j],
            decreases self.children@.len() - i,
        {
            self.children[i].reset(keep_statistics);
            i += 1;
        }
        proof {
            assert(self.rings() =~= before.map_values(|ring: ReplayState<V>| ring.cleared(keep_statistics)));
        }
    }

    /// Reserves one slot per row of a batch, in order, and allocates rows where none are.
    ///
    /// Without ids, row by row every child takes part. A failure keeps what was changed before
    /// it. A batch without rows allocates and is then refused.
    pub fn reserve(&mut self, ids: &[usize], rewards: &[V], terminated: &[bool], truncated: &[bool]) -> (result: Result<
        Vec<ReplayEpisode<V>>,
        CandleVectorReplayError,
    >)
        requires
            old(self).wf(),
        ensures
            final(self).wf(),
            final(self).child_slots() == old(self).child_slots(),
            ({
                let (states, outcome) = reserved_rows(
                    old(self).rings(),
                    old(self).child_slots(),
                    ids@,
                    rewards@,
                    terminated@,
                    truncated@,
                    ids@.len() as int,
                );
                match outcome {
                    Err(error) => result == Err::<Vec<ReplayEpisode<V>>, _>(error) && final(self).rings() == states
                        && final(self).rows() == old(self).rows(),
                    Ok(episodes) => {
                        &&& match old(self).rows() {
                            Some(rows) => final(self).rows() == Some(rows) && final(self).rings() == states,
                            None => final(self).rows() == Some(
                                Seq::new(final(self).slots(), |i: int| zero_row::<V>()),
                            ) && final(self).rings() == states.map_values(
                                |ring: ReplayState<V>| ReplayState { initialized: true, ..ring },
                            ),
                        }
                        &&& match result {
                            Ok(list) => ids@.len() > 0 && list@ == episodes && list@.len() == ids@.len() && forall|i: int|
                                0 <= i < list@.len() ==> (#[trigger] list@[i]).index < final(self).slots(),
                            Err(error) => ids@.len() == 0 && error == CandleVectorReplayError::EmptyIndices,
                        }
                    },
                }
            }),
    {
        let ghost start = self.rings();
        let mut episodes: Vec<ReplayEpisode<V>> = Vec::new();
        let mut row: usize = 0;
        while row < ids.len()
            invariant
                row <= ids@.len(),
                start == old(self).rings(),
                old(self).wf(),
                self.wf(),
                self.child_slots() == old(self).child_slots(),
                self.rings().len() == start.len(),
                self.rows() == old(self).rows(),
                episodes@.len() == row,
                forall|i: int| 0 <= i < episodes@.len() ==> (#[trigger] episodes@[i]).index < self.slots(),
                reserved_rows(start, self.child_slots(), ids@, rewards@, terminated@, truncated@, row as int) == (
                    self.rings(),
                    Ok::<_, CandleVectorReplayError>(episodes@),
                ),
            decreases ids@.len() - row,
        {
            let id: usize = ids[row];
            let ghost here = reserved_rows(
                start,
                self.child_slots(),
                ids@,
                rewards@,
                terminated@,
                truncated@,
                row + 1,
            );
            if id >= self.children.len() {
                proof {
                    assert(here == (self.rings(), Err::<Seq<ReplayEpisode<V>>, _>(CandleVectorReplayError::EnvironmentIndex)));
                    first_failure_stays(
                        start,
                        self.child_slots(),
                        ids@,
                        rewards@,
                        terminated@,
                        truncated@,
                        row + 1,
                        ids@.len() as int,
                    );
                }
                return Err(CandleVectorReplayError::EnvironmentIndex);
            }
            if row >= rewards.len() || row >= terminated.len() || row >= truncated.len() {
                proof {
                    assert(here == (self.rings(), Err::<Seq<ReplayEpisode<V>>, _>(CandleVectorReplayError::BatchSize)));
                    first_failure_stays(
                        start,
                        self.child_slots(),
                        ids@,
                        rewards@,
                        terminated@,
                        truncated@,
                        row + 1,
                        ids@.len() as int,
                    );
                }
                return Err(CandleVectorReplayError::BatchSize);
            }
            let ghost before = self.rings();
            assert(before[id as int] == self.children@[id as int]@);
            let outcome = self.children[id].advance(rewards[row], terminated[row] || truncated[row]);
            proof {
                assert(self.rings() =~= before.update(id as int, self.children@[id as int]@));
                assert forall|i: int| 0 <= i < self.rings().len() implies (#[trigger] self.rings()[i]).valid()
                    && self.rings()[i].capacity() == self.child_slots() && self.rings()[i].initialized == (
                self.rows() is Some) by {
                    assert(before[i].valid());
                }
            }
            match outcome {
                Err(error) => {
                    proof {
                        assert(here == (self.rings(), Err::<Seq<ReplayEpisode<V>>, _>(CandleVectorReplayError::Index(error))));
                        first_failure_stays(
                            start,
                            self.child_slots(),
                            ids@,
                            rewards@,
                            terminated@,
                            truncated@,
                            row + 1,
                            ids@.len() as int,
                        );
                    }
                    return Err(CandleVectorReplayError::Index(error));
                },
                Ok(episode) => {
                    proof {
                        position_in_range(
                            id as int,
                            self.child_slots(),
                            self.rings().len(),
                            episode.index as int,
                        );
                        position_in_range(
                            id as int,
                            self.child_slots(),
                            self.rings().len(),
                            episode.start as int,
                        );
                    }
                    let offset: usize = id * self.child_capacity;
                    let placed = ReplayEpisode {
                        index: offset + episode.index,
                        reward: episode.reward,
                        length: episode.length,
                        start: offset + episode.start,
                    };
                    let ghost earlier = episodes@;
                    episodes.push(placed);
                    proof {
                        assert(here.1 == Ok::<_, CandleVectorReplayError>(earlier.push(placed)));
                    }
                },
            }
            row += 1;
        }
        let ghost states = self.rings();
        let capacity: usize = self.capacity;
        if self.storage.initialize(capacity) {
            let mut i: usize = 0;
            while i < self.children.len()
                invariant
                    i <= self.children@.len(),
                    self.children@.len() == states.len(),
                    self.child_slots() == old(self).child_slots(),
                    self.capacity == capacity,
                    self.rows() == Some(Seq::new(capacity as nat, |j: int| zero_row::<V>())),
                    forall|j: int|
                        0 <= j < i ==> (#[trigger] self.children@[j])@ == (ReplayState { initialized: true, ..states[j] }),
                    forall|j: int| i <= j < states.len() ==> (#[trigger] self.children@[j])@ == states[j],
                decreases self.children@.len() - i,
            {
                self.children[i].initialize_done();
                i += 1;
            }
            proof {
                let marked = states.map_values(|ring: ReplayState<V>| ReplayState { initialized: true, ..ring });
                assert(self.rings() =~= marked);
                assert forall|j: int| 0 <= j < self.rings().len() implies (#[trigger] self.rings()[j]).valid()
                    && self.rings()[j].capacity() == self.child_slots() && self.rings()[j].initialized by {
                    assert(states[j].valid());
                }
            }
        }
        if ids.len() == 0 {
            return Err(CandleVectorReplayError::EmptyIndices);
        }
        Ok(episodes)
    }

    /// Commits the scalars of reserved slots and then the terminal flag of each.
    ///
    /// Rows that do not match the slots are refused before anything changes. Where a slot occurs
    /// several times, the last row wins.
    pub fn commit(
        &mut self,
        ids: &[usize],
        episodes: &[ReplayEpisode<V>],
        rewards: &[V],
        terminated: &[bool],
        truncated: &[bool],
    ) -> (result: Result<(), CandleVectorReplayError>)
        requires
            old(self).wf(),
            old(self).rows() is Some,
            ids@.len() == episodes@.len(),
            forall|i: int| 0 <= i < ids@.len() ==> placed_in(
                #[trigger] ids@[i],
                episodes@[i].index,
                old(self).child_slots(),
                old(self).rings().len(),
            ),
        ensures
            final(self).wf(),
            final(self).child_slots() == old(self).child_slots(),
            match result {
                Err(error) => {
                    &&& error == CandleVectorReplayError::BatchSize
                    &&& rewards@.len() != ids@.len() || terminated@.len() != ids@.len() || truncated@.len() != ids@.len()
                    &&& final(self).rows() == old(self).rows()
                    &&& final(self).rings() == old(self).rings()
                },
                Ok(_) => {
                    &&& rewards@.len() == ids@.len() && terminated@.len() == ids@.len() && truncated@.len() == ids@.len()
                    &&& final(self).rows() == Some(
                        written_rows(
                            old(self).rows()->Some_0,
                            episodes@,
                            rewards@,
                            terminated@,
                            truncated@,
                            ids@.len() as int,
                        ),
                    )
                    &&& final(self).rings() == flagged_rings(
                        old(self).rings(),
                        old(self).child_slots(),
                        ids@,
                        episodes@,
                        final(self).rows()->Some_0,
                        ids@.len() as int,
                    )
                },
            },
    {
        if rewards.len() != episodes.len() || terminated.len() != episodes.len() || truncated.len() != episodes.len() {
            return Err(CandleVectorReplayError::BatchSize);
        }
        let ghost start = self.rows()->Some_0;
        let mut row: usize = 0;
        while row < episodes.len()
            invariant
                row <= episodes@.len(),
                old(self).wf(),
                old(self).rows() == Some(start),
                ids@.len() == episodes@.len(),
                rewards@.len() == ids@.len(),
                terminated@.len() == ids@.len(),
                truncated@.len() == ids@.len(),
                self.rings() == old(self).rings(),
                self.child_slots() == old(self).child_slots(),
                self.slots() == old(self).slots(),
                self.rows() == Some(written_rows(start, episodes@, rewards@, terminated@, truncated@, row as int)),
                self.rows()->Some_0.len() == self.slots(),
                forall|i: int| 0 <= i < ids@.len() ==> placed_in(
                    #[trigger] ids@[i],
                    episodes@[i].index,
                    old(self).child_slots(),
                    old(self).rings().len(),
                ),
            decreases episodes@.len() - row,
        {
            let index: usize = episodes[row].index;
            proof {
                assert(placed_in(ids@[row as int], index, old(self).child_slots(), old(self).rings().len()));
                position_in_range(
                    ids@[row as int] as int,
                    old(self).child_slots(),
                    old(self).rings().len(),
                    index - ids@[row as int] * old(self).child_slots(),
                );
            }
            self.storage.write(
                index,
                ReplayRow { reward: rewards[row], terminated: terminated[row], truncated: truncated[row] },
            );
            row += 1;
        }
        let ghost rows = self.rows()->Some_0;
        let ghost before = self.rings();
        let mut k: usize = 0;
        while k < episodes.len()
            invariant
                k <= episodes@.len(),
                old(self).wf(),
                self.wf(),
                self.rows() == Some(rows),
                before == old(self).rings(),
                ids@.len() == episodes@.len(),
                self.rings().len() == before.len(),
                self.child_slots() == old(self).child_slots(),
                self.rings() == flagged_rings(before, self.child_slots(), ids@, episodes@, rows, k as int),
                forall|i: int| 0 <= i < ids@.len() ==> placed_in(
                    #[trigger] ids@[i],
                    episodes@[i].index,
                    old(self).child_slots(),
                    old(self).rings().len(),
                ),
            decreases episodes@.len() - k,
        {
            let id: usize = ids[k];
            let index: usize = episodes[k].index;
            proof {
                assert(placed_in(ids@[k as int], index, self.child_slots(), self.rings().len()));
                position_in_range(
                    id as int,
                    self.child_slots(),
                    self.rings().len(),
                    index - id * self.child_slots(),
                );
            }
            let ghost earlier = self.rings();
            let value = self.storage_row(index);
            let local: usize = index - id * self.child_capacity;
            assert(earlier[id as int] == self.children@[id as int]@);
            let outcome = self.children[id].commit_done(local, value.terminated || value.truncated);
            proof {
                assert(earlier[id as int].valid());
                assert(outcome is Ok);
                assert(self.rings() =~= earlier.update(id as int, self.children@[id as int]@));
                assert forall|i: int| 0 <= i < self.rings().len() implies (#[trigger] self.rings()[i]).valid()
                    && self.rings()[i].capacity() == self.child_slots() && self.rings()[i].initialized == (
                self.rows() is Some) by {
                    assert(earlier[i].valid());
                }
            }
            k += 1;
        }
        Ok(())
    }

    fn storage_row(&self, index: usize) -> (result: ReplayRow<V>)
        requires
            self.rows() matches Some(rows) && index < rows.len(),
        ensures
            result == self.rows()->Some_0[index as int],
    {
        match &self.storage.rows {
            Some(rows) => rows[index],
            None => ReplayRow { reward: V::zero(), terminated: false, truncated: false },
        }
    }

    /// The positions of unfinished episodes, child after child.
    pub fn unfinished_indices(&self) -> (result: Result<Vec<usize>, ReplayIndexError>)
        requires
            self.wf(),
        ensures
            match result {
                Err(error) => error == ReplayIndexError::MissingDone && self.rows() is None,
                Ok(list) => self.rows() is Some && list@ == unfinished_of(
                    self.rings(),
                    self.child_slots(),
                    self.rings().len() as int,
                ),
            },
    {
        let mut list: Vec<usize> = Vec::new();
        let mut id: usize = 0;
        let ghost all = self.rings();
        while id < self.children.len()
            invariant
                self.wf(),
                all == self.rings(),
                id <= self.children@.len(),
                id > 0 ==> self.rows() is Some,
                list@ == unfinished_of(all, self.child_slots(), id as int),
            decreases self.children@.len() - id,
        {
            assert(all[id as int] == self.children@[id as int]@);
            assert(all[id as int].valid());
            let found = match self.children[id].unfinished_indices() {
                Ok(found) => found,
                Err(error) => return Err(error),
            };
            let ghost before = list@;
            let mut k: usize = 0;
            assert(list@ =~= before + found@.take(0).map_values(
                |local: usize| global_position(id as int, self.child_slots(), local as int) as usize,
            ));
            while k < found.len()
                invariant
                    self.wf(),
                    all == self.rings(),
                    id < self.children@.len(),
                    k <= found@.len(),
                    found@ == all[id as int].unfinished(),
                    list@ == before + found@.take(k as int).map_values(
                        |local: usize| global_position(id as int, self.child_slots(), local as int) as usize,
                    ),
                decreases found@.len() - k,
            {
                proof {
                    assert(all[id as int].valid());
                    assert(found@[k as int] < all[id as int].size);
                    position_in_range(id as int, self.child_slots(), all.len(), found@[k as int] as int);
                }
                list.push(found[k] + id * self.child_capacity);
                k += 1;
                assert(list@ =~= before + found@.take(k as int).map_values(
                    |local: usize| global_position(id as int, self.child_slots(), local as int) as usize,
                ));
            }
            assert(found@.take(k as int) =~= found@);
            id += 1;
        }
        Ok(list)
    }

    /// Positions before several positions. Positions wrap over the whole capacity, but never
    /// leave their child's episode or ring.
    pub fn previous(&self, indices: &[usize]) -> (result: Result<Vec<usize>, ReplayIndexError>)
        requires
            self.wf(),
        ensures
            navigated(self.rings(), self.child_slots(), self.rows() is Some, indices@, false, result),
    {
        self.navigate(indices, false)
    }

    /// Positions after several positions.
    pub fn next(&self, indices: &[usize]) -> (result: Result<Vec<usize>, ReplayIndexError>)
        requires
            self.wf(),
        ensures
            navigated(self.rings(), self.child_slots(), self.rows() is Some, indices@, true, result),
    {
        self.navigate(indices, true)
    }

    fn navigate(&self, indices: &[usize], forward: bool) -> (result: Result<Vec<usize>, ReplayIndexError>)
        requires
            self.wf(),
        ensures
            navigated(self.rings(), self.child_slots(), self.rows() is Some, indices@, forward, result),
    {
        let ghost all = self.rings();
        assert(all[0] == self.children@[0]@);
        assert(all[0].valid());
        let none: [usize; 0] = [];
        match self.children[0].previous(&none) {
            Ok(_) => {},
            Err(error) => return Err(error),
        }
        let mut list: Vec<usize> = Vec::new();
        let mut i: usize = 0;
        while i < indices.len()
            invariant
                self.wf(),
                all == self.rings(),
                self.rows() is Some,
                i <= indices@.len(),
                list@.len() == i,
                i > 0 ==> self.slots() > 0,
                forall|j: int|
                    0 <= j < i ==> #[trigger] list@[j] == neighbour(all, self.child_slots(), indices@[j], forward),
            decreases indices@.len() - i,
        {
            if self.capacity == 0 {
                return Err(ReplayIndexError::ZeroCapacity);
            }
            let index: usize = indices[i] % self.capacity;
            proof {
                let c = self.child_slots() as int;
                let n = all.len() as int;
                assert(c > 0) by (nonlinear_arith)
                    requires
                        n * c == self.slots(),
                        self.slots() > 0,
                        n > 0,
                        c >= 0,
                ;
                assert(index as int / c < n && index as int / c >= 0 && index as int / c * c <= index) by (nonlinear_arith)
                    requires
                        0 <= index < n * c,
                        c > 0,
                ;
                vstd::arithmetic::div_mod::lemma_fundamental_div_mod(index as int, c);
                vstd::arithmetic::div_mod::lemma_mod_bound(index as int, c);
                assert(c * (index as int / c) == index as int / c * c) by (nonlinear_arith);
            }
            let id: usize = index / self.child_capacity;
            let offset: usize = id * self.child_capacity;
            let local: usize = index - offset;
            assert(all[id as int] == self.children@[id as int]@);
            assert(all[id as int].valid() && all[id as int].capacity() == self.child_slots());
            let one = [local];
            let positions = if forward {
                self.children[id].next(&one)
            } else {
                self.children[id].previous(&one)
            };
            match positions {
                Ok(found) => {
                    proof {
                        assert(found@.len() == 1);
                        assert(one@[0] == local);
                        if all[id as int].size > 0 {
                            vstd::arithmetic::div_mod::lemma_mod_bound(local as int, all[id as int].size as int);
                            vstd::arithmetic::div_mod::lemma_mod_bound((local + 1) as int, all[id as int].size as int);
                            before_stays(all[id as int], local);
                        }
                        assert(found@[0] < self.child_slots());
                        position_in_range(id as int, self.child_slots(), all.len(), found@[0] as int);
                    }
                    list.push(found[0] + offset);
                },
                Err(error) => {
                    assert(one@[0] == local);
                    assert(false);
                    return Err(error);
                },
            }
            i += 1;
        }
        proof {
            assert(list@ =~= indices@.map_values(
                |index: usize| neighbour(all, self.child_slots(), index, forward),
            ));
        }
        Ok(list)
    }

    /// The sizes of all children.
    fn sizes(&self) -> (result: Vec<usize>)
        ensures
            result@ == self.rings().map_values(|ring: ReplayState<V>| ring.size),
    {
        let mut list: Vec<usize> = Vec::new();
        let mut i: usize = 0;
        while i < self.children.len()
            invariant
                i <= self.children@.len(),
                list@.len() == i,
                forall|j: int| 0 <= j < i ==> list@[j] == self.rings()[j].size,
            decreases self.children@.len() - i,
        {
            list.push(self.children[i].len());
            i += 1;
        }
        assert(list@ =~= self.rings().map_values(|ring: ReplayState<V>| ring.size));
        list
    }

    /// Samples positions of all children. A negative size gives none, a zero size gives the
    /// contents of every child oldest first. A positive size draws children in proportion to
    /// their contents and then positions child by child, with replacement.
    pub fn sample_indices(&self, size: i64, rng: &mut StdRng) -> (result: Result<Vec<usize>, ReplayIndexError>)
        requires
            self.wf(),
            size <= usize::MAX,
        ensures
            size <= 0 || active_slots(self.rings()) == 0 ==> *final(rng) == *old(rng),
            result is Ok && size > 0 ==> in_child_order(result->Ok_0@, self.child_slots()),
            match result {
                Err(error) => error == ReplayIndexError::EmptyPopulation && size > 0 && active_slots(self.rings()) == 0,
                Ok(list) => {
                    &&& size < 0 ==> list@.len() == 0
                    &&& size == 0 ==> list@ == chronological_of(
                        self.rings(),
                        self.child_slots(),
                        self.rings().len() as int,
                    )
                    &&& size > 0 ==> active_slots(self.rings()) > 0 && list@.len() == size && forall|i: int|
                        0 <= i < list@.len() ==> is_active(self.rings(), self.child_slots(), #[trigger] list@[i])
                },
            },
    {
        if size < 0 {
            return Ok(Vec::new());
        }
        let sizes = self.sizes();
        proof {
            weights_are_slots(self.rings());
            active_slots_bounded(self.rings(), self.child_slots());
        }
        let counts: Vec<i64> = if size > 0 {
            let mut total: bool = false;
            let mut i: usize = 0;
            while i < sizes.len()
                invariant
                    i <= sizes@.len(),
                    total == (exists|j: int| 0 <= j < i && #[trigger] sizes@[j] > 0),
                decreases sizes@.len() - i,
            {
                if sizes[i] > 0 {
                    total = true;
                }
                i += 1;
            }
            proof {
                some_weight(sizes@);
            }
            if !total {
                return Err(ReplayIndexError::EmptyPopulation);
            }
            let drawn = draw_weighted(rng, &sizes, size as usize);
            child_counts(&drawn, sizes.len())
        } else {
            child_counts(&Vec::new(), sizes.len())
        };
        self.sample_children(size, &counts, rng)
    }

    /// Draws the given number of positions from every child; a child that is given zero draws
    /// contributes nothing to a positive sample and everything to a zero sample.
    fn sample_children(&self, size: i64, counts: &Vec<i64>, rng: &mut StdRng) -> (result: Result<
        Vec<usize>,
        ReplayIndexError,
    >)
        requires
            self.wf(),
            0 <= size <= usize::MAX,
            counts@.len() == self.rings().len(),
            forall|i: int| 0 <= i < counts@.len() ==> 0 <= #[trigger] counts@[i] <= size,
            forall|i: int| 0 <= i < counts@.len() && #[trigger] counts@[i] > 0 ==> self.rings()[i].size > 0,
            total_count(counts@) == size,
        ensures
            size == 0 ==> *final(rng) == *old(rng),
            result is Ok && size > 0 ==> in_child_order(result->Ok_0@, self.child_slots()),
            match result {
                Err(_) => false,
                Ok(list) => {
                    &&& size == 0 ==> list@ == chronological_of(
                        self.rings(),
                        self.child_slots(),
                        self.rings().len() as int,
                    )
                    &&& size > 0 ==> list@.len() == size && forall|i: int|
                        0 <= i < list@.len() ==> is_active(self.rings(), self.child_slots(), #[trigger] list@[i])
                },
            },
    {
        let mut list: Vec<usize> = Vec::new();
        let mut id: usize = 0;
        let ghost all = self.rings();
        assert(counts@.take(0) =~= Seq::<i64>::empty());
        while id < self.children.len()
            invariant
                self.wf(),
                all == self.rings(),
                0 <= size <= usize::MAX,
                id <= self.children@.len(),
                counts@.len() == all.len(),
                forall|i: int| 0 <= i < counts@.len() ==> 0 <= #[trigger] counts@[i] <= size,
                forall|i: int| 0 <= i < counts@.len() && #[trigger] counts@[i] > 0 ==> all[i].size > 0,
                size == 0 ==> *rng == *old(rng),
                size > 0 ==> in_child_order(list@, self.child_slots()),
                size > 0 ==> forall|i: int|
                    0 <= i < list@.len() ==> #[trigger] list@[i] < global_position(id as int, self.child_slots(), 0),
                size == 0 ==> list@ == chronological_of(all, self.child_slots(), id as int),
                size > 0 ==> list@.len() == total_count(counts@.take(id as int)),
                size > 0 ==> forall|i: int|
                    0 <= i < list@.len() ==> is_active(all, self.child_slots(), #[trigger] list@[i]),
            decreases self.children@.len() - id,
        {
            assert(all[id as int] == self.children@[id as int]@);
            assert(all[id as int].valid());
            assert(0 <= counts@[id as int] <= size);
            let asked: i64 = if size > 0 && counts[id] == 0 {
                -1
            } else {
                counts[id]
            };
            let found = match self.children[id].sample_indices(asked, 1, false, rng) {
                Ok(found) => found,
                Err(error) => {
                    assert(false);
                    return Err(error);
                },
            };
            proof {
                chronological_in_range(all[id as int]);
                assert(counts@.take(id + 1).drop_last() =~= counts@.take(id as int));
                assert(counts@.take(id + 1).last() == counts@[id as int]);
            }
            let ghost before = list@;
            let mut k: usize = 0;
            assert(list@ =~= before + found@.take(0).map_values(
                |local: usize| global_position(id as int, self.child_slots(), local as int) as usize,
            ));
            while k < found.len()
                invariant
                    self.wf(),
                    all == self.rings(),
                    id < self.children@.len(),
                    k <= found@.len(),
                    forall|i: int| 0 <= i < found@.len() ==> #[trigger] found@[i] < all[id as int].size,
                    list@ == before + found@.take(k as int).map_values(
                        |local: usize| global_position(id as int, self.child_slots(), local as int) as usize,
                    ),
                decreases found@.len() - k,
            {
                proof {
                    assert(all[id as int].valid());
                    position_in_range(id as int, self.child_slots(), all.len(), found@[k as int] as int);
                }
                list.push(found[k] + id * self.child_capacity);
                k += 1;
                assert(list@ =~= before + found@.take(k as int).map_values(
                    |local: usize| global_position(id as int, self.child_slots(), local as int) as usize,
                ));
            }
            proof {
                assert(found@.take(k as int) =~= found@);
                if size > 0 {
                    assert forall|i: int| 0 <= i < list@.len() implies is_active(
                        all,
                        self.child_slots(),
                        #[trigger] list@[i],
                    ) by {
                        if i >= before.len() {
                            let local = found@[i - before.len()];
                            assert(local < all[id as int].size);
                            position_in_range(id as int, self.child_slots(), all.len(), local as int);
                            assert(global_position(id as int, self.child_slots(), local as int) == list@[i]);
                        } else {
                            assert(list@[i] == before[i]);
                        }
                    }
                    assert(before =~= list@.take(before.len() as int));
                    assert forall|i: int| before.len() <= i < list@.len() implies global_position(
                        id as int,
                        self.child_slots(),
                        0,
                    ) <= #[trigger] list@[i] < global_position(
                        id as int,
                        self.child_slots(),
                        self.child_slots() as int,
                    ) by {
                        let local = found@[i - before.len()];
                        assert(local < all[id as int].size);
                        position_in_range(id as int, self.child_slots(), all.len(), local as int);
                        assert(global_position(id as int, self.child_slots(), local as int) == list@[i]);
                    }
                    child_joins_in_order(before, list@, id as int, self.child_slots());
                }
            }
            id += 1;
        }
        assert(counts@.take(id as int) =~= counts@);
        Ok(list)
    }
}

/// Whether the positions of every child come before those of later children.
pub open spec fn in_child_order(list: Seq<usize>, child_capacity: nat) -> bool {
    forall|i: int, j: int, id: int|
        0 <= i < j < list.len() && #[trigger] list[j] < #[trigger] global_position(id, child_capacity, 0)
            ==> #[trigger] list[i] < global_position(id, child_capacity, 0)
}

proof fn child_joins_in_order(before: Seq<usize>, list: Seq<usize>, id: int, child_capacity: nat)
    requires
        0 <= id,
        in_child_order(before, child_capacity),
        before.len() <= list.len(),
        before == list.take(before.len() as int),
        forall|i: int| 0 <= i < before.len() ==> #[trigger] before[i] < global_position(id, child_capacity, 0),
        forall|i: int|
            before.len() <= i < list.len() ==> global_position(id, child_capacity, 0) <= #[trigger] list[i]
                < global_position(id, child_capacity, child_capacity as int),
    ensures
        in_child_order(list, child_capacity),
        forall|i: int| 0 <= i < list.len() ==> #[trigger] list[i] < global_position(id + 1, child_capacity, 0),
{
    assert((id + 1) * child_capacity == id * child_capacity + child_capacity) by (nonlinear_arith);
    assert forall|i: int| 0 <= i < list.len() implies #[trigger] list[i] < global_position(id + 1, child_capacity, 0) by {
        if i < before.len() {
            assert(list[i] == before[i]);
        }
    }
    assert forall|i: int, j: int, other: int|
        0 <= i < j < list.len() && #[trigger] list[j] < #[trigger] global_position(other, child_capacity, 0) implies #[trigger] list[i]
        < global_position(other, child_capacity, 0) by {
        if j < before.len() {
            assert(list[i] == before[i] && list[j] == before[j]);
        } else {
            assert(other > id) by {
                if other <= id {
                    assert(other * child_capacity <= id * child_capacity) by (nonlinear_arith)
                        requires
                            other <= id,
                    ;
                }
            }
            assert((id + 1) * child_capacity <= other * child_capacity) by (nonlinear_arith)
                requires
                    id + 1 <= other,
            ;
            assert(list[i] < global_position(id + 1, child_capacity, 0));
        }
    }
}

/// Whether a position is an active one of some child.
pub open spec fn is_active<V: Number>(children: Seq<ReplayState<V>>, child_capacity: nat, position: usize) -> bool {
    exists|id: int, local: int|
        0 <= id < children.len() && 0 <= local < children[id].size && position == #[trigger] global_position(
            id,
            child_capacity,
            local,
        )
}

/// Whether a slot lies in the part of the storage that belongs to an environment.
pub open spec fn placed_in(id: usize, index: usize, child_capacity: nat, children: nat) -> bool {
    id < children && id * child_capacity <= index && index - id * child_capacity < child_capacity
}

/// The rows after the first scalars of a batch are written.
pub open spec fn written_rows<V: Number>(
    rows: Seq<ReplayRow<V>>,
    episodes: Seq<ReplayEpisode<V>>,
    rewards: Seq<V>,
    terminated: Seq<bool>,
    truncated: Seq<bool>,
    count: int,
) -> Seq<ReplayRow<V>>
    decreases count,
{
    if count <= 0 {
        rows
    } else {
        written_rows(rows, episodes, rewards, terminated, truncated, count - 1).update(
            episodes[count - 1].index as int,
            ReplayRow {
                reward: rewards[count - 1],
                terminated: terminated[count - 1],
                truncated: truncated[count - 1],
            },
        )
    }
}

/// The rings after the terminal flags of the first slots of a batch are stored.
pub open spec fn flagged_rings<V: Number>(
    children: Seq<ReplayState<V>>,
    child_capacity: nat,
    ids: Seq<usize>,
    episodes: Seq<ReplayEpisode<V>>,
    rows: Seq<ReplayRow<V>>,
    count: int,
) -> Seq<ReplayState<V>>
    decreases count,
{
    if count <= 0 {
        children
    } else {
        let earlier = flagged_rings(children, child_capacity, ids, episodes, rows, count - 1);
        let id = ids[count - 1] as int;
        let index = episodes[count - 1].index as int;
        let row = rows[index];
        earlier.update(
            id,
            ReplayState {
                done: earlier[id].done.update(index - id * child_capacity, row.terminated || row.truncated),
                initialized: true,
                ..earlier[id]
            },
        )
    }
}

/// The neighbour of a position, before or after it.
pub open spec fn neighbour<V: Number>(children: Seq<ReplayState<V>>, child_capacity: nat, position: usize, forward: bool) -> usize {
    let index = position as int % (children.len() * child_capacity) as int;
    let id = index / child_capacity as int;
    let local = (index - id * child_capacity) as usize;
    let found = if forward {
        children[id].after(local)
    } else {
        children[id].before(local)
    };
    global_position(id, child_capacity, found as int) as usize
}

/// What navigating from several positions gives.
pub open spec fn navigated<V: Number>(
    children: Seq<ReplayState<V>>,
    child_capacity: nat,
    allocated: bool,
    indices: Seq<usize>,
    forward: bool,
    result: Result<Vec<usize>, ReplayIndexError>,
) -> bool {
    match result {
        Err(ReplayIndexError::MissingDone) => !allocated,
        Err(ReplayIndexError::ZeroCapacity) => allocated && indices.len() > 0 && children.len() * child_capacity == 0,
        Err(_) => false,
        Ok(list) => allocated && (indices.len() > 0 ==> children.len() * child_capacity > 0) && list@
            == indices.map_values(|index: usize| neighbour(children, child_capacity, index, forward)),
    }
}

proof fn before_stays<V: Number>(ring: ReplayState<V>, index: usize)
    requires
        ring.valid(),
        ring.size > 0,
    ensures
        ring.before(index) < ring.size,
{
    crate::rl_replay_index::before_stays_in_the_episode(ring, index);
}

proof fn chronological_in_range<V: Number>(ring: ReplayState<V>)
    requires
        ring.valid(),
    ensures
        forall|i: int| 0 <= i < ring.chronological().len() ==> #[trigger] ring.chronological()[i] < ring.size,
{
}

proof fn weights_are_slots<V: Number>(children: Seq<ReplayState<V>>)
    ensures
        total_weight(children.map_values(|ring: ReplayState<V>| ring.size)) == active_slots(children),
    decreases children.len(),
{
    let weights = children.map_values(|ring: ReplayState<V>| ring.size);
    if children.len() > 0 {
        weights_are_slots(children.drop_last());
        assert(weights.drop_last() =~= children.drop_last().map_values(|ring: ReplayState<V>| ring.size));
    }
}

proof fn some_weight(weights: Seq<usize>)
    ensures
        total_weight(weights) >= 0,
        total_weight(weights) > 0 <==> exists|i: int| 0 <= i < weights.len() && #[trigger] weights[i] > 0,
    decreases weights.len(),
{
    if weights.len() > 0 {
        let front = weights.drop_last();
        some_weight(front);
        if total_weight(weights) > 0 {
            if weights.last() > 0 {
                assert(weights[weights.len() - 1] > 0);
            } else {
                let i = choose|i: int| 0 <= i < front.len() && #[trigger] front[i] > 0;
                assert(weights[i] > 0);
            }
        }
        if exists|i: int| 0 <= i < weights.len() && #[trigger] weights[i] > 0 {
            let i = choose|i: int| 0 <= i < weights.len() && #[trigger] weights[i] > 0;
            if i < front.len() {
                assert(front[i] > 0);
            }
        }
    }
}

/// The sum of counts.
pub open spec fn total_count(counts: Seq<i64>) -> int
    decreases counts.len(),
{
    if counts.len() == 0 {
        0
    } else {
        total_count(counts.drop_last()) + counts.last()
    }
}

proof fn total_count_update(counts: Seq<i64>, place: int, value: i64)
    requires
        0 <= place < counts.len(),
    ensures
        total_count(counts.update(place, value)) == total_count(counts) - counts[place] + value,
    decreases counts.len(),
{
    let after = counts.update(place, value);
    if place == counts.len() - 1 {
        assert(after.drop_last() =~= counts.drop_last());
    } else {
        total_count_update(counts.drop_last(), place, value);
        assert(after.drop_last() =~= counts.drop_last().update(place, value));
    }
}

proof fn total_count_zero(counts: Seq<i64>)
    requires
        forall|i: int| 0 <= i < counts.len() ==> counts[i] == 0,
    ensures
        total_count(counts) == 0,
    decreases counts.len(),
{
    if counts.len() > 0 {
        total_count_zero(counts.drop_last());
    }
}

/// How often each child was drawn.
pub fn child_counts(drawn: &Vec<usize>, children: usize) -> (result: Vec<i64>)
    requires
        drawn@.len() <= i64::MAX,
        forall|i: int| 0 <= i < drawn@.len() ==> #[trigger] drawn@[i] < children,
    ensures
        result@.len() == children,
        total_count(result@) == drawn@.len(),
        forall|c: int| 0 <= c < children ==> 0 <= #[trigger] result@[c] <= drawn@.len(),
        forall|c: int| 0 <= c < children ==> #[trigger] result@[c] == drawn@.filter(|id: usize| id == c).len(),
        forall|c: int| 0 <= c < children && #[trigger] result@[c] > 0 ==> drawn@.contains(c as usize),
{
    let mut counts: Vec<i64> = Vec::new();
    let mut i: usize = 0;
    while i < children
        invariant
            i <= children,
            counts@.len() == i,
            forall|j: int| 0 <= j < i ==> counts@[j] == 0,
        decreases children - i,
    {
        counts.push(0);
        i += 1;
    }
    proof {
        total_count_zero(counts@);
        reveal(Seq::filter);
    }
    let mut k: usize = 0;
    while k < drawn.len()
        invariant
            k <= drawn@.len(),
            drawn@.len() <= i64::MAX,
            counts@.len() == children,
            forall|j: int| 0 <= j < drawn@.len() ==> #[trigger] drawn@[j] < children,
            total_count(counts@) == k,
            forall|c: int| 0 <= c < children ==> 0 <= #[trigger] counts@[c] <= k,
            forall|c: int| 0 <= c < children ==> #[trigger] counts@[c] == drawn@.take(k as int).filter(
                |id: usize| id == c,
            ).len(),
            forall|c: int| 0 <= c < children && #[trigger] counts@[c] > 0 ==> drawn@.contains(c as usize),
        decreases drawn@.len() - k,
    {
        let id: usize = drawn[k];
        let count: i64 = counts[id];
        let ghost before = counts@;
        assert(0 <= before[id as int] <= k);
        proof {
            total_count_update(counts@, id as int, (count + 1) as i64);
        }
        counts.set(id, count + 1);
        proof {
            assert(drawn@.take(k + 1).drop_last() =~= drawn@.take(k as int));
            assert forall|c: int| 0 <= c < children implies #[trigger] counts@[c] == drawn@.take(k + 1).filter(
                |id: usize| id == c,
            ).len() by {
                reveal(Seq::filter);
                assert(before[c] == drawn@.take(k as int).filter(|id: usize| id == c).len());
            }
            assert forall|c: int| 0 <= c < children && #[trigger] counts@[c] > 0 implies drawn@.contains(
                c as usize,
            ) by {
                if c == id {
                    assert(drawn@[k as int] == c);
                } else {
                    assert(before[c] > 0);
                }
            }
        }
        k += 1;
    }
    assert(drawn@.take(k as int) =~= drawn@);
    counts
}

proof fn first_failure_stays<V: Number>(
    children: Seq<ReplayState<V>>,
    child_capacity: nat,
    ids: Seq<usize>,
    rewards: Seq<V>,
    terminated: Seq<bool>,
    truncated: Seq<bool>,
    count: int,
    later: int,
)
    requires
        0 < count <= later,
        reserved_rows(children, child_capacity, ids, rewards, terminated, truncated, count).1 is Err,
    ensures
        reserved_rows(children, child_capacity, ids, rewards, terminated, truncated, later) == reserved_rows(
            children,
            child_capacity,
            ids,
            rewards,
            terminated,
            truncated,
            count,
        ),
    decreases later,
{
    if count < later {
        first_failure_stays(children, child_capacity, ids, rewards, terminated, truncated, count, later - 1);
    }
}

/// Environments share the slots equally: together they have no fewer than were asked for, and with one
/// fewer each they would have.
pub proof fn slots_are_shared_equally<V: Number>(
    total_size: usize,
    environments: usize,
    result: Result<CandleVectorReplayBuffer<V>, CandleVectorReplayError>,
)
    requires
        call_ensures(CandleVectorReplayBuffer::<V>::new, (total_size, environments), result),
        total_size <= usize::MAX / 2,
        result is Ok,
    ensures
        result->Ok_0.rings().len() == environments,
        result->Ok_0.slots() == environments * result->Ok_0.child_slots(),
        total_size <= environments * result->Ok_0.child_slots(),
        total_size > 0 ==> environments * (result->Ok_0.child_slots() - 1) < total_size,
        total_size == 0 ==> result->Ok_0.slots() == 0,
{
    let (whole, parts) = (total_size + environments - 1, environments as int);
    let each = whole / parts;
    vstd::arithmetic::div_mod::lemma_fundamental_div_mod(whole, parts);
    vstd::arithmetic::div_mod::lemma_mod_bound(whole, parts);
    assert(parts * (each - 1) == parts * each - parts) by (nonlinear_arith);
    if total_size == 0 {
        vstd::arithmetic::div_mod::lemma_basic_div(whole, parts);
        assert(parts * 0 == 0);
    }
}

/// A row that is committed is the row of its slot, and its slot is terminal exactly where the episode
/// was terminated or truncated. The other slots stay as they are.
pub proof fn committed_rows_are_stored<V: Number>(
    buffer: &mut CandleReplayBuffer<V>,
    index: usize,
    row: ReplayRow<V>,
    other: int,
)
    requires
        call_ensures(CandleReplayBuffer::<V>::commit, (buffer, index, row), ()),
        old(buffer).wf(),
        old(buffer).rows() is Some,
        index < old(buffer).ring().capacity(),
        0 <= other < old(buffer).ring().capacity(),
    ensures
        final(buffer).rows() is Some,
        final(buffer).rows()->Some_0[index as int] == row,
        final(buffer).ring().done[index as int] <==> row.terminated || row.truncated,
        other != index ==> final(buffer).rows()->Some_0[other] == old(buffer).rows()->Some_0[other]
            && final(buffer).ring().done[other] == old(buffer).ring().done[other],
        final(buffer).ring().size == old(buffer).ring().size,
        final(buffer).ring().index == old(buffer).ring().index,
{
}

/// A step that is reserved is counted with its reward, ends its episode where it is terminated or
/// truncated, and takes the next slot.
pub proof fn reserved_steps_take_the_next_slot<V: Number>(
    buffer: &mut CandleReplayBuffer<V>,
    dims: &[Vec<usize>],
    row: ReplayRow<V>,
    result: Result<ReplayEpisode<V>, CandleReplayError>,
)
    requires
        call_ensures(CandleReplayBuffer::<V>::reserve, (buffer, dims, row), result),
        old(buffer).wf(),
    ensures
        result is Ok ==> result->Ok_0.index == old(buffer).ring().index && final(buffer).ring().last == old(
            buffer,
        ).ring().index && final(buffer).rows() is Some,
        result is Ok && (row.terminated || row.truncated) ==> result->Ok_0.length == old(buffer).ring().episode_length + 1
            && final(buffer).ring().episode_length == 0,
        result is Ok && !row.terminated && !row.truncated ==> result->Ok_0.length == 0
            && final(buffer).ring().episode_length == old(buffer).ring().episode_length + 1,
        (exists|i: int| 0 <= i < dims@.len() && ((#[trigger] dims@[i])@.len() == 0 || dims@[i]@[0] != 1)) ==> result
            == Err::<ReplayEpisode<V>, CandleReplayError>(CandleReplayError::BatchSize) && final(buffer).ring() == old(
            buffer,
        ).ring(),
{
}

/// What is said of stored rows: an end is a termination or a truncation, but only a termination takes
/// away what comes behind; a row stands where it was asked for.
pub proof fn only_terminations_mask<V: Number>(
    storage: ReplayStorage<V>,
    indices: &[usize],
    rows: Result<Vec<ReplayRow<V>>, CandleReplayError>,
    ends: Result<Vec<bool>, CandleReplayError>,
    mask: Result<Vec<bool>, CandleReplayError>,
    rewards: Result<Vec<V>, CandleReplayError>,
    place: int,
)
    requires
        call_ensures(ReplayStorage::<V>::get, (&storage, indices), rows),
        call_ensures(ReplayStorage::<V>::end_flags, (&storage,), ends),
        call_ensures(ReplayStorage::<V>::bootstrap_mask, (&storage, indices), mask),
        call_ensures(ReplayStorage::<V>::rewards, (&storage,), rewards),
        rows is Ok,
        0 <= place < indices@.len(),
    ensures
        ends is Ok && mask is Ok && rewards is Ok,
        rows->Ok_0@.len() == indices@.len(),
        ({
            let index = indices@[place] as int;
            let row = rows->Ok_0@[place];
            &&& index < ends->Ok_0@.len() && index < rewards->Ok_0@.len()
            &&& rewards->Ok_0@[index] == row.reward
            &&& ends->Ok_0@[index] <==> row.terminated || row.truncated
            &&& mask->Ok_0@[place] <==> !row.terminated
        }),
{
    let stored = storage.rows()->Some_0;
    let index = indices@[place];
    if index >= stored.len() {
        assert(outside(indices@, stored.len()));
    }
}

/// A batch that is committed is stored slot by slot. Where several of its rows are for one slot, the
/// last of them stays; slots that no row is for stay as they are.
pub proof fn committed_batches_are_stored<V: Number>(
    buffer: &mut CandleVectorReplayBuffer<V>,
    ids: &[usize],
    episodes: &[ReplayEpisode<V>],
    rewards: &[V],
    terminated: &[bool],
    truncated: &[bool],
    result: Result<(), CandleVectorReplayError>,
    place: int,
    other: int,
)
    requires
        call_ensures(
            CandleVectorReplayBuffer::<V>::commit,
            (buffer, ids, episodes, rewards, terminated, truncated),
            result,
        ),
        old(buffer).wf(),
        old(buffer).rows() is Some,
        ids@.len() == episodes@.len(),
        forall|i: int| 0 <= i < ids@.len() ==> placed_in(
            #[trigger] ids@[i],
            episodes@[i].index,
            old(buffer).child_slots(),
            old(buffer).rings().len(),
        ),
        result is Ok,
        0 <= place < ids@.len(),
        0 <= other < old(buffer).slots(),
    ensures
        ({
            let stored = final(buffer).rows()->Some_0;
            let index = episodes@[place].index as int;
            let local = index - ids@[place] * old(buffer).child_slots();
            &&& (forall|later: int| place < later < ids@.len() ==> (#[trigger] episodes@[later]).index != index)
                ==> stored[index].reward == rewards@[place] && stored[index].terminated == terminated@[place]
                && stored[index].truncated == truncated@[place]
            &&& (forall|k: int| 0 <= k < ids@.len() ==> (#[trigger] episodes@[k]).index != other) ==> stored[other] == old(
                buffer,
            ).rows()->Some_0[other]
            &&& final(buffer).rings()[ids@[place] as int].done[local] <==> stored[index].terminated
                || stored[index].truncated
        }),
{
    let before = old(buffer).rows()->Some_0;
    let stored = final(buffer).rows()->Some_0;
    let cap = old(buffer).child_slots();
    assert forall|i: int| 0 <= i < ids@.len() implies (#[trigger] episodes@[i]).index < before.len() by {
        assert(placed_in(ids@[i], episodes@[i].index, cap, old(buffer).rings().len()));
        let (id, children) = (ids@[i] as int, old(buffer).rings().len() as int);
        assert(id * cap + cap <= children * cap) by (nonlinear_arith)
            requires
                id + 1 <= children,
        ;
    }
    last_rows_stay(before, episodes@, rewards@, terminated@, truncated@, ids@.len() as int, place, other);
    flags_follow_rows(old(buffer).rings(), cap, ids@, episodes@, stored, ids@.len() as int, place);
}

proof fn last_rows_stay<V: Number>(
    rows: Seq<ReplayRow<V>>,
    episodes: Seq<ReplayEpisode<V>>,
    rewards: Seq<V>,
    terminated: Seq<bool>,
    truncated: Seq<bool>,
    count: int,
    place: int,
    other: int,
)
    requires
        0 <= place < episodes.len(),
        0 <= count <= episodes.len(),
        0 <= other < rows.len(),
        forall|i: int| 0 <= i < episodes.len() ==> (#[trigger] episodes[i]).index < rows.len(),
    ensures
        ({
            let stored = written_rows(rows, episodes, rewards, terminated, truncated, count);
            let index = episodes[place].index as int;
            &&& stored.len() == rows.len()
            &&& place < count && (forall|later: int| place < later < count ==> (#[trigger] episodes[later]).index != index)
                ==> stored[index].reward == rewards[place] && stored[index].terminated == terminated[place]
                && stored[index].truncated == truncated[place]
            &&& (forall|k: int| 0 <= k < count ==> (#[trigger] episodes[k]).index != other) ==> stored[other] == rows[other]
        }),
    decreases count,
{
    if count > 0 {
        last_rows_stay(rows, episodes, rewards, terminated, truncated, count - 1, place, other);
        let earlier = written_rows(rows, episodes, rewards, terminated, truncated, count - 1);
        assert(episodes[count - 1].index < rows.len());
    }
}

proof fn flags_follow_rows<V: Number>(
    children: Seq<ReplayState<V>>,
    cap: nat,
    ids: Seq<usize>,
    episodes: Seq<ReplayEpisode<V>>,
    rows: Seq<ReplayRow<V>>,
    count: int,
    place: int,
)
    requires
        0 <= count <= ids.len() == episodes.len(),
        0 <= place < ids.len(),
        forall|i: int| 0 <= i < children.len() ==> (#[trigger] children[i]).done.len() == cap,
        forall|i: int| 0 <= i < ids.len() ==> placed_in(#[trigger] ids[i], episodes[i].index, cap, children.len()),
    ensures
        ({
            let after = flagged_rings(children, cap, ids, episodes, rows, count);
            let index = episodes[place].index as int;
            &&& after.len() == children.len()
            &&& forall|i: int| 0 <= i < children.len() ==> (#[trigger] after[i]).done.len() == cap
            &&& place < count ==> (after[ids[place] as int].done[index - ids[place] * cap] <==> rows[index].terminated
                || rows[index].truncated)
        }),
    decreases count,
{
    assert(placed_in(ids[place], episodes[place].index, cap, children.len()));
    if count > 0 {
        flags_follow_rows(children, cap, ids, episodes, rows, count - 1, place);
        let earlier = flagged_rings(children, cap, ids, episodes, rows, count - 1);
        assert(placed_in(ids[count - 1], episodes[count - 1].index, cap, children.len()));
    }
}

/// Every row of a batch takes a slot of its own environment: the next one, where it is the first of the
/// batch for that environment. The slot lies in the environment's own part.
pub proof fn batches_take_the_slots_of_their_environments<V: Number>(
    buffer: &mut CandleVectorReplayBuffer<V>,
    ids: &[usize],
    rewards: &[V],
    terminated: &[bool],
    truncated: &[bool],
    result: Result<Vec<ReplayEpisode<V>>, CandleVectorReplayError>,
    place: int,
)
    requires
        call_ensures(
            CandleVectorReplayBuffer::<V>::reserve,
            (buffer, ids, rewards, terminated, truncated),
            result,
        ),
        old(buffer).wf(),
        result is Ok,
        0 <= place < ids@.len(),
    ensures
        result->Ok_0@.len() == ids@.len(),
        ids@[place] < old(buffer).rings().len(),
        ids@[place] * old(buffer).child_slots() <= result->Ok_0@[place].index < ids@[place] * old(buffer).child_slots() + old(
            buffer,
        ).child_slots(),
        (forall|earlier: int| 0 <= earlier < place ==> #[trigger] ids@[earlier] != ids@[place])
            ==> result->Ok_0@[place].index == ids@[place] * old(buffer).child_slots() + old(
            buffer,
        ).rings()[ids@[place] as int].index,
{
    rows_take_their_slots(
        old(buffer).rings(),
        old(buffer).child_slots(),
        ids@,
        rewards@,
        terminated@,
        truncated@,
        ids@.len() as int,
        place,
        ids@[place] as int,
    );
}

proof fn rows_take_their_slots<V: Number>(
    children: Seq<ReplayState<V>>,
    cap: nat,
    ids: Seq<usize>,
    rewards: Seq<V>,
    terminated: Seq<bool>,
    truncated: Seq<bool>,
    count: int,
    place: int,
    other: int,
)
    requires
        0 <= count <= ids.len(),
        0 <= place < ids.len(),
        children.len() * cap <= usize::MAX,
        forall|i: int| 0 <= i < children.len() ==> (#[trigger] children[i]).valid() && children[i].capacity() == cap,
    ensures
        ({
            let (states, outcome) = reserved_rows(children, cap, ids, rewards, terminated, truncated, count);
            &&& states.len() == children.len()
            &&& forall|i: int| 0 <= i < states.len() ==> (#[trigger] states[i]).valid() && states[i].capacity() == cap
            &&& 0 <= other < children.len() && (forall|k: int| 0 <= k < count ==> #[trigger] ids[k] != other)
                ==> states[other] == children[other]
            &&& outcome is Ok ==> outcome->Ok_0.len() == count
            &&& outcome is Ok && place < count ==> {
                let id = ids[place] as int;
                let index = outcome->Ok_0[place].index as int;
                &&& id < children.len()
                &&& id * cap <= index < id * cap + cap
                &&& (forall|earlier: int| 0 <= earlier < place ==> #[trigger] ids[earlier] != id) ==> index == id * cap
                    + children[id].index
            }
        }),
    decreases count,
{
    if count > 0 {
        let row = count - 1;
        let id = ids[row] as int;
        rows_take_their_slots(children, cap, ids, rewards, terminated, truncated, row, place, other);
        rows_take_their_slots(children, cap, ids, rewards, terminated, truncated, row, place, id);
        let (states, earlier) = reserved_rows(children, cap, ids, rewards, terminated, truncated, row);
        if earlier is Ok && id < states.len() && row < rewards.len() && row < terminated.len() && row < truncated.len() {
            let done = terminated[row] || truncated[row];
            crate::rl_replay_index::advancing_keeps_validity(states[id], rewards[row], done);
            let (ring, outcome) = states[id].advanced(rewards[row], done);
            if outcome is Ok {
                assert(id * cap + cap <= children.len() * cap) by (nonlinear_arith)
                    requires
                        id + 1 <= children.len(),
                ;
            }
        }
    }
}

/// Environments do not mix: the neighbours of an item are those in its own ring.
pub proof fn neighbours_stay_with_their_environment<V: Number>(
    buffer: CandleVectorReplayBuffer<V>,
    indices: &[usize],
    following: Result<Vec<usize>, ReplayIndexError>,
    preceding: Result<Vec<usize>, ReplayIndexError>,
    place: int,
    id: int,
    local: int,
)
    requires
        call_ensures(CandleVectorReplayBuffer::<V>::next, (&buffer, indices), following),
        call_ensures(CandleVectorReplayBuffer::<V>::previous, (&buffer, indices), preceding),
        buffer.wf(),
        following is Ok && preceding is Ok,
        0 <= place < indices@.len(),
        0 <= id < buffer.rings().len(),
        0 <= local < buffer.rings()[id].size,
        indices@[place] == id * buffer.child_slots() + local,
    ensures
        ({
            let ring = buffer.rings()[id];
            let size = ring.size as int;
            let next = following->Ok_0@[place] - id * buffer.child_slots();
            let previous = preceding->Ok_0@[place] - id * buffer.child_slots();
            let slot_before = if local == 0 {
                size - 1
            } else {
                local - 1
            };
            &&& ring.done[local] || local == ring.last ==> next == local
            &&& !ring.done[local] && local != ring.last && local + 1 < size ==> next == local + 1
            &&& !ring.done[local] && local != ring.last && local + 1 == size ==> next == 0
            &&& ring.done[slot_before] || slot_before == ring.last ==> previous == local
            &&& !ring.done[slot_before] && slot_before != ring.last ==> previous == slot_before
        }),
{
    let ring = buffer.rings()[id];
    let size = ring.size as int;
    let cap = buffer.child_slots() as int;
    let children = buffer.rings().len() as int;
    let index = indices@[place] as int;
    assert(ring.valid() && ring.capacity() == cap);
    assert(id * cap + cap <= children * cap) by (nonlinear_arith)
        requires
            id + 1 <= children,
            cap >= 0,
    ;
    assert(id * cap >= 0) by (nonlinear_arith)
        requires
            id >= 0,
            cap >= 0,
    ;
    vstd::arithmetic::div_mod::lemma_small_mod(index as nat, (children * cap) as nat);
    assert(index == cap * id + local) by (nonlinear_arith)
        requires
            index == id * cap + local,
    ;
    vstd::arithmetic::div_mod::lemma_fundamental_div_mod_converse(index, cap, id, local);
    vstd::arithmetic::div_mod::lemma_small_mod(local as nat, size as nat);
    if local + 1 < size {
        vstd::arithmetic::div_mod::lemma_small_mod((local + 1) as nat, size as nat);
    } else {
        vstd::arithmetic::div_mod::lemma_mod_self_0(size);
    }
    if local == 0 {
        vstd::arithmetic::div_mod::lemma_small_mod((size - 1) as nat, size as nat);
        vstd::arithmetic::div_mod::lemma_mod_self_0(size);
    } else {
        vstd::arithmetic::div_mod::lemma_mod_add_multiples_vanish(local - 1, size);
        vstd::arithmetic::div_mod::lemma_small_mod((local - 1) as nat, size as nat);
    }
}

/// A buffer holds what its environments hold: nothing where none of them holds anything, and as many
/// more as one of them holds more.
pub proof fn buffers_hold_what_environments_hold<V: Number>(
    buffer: CandleVectorReplayBuffer<V>,
    beside: CandleVectorReplayBuffer<V>,
    result: usize,
    other: usize,
    id: int,
)
    requires
        call_ensures(CandleVectorReplayBuffer::<V>::len, (&buffer,), result),
        call_ensures(CandleVectorReplayBuffer::<V>::len, (&beside,), other),
        buffer.wf() && beside.wf(),
        0 <= id < buffer.rings().len(),
        beside.rings() == buffer.rings().update(id, beside.rings()[id]),
    ensures
        other - result == beside.rings()[id].size - buffer.rings()[id].size,
        (forall|i: int| 0 <= i < buffer.rings().len() ==> (#[trigger] buffer.rings()[i]).size == 0) ==> result == 0,
{
    sizes_move_the_sum(buffer.rings(), id, beside.rings()[id]);
    empty_rings_hold_nothing(buffer.rings());
}

proof fn sizes_move_the_sum<V: Number>(children: Seq<ReplayState<V>>, id: int, ring: ReplayState<V>)
    requires
        0 <= id < children.len(),
    ensures
        active_slots(children.update(id, ring)) - active_slots(children) == ring.size - children[id].size,
    decreases children.len(),
{
    let after = children.update(id, ring);
    if id == children.len() - 1 {
        assert(after.drop_last() =~= children.drop_last());
    } else {
        sizes_move_the_sum(children.drop_last(), id, ring);
        assert(after.drop_last() =~= children.drop_last().update(id, ring));
    }
}

proof fn empty_rings_hold_nothing<V: Number>(children: Seq<ReplayState<V>>)
    ensures
        (forall|i: int| 0 <= i < children.len() ==> (#[trigger] children[i]).size == 0) ==> active_slots(children) == 0,
    decreases children.len(),
{
    if children.len() > 0 && forall|i: int| 0 <= i < children.len() ==> (#[trigger] children[i]).size == 0 {
        let fewer = children.drop_last();
        empty_rings_hold_nothing(fewer);
        assert(children[children.len() - 1].size == 0);
        assert forall|i: int| 0 <= i < fewer.len() implies (#[trigger] fewer[i]).size == 0 by {
            assert(children[i].size == 0);
        }
    }
}

} // verus!
