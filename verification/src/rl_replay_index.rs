//! Physical positions and episode state of a replay ring.
use rand::rngs::StdRng;
use vstd::prelude::*;

use crate::number::{fits, held, Number, Ticks};
use crate::random::draw_positions;

verus! {

/// Failures of replay positions.
#[derive(Clone, Copy, Debug, PartialEq, Eq, Structural)]
pub enum ReplayIndexError {
    ZeroCapacity,
    /// The done column has not been initialized.
    MissingDone,
    /// A physical index is outside the storage.
    Index,
    /// The stack count is not positive.
    StackCount,
    EmptyPopulation,
    /// The episode length exceeds the native index range.
    EpisodeLength,
}

/// What is said of a failure.
pub open spec fn index_words(error: ReplayIndexError) -> Seq<char> {
    match error {
        ReplayIndexError::ZeroCapacity => "replay capacity is zero"@,
        ReplayIndexError::MissingDone => "replay done storage has not been initialized"@,
        ReplayIndexError::Index => "replay physical index is outside storage"@,
        ReplayIndexError::StackCount => "replay stack count must be positive"@,
        ReplayIndexError::EmptyPopulation => "cannot sample from an empty replay population"@,
        ReplayIndexError::EpisodeLength => "episode length exceeds native index range"@,
    }
}

impl ReplayIndexError {
    /// What is said of the failure.
    pub fn message(self) -> (result: &'static str)
        ensures
            result@ == index_words(self),
    {
        match self {
            ReplayIndexError::ZeroCapacity => "replay capacity is zero",
            ReplayIndexError::MissingDone => "replay done storage has not been initialized",
            ReplayIndexError::Index => "replay physical index is outside storage",
            ReplayIndexError::StackCount => "replay stack count must be positive",
            ReplayIndexError::EmptyPopulation => "cannot sample from an empty replay population",
            ReplayIndexError::EpisodeLength => "episode length exceeds native index range",
        }
    }
}

/// Where one transition went, and what it closed.
#[derive(Clone, Copy, Debug, PartialEq, Eq)]
pub struct ReplayEpisode<V> {
    pub index: usize,
    pub reward: V,
    pub length: usize,
    pub start: usize,
}

/// The state of a replay ring.
#[verifier::ext_equal]
pub struct ReplayState<V> {
    /// The terminal flag of every physical slot.
    pub done: Seq<bool>,
    /// Whether the terminal flags have been allocated.
    pub initialized: bool,
    /// The next slot to write.
    pub index: usize,
    /// The number of active slots.
    pub size: usize,
    /// The slot written last.
    pub last: usize,
    pub episode_reward: V,
    pub episode_length: usize,
    pub episode_start: usize,
}

impl<V: Number> ReplayState<V> {
    /// The number of physical slots.
    pub open spec fn capacity(self) -> nat {
        self.done.len()
    }

    /// Positions lie inside the ring; while it fills, the next slot is the first free one.
    pub open spec fn valid(self) -> bool {
        &&& self.capacity() <= usize::MAX / 2
        &&& self.size <= self.capacity()
        &&& self.index < self.capacity() || self.index == 0
        &&& self.size < self.capacity() ==> self.index == self.size
        &&& self.last < self.capacity() || self.last == 0
        &&& self.size > 0 ==> self.last == if self.index == 0 {
            self.capacity() - 1
        } else {
            self.index - 1
        }
        &&& self.episode_start < self.capacity() || self.episode_start == 0
    }

    /// The state after the positions are cleared; flags stay, statistics stay where asked.
    pub open spec fn cleared(self, keep_statistics: bool) -> ReplayState<V> {
        let empty = ReplayState { index: 0, size: 0, last: 0, ..self };
        if keep_statistics {
            empty
        } else {
            ReplayState { episode_reward: V::zero_spec(), episode_length: 0, episode_start: 0, ..empty }
        }
    }

    /// The slot after the next one, around the ring.
    pub open spec fn following(self) -> usize {
        ((self.index + 1) as int % self.capacity() as int) as usize
    }

    /// What reserving a slot leads to.
    pub open spec fn advanced(self, reward: V, done: bool) -> (ReplayState<V>, Result<ReplayEpisode<V>, ReplayIndexError>) {
        let total = self.episode_reward.plus_spec(reward);
        let placed = ReplayState {
            last: self.index,
            size: if self.size < self.capacity() {
                (self.size + 1) as usize
            } else {
                self.size
            },
            ..self
        };
        if self.capacity() == 0 {
            (placed, Err(ReplayIndexError::ZeroCapacity))
        } else {
            let moved = ReplayState { index: self.following(), episode_reward: total, ..placed };
            if self.episode_length == usize::MAX {
                (moved, Err(ReplayIndexError::EpisodeLength))
            } else if done {
                (
                    ReplayState {
                        episode_reward: V::zero_spec(),
                        episode_length: 0,
                        episode_start: self.following(),
                        ..moved
                    },
                    Ok(
                        ReplayEpisode {
                            index: self.index,
                            reward: total,
                            length: (self.episode_length + 1) as usize,
                            start: self.episode_start,
                        },
                    ),
                )
            } else {
                (
                    ReplayState { episode_length: (self.episode_length + 1) as usize, ..moved },
                    Ok(
                        ReplayEpisode {
                            index: self.index,
                            reward: total.times_spec(V::zero_spec()),
                            length: 0,
                            start: self.episode_start,
                        },
                    ),
                )
            }
        }
    }

    /// The position before another one; it stops at episode starts and at the oldest item.
    pub open spec fn before(self, index: usize) -> usize {
        if self.size == 0 {
            0
        } else {
            let previous = (index as int % self.size as int + self.size - 1) % self.size as int;
            let stop: int = if self.done[previous] || previous == self.last {
                1
            } else {
                0
            };
            ((previous + stop) % self.size as int) as usize
        }
    }

    /// The position after another one; it stops at terminal items and at the newest item.
    pub open spec fn after(self, index: usize) -> usize {
        if self.size == 0 {
            0
        } else {
            let go: int = if self.done[index as int] || index == self.last {
                0
            } else {
                1
            };
            ((index + go) % self.size as int) as usize
        }
    }

    /// The active positions, oldest first.
    pub open spec fn chronological(self) -> Seq<usize> {
        Seq::new(
            if self.index < self.size {
                (self.size - self.index) as nat
            } else {
                0
            },
            |i: int| (self.index + i) as usize,
        ) + Seq::new(self.index as nat, |i: int| i as usize)
    }

    /// A position that many steps before another one.
    pub open spec fn steps_before(self, index: usize, steps: nat) -> usize
        decreases steps,
    {
        if steps == 0 {
            index
        } else {
            self.before(self.steps_before(index, (steps - 1) as nat))
        }
    }

    /// Whether a position has enough items of its own episode before it for a stack of frames.
    pub open spec fn stackable(self, index: usize, stack_count: int) -> bool {
        self.steps_before(index, (stack_count - 2) as nat) != self.before(
            self.steps_before(index, (stack_count - 2) as nat),
        )
    }

    /// The positions that can be sampled as stacks of frames, oldest first.
    pub open spec fn available(self, stack_count: int, sample_available: bool) -> Seq<usize> {
        if stack_count > 1 && sample_available {
            self.chronological().filter(|index: usize| self.stackable(index, stack_count))
        } else {
            self.chronological()
        }
    }
}

/// A ring that holds nothing.
pub open spec fn fresh_ring<V: Number>(capacity: nat) -> ReplayState<V> {
    ReplayState {
        done: Seq::new(capacity, |i: int| false),
        initialized: false,
        index: 0,
        size: 0,
        last: 0,
        episode_reward: V::zero_spec(),
        episode_length: 0,
        episode_start: 0,
    }
}

/// A new ring after steps, each with its reward and whether it ended an episode.
pub open spec fn ring_after<V: Number>(capacity: nat, steps: Seq<(V, bool)>) -> ReplayState<V>
    decreases steps.len(),
{
    if steps.len() == 0 {
        fresh_ring(capacity)
    } else {
        ring_after(capacity, steps.drop_last()).advanced(steps.last().0, steps.last().1).0
    }
}

/// The number of steps behind the last one that ended an episode.
pub open spec fn steps_since_end<V>(steps: Seq<(V, bool)>) -> nat
    decreases steps.len(),
{
    if steps.len() == 0 || steps.last().1 {
        0
    } else {
        steps_since_end(steps.drop_last()) + 1
    }
}

/// Whether no step came to an episode that had as many steps as can be counted.
pub open spec fn episodes_countable<V>(steps: Seq<(V, bool)>) -> bool
    decreases steps.len(),
{
    steps.len() == 0 || (episodes_countable(steps.drop_last()) && steps_since_end(steps.drop_last()) < usize::MAX)
}

/// A ring after any number of steps from a new one: the next slot goes round the ring, and the ring
/// fills up to its capacity and stays full. An episode has the steps since the last end; once one
/// has as many as can be counted, it keeps them for ever.
pub proof fn rings_go_round<V: Number>(capacity: nat, steps: Seq<(V, bool)>)
    requires
        0 < capacity <= usize::MAX / 2,
    ensures
        ring_after(capacity, steps).valid(),
        ring_after(capacity, steps).capacity() == capacity,
        ring_after(capacity, steps).index == steps.len() % capacity,
        ring_after(capacity, steps).size == if steps.len() < capacity {
            steps.len()
        } else {
            capacity
        },
        ring_after(capacity, steps).episode_length == if episodes_countable(steps) {
            steps_since_end(steps)
        } else {
            usize::MAX as nat
        },
        steps.len() > 0 ==> ring_after(capacity, steps).last == (steps.len() - 1) % capacity as int,
    decreases steps.len(),
{
    if steps.len() == 0 {
        vstd::arithmetic::div_mod::lemma_small_mod(0, capacity);
    } else {
        let earlier = steps.drop_last();
        rings_go_round(capacity, earlier);
        let before = ring_after(capacity, earlier);
        advancing_keeps_validity(before, steps.last().0, steps.last().1);
        vstd::arithmetic::div_mod::lemma_add_mod_noop(earlier.len() as int, 1, capacity as int);
        vstd::arithmetic::div_mod::lemma_add_mod_noop(before.index as int, 1, capacity as int);
        vstd::arithmetic::div_mod::lemma_mod_twice(earlier.len() as int, capacity as int);
        vstd::arithmetic::div_mod::lemma_mod_bound((before.index + 1) as int, capacity as int);
    }
}

/// What the last of any number of steps from a new ring gives: the slot before the next one, and
/// the length of the episode that it ended, or none. It fails exactly where an episode has more
/// steps than can be counted.
pub proof fn steps_report_their_slots<V: Number>(capacity: nat, steps: Seq<(V, bool)>)
    requires
        0 < capacity <= usize::MAX / 2,
        0 < steps.len(),
    ensures
        match ring_after(capacity, steps.drop_last()).advanced(steps.last().0, steps.last().1).1 {
            Ok(episode) => episodes_countable(steps) && episode.index == (steps.len() - 1) % capacity as int
                && episode.index == ring_after(capacity, steps).last && episode.length == if steps.last().1 {
                steps_since_end(steps.drop_last()) + 1
            } else {
                0
            },
            Err(error) => !episodes_countable(steps) && error == ReplayIndexError::EpisodeLength,
        },
{
    rings_go_round(capacity, steps.drop_last());
    rings_go_round(capacity, steps);
}

/// Every step keeps the ring's positions inside the ring.
pub proof fn advancing_keeps_validity<V: Number>(state: ReplayState<V>, reward: V, done: bool)
    requires
        state.valid(),
    ensures
        state.advanced(reward, done).0.valid(),
{
    if state.capacity() > 0 {
        if state.index + 1 < state.capacity() {
            vstd::arithmetic::div_mod::lemma_small_mod((state.index + 1) as nat, state.capacity());
        } else {
            assert(state.index + 1 == state.capacity());
            vstd::arithmetic::div_mod::lemma_mod_self_0(state.capacity() as int);
        }
    }
}

/// The slot that a step reserves is the slot that was announced as the next one, and the ring
/// never holds more than its capacity.
pub proof fn advancing_writes_the_next_slot<V: Number>(state: ReplayState<V>, reward: V, done: bool)
    requires
        state.valid(),
        state.capacity() > 0,
        state.episode_length < usize::MAX,
    ensures
        ({
            let (next, result) = state.advanced(reward, done);
            &&& result matches Ok(episode) && episode.index == state.index && episode.start == state.episode_start
            &&& next.last == state.index
            &&& next.size == if state.size < state.capacity() {
                state.size + 1
            } else {
                state.capacity() as int
            }
        }),
{
}

/// A position before another one lies among the active ones, and a position other than the own
/// one is neither terminal nor the newest.
pub proof fn before_stays_in_the_episode<V: Number>(state: ReplayState<V>, index: usize)
    requires
        state.valid(),
        state.size > 0,
    ensures
        state.before(index) < state.size,
        state.before(index) != index % state.size ==> !state.done[state.before(index) as int] && state.before(index)
            != state.last,
{
    let size = state.size as int;
    let local = index as int % size;
    let previous = (local + size - 1) % size;
    if local == 0 {
        vstd::arithmetic::div_mod::lemma_small_mod((size - 1) as nat, size as nat);
        assert(previous == size - 1);
        if state.done[previous] || previous == state.last {
            vstd::arithmetic::div_mod::lemma_mod_self_0(size);
        } else {
            vstd::arithmetic::div_mod::lemma_small_mod(previous as nat, size as nat);
        }
    } else {
        vstd::arithmetic::div_mod::lemma_mod_add_multiples_vanish(local - 1, size);
        vstd::arithmetic::div_mod::lemma_small_mod((local - 1) as nat, size as nat);
        assert(previous == local - 1);
        vstd::arithmetic::div_mod::lemma_small_mod(previous as nat, size as nat);
        vstd::arithmetic::div_mod::lemma_small_mod((previous + 1) as nat, size as nat);
    }
}

/// A terminal item and the newest item have nothing after them; every other active item is
/// followed by an active one.
pub proof fn after_stops_at_ends<V: Number>(state: ReplayState<V>, index: usize)
    requires
        state.valid(),
        index < state.size,
    ensures
        state.after(index) < state.size,
        state.done[index as int] || index == state.last ==> state.after(index) == index,
{
    vstd::arithmetic::div_mod::lemma_small_mod(index as nat, state.size as nat);
    vstd::arithmetic::div_mod::lemma_mod_bound((index + 1) as int, state.size as int);
}

/// The chronological order lists every active position.
pub proof fn chronological_is_complete<V: Number>(state: ReplayState<V>)
    requires
        state.valid(),
    ensures
        state.chronological().len() == state.size,
        forall|i: int| 0 <= i < state.chronological().len() ==> #[trigger] state.chronological()[i] < state.size,
{
}

/// Positions and episode state of a replay ring.
pub struct ReplayIndex<V> {
    done: Vec<bool>,
    initialized: bool,
    index: usize,
    size: usize,
    last: usize,
    episode_reward: V,
    episode_length: usize,
    episode_start: usize,
}

impl<V: Number> View for ReplayIndex<V> {
    type V = ReplayState<V>;

    closed spec fn view(&self) -> ReplayState<V> {
        ReplayState {
            done: self.done@,
            initialized: self.initialized,
            index: self.index,
            size: self.size,
            last: self.last,
            episode_reward: self.episode_reward,
            episode_length: self.episode_length,
            episode_start: self.episode_start,
        }
    }
}

impl<V: Number> ReplayIndex<V> {
    /// An empty ring. No allocation can hold more than half of the address range.
    pub fn new(capacity: usize) -> (result: Self)
        requires
            capacity <= usize::MAX / 2,
        ensures
            result@.valid(),
            result@ == fresh_ring::<V>(capacity as nat),
    {
        let mut done: Vec<bool> = Vec::new();
        let mut i: usize = 0;
        while i < capacity
            invariant
                i <= capacity,
                done@ == Seq::new(i as nat, |j: int| false),
            decreases capacity - i,
        {
            done.push(false);
            i += 1;
            assert(done@ =~= Seq::new(i as nat, |j: int| false));
        }
        ReplayIndex {
            done,
            initialized: false,
            index: 0,
            size: 0,
            last: 0,
            episode_reward: V::zero(),
            episode_length: 0,
            episode_start: 0,
        }
    }

    pub fn capacity(&self) -> (result: usize)
        ensures
            result == self@.capacity(),
    {
        self.done.len()
    }

    pub fn len(&self) -> (result: usize)
        ensures
            result == self@.size,
    {
        self.size
    }

    pub fn is_empty(&self) -> (result: bool)
        ensures
            result == (self@.size == 0),
    {
        self.size == 0
    }

    pub fn next_write_index(&self) -> (result: usize)
        ensures
            result == self@.index,
    {
        self.index
    }

    pub fn last_index(&self) -> (result: usize)
        ensures
            result == self@.last,
    {
        self.last
    }

    /// Marks the terminal flags as allocated.
    pub fn initialize_done(&mut self)
        ensures
            final(self)@ == (ReplayState { initialized: true, ..old(self)@ }),
    {
        self.initialized = true;
    }

    /// Clears the active positions, keeping the allocated flags.
    pub fn reset(&mut self, keep_statistics: bool)
        ensures
            final(self)@ == old(self)@.cleared(keep_statistics),
            old(self)@.valid() ==> final(self)@.valid(),
    {
        self.index = 0;
        self.size = 0;
        self.last = 0;
        if !keep_statistics {
            self.episode_reward = V::zero();
            self.episode_length = 0;
            self.episode_start = 0;
        }
    }

    /// Reserves the next slot, before any data is assigned to it. What was changed before a
    /// failure stays changed.
    pub fn advance(&mut self, reward: V, done: bool) -> (result: Result<ReplayEpisode<V>, ReplayIndexError>)
        requires
            old(self)@.valid(),
        ensures
            final(self)@.valid(),
            (final(self)@, result) == old(self)@.advanced(reward, done),
    {
        proof {
            advancing_keeps_validity(self@, reward, done);
        }
        let index: usize = self.index;
        self.last = index;
        if self.size < self.done.len() {
            self.size = self.size + 1;
        }
        if self.done.len() == 0 {
            return Err(ReplayIndexError::ZeroCapacity);
        }
        self.index = (self.index + 1) % self.done.len();
        self.episode_reward = self.episode_reward.plus(reward);
        if self.episode_length == usize::MAX {
            return Err(ReplayIndexError::EpisodeLength);
        }
        self.episode_length = self.episode_length + 1;
        let start: usize = self.episode_start;
        if done {
            let result = ReplayEpisode { index, reward: self.episode_reward, length: self.episode_length, start };
            self.episode_reward = V::zero();
            self.episode_length = 0;
            self.episode_start = self.index;
            Ok(result)
        } else {
            Ok(ReplayEpisode { index, reward: self.episode_reward.times(V::zero()), length: 0, start })
        }
    }

    /// Stores the terminal flag of a slot.
    pub fn commit_done(&mut self, index: usize, done: bool) -> (result: Result<(), ReplayIndexError>)
        ensures
            old(self)@.valid() ==> final(self)@.valid(),
            match result {
                Ok(_) => index < old(self)@.capacity() && final(self)@ == (ReplayState {
                    done: old(self)@.done.update(index as int, done),
                    initialized: true,
                    ..old(self)@
                }),
                Err(error) => error == ReplayIndexError::Index && index >= old(self)@.capacity() && final(self)@ == old(
                    self,
                )@,
            },
    {
        if index >= self.done.len() {
            return Err(ReplayIndexError::Index);
        }
        self.done.set(index, done);
        self.initialized = true;
        Ok(())
    }

    /// The position of the unfinished episode's newest item, if its episode has not ended.
    pub fn unfinished_indices(&self) -> (result: Result<Vec<usize>, ReplayIndexError>)
        requires
            self@.valid(),
        ensures
            match result {
                Err(error) => error == ReplayIndexError::MissingDone && !self@.initialized,
                Ok(list) => self@.initialized && list@ == self@.unfinished(),
            },
    {
        if !self.initialized {
            return Err(ReplayIndexError::MissingDone);
        }
        let mut list: Vec<usize> = Vec::new();
        if self.size == 0 {
            assert(list@ =~= self@.unfinished());
            return Ok(list);
        }
        let last: usize = (self.index + self.size - 1) % self.size;
        if !self.done[last] {
            list.push(last);
        }
        assert(list@ =~= self@.unfinished());
        Ok(list)
    }

    /// Previous positions of several positions.
    pub fn previous(&self, indices: &[usize]) -> (result: Result<Vec<usize>, ReplayIndexError>)
        requires
            self@.valid(),
        ensures
            match result {
                Err(error) => error == ReplayIndexError::MissingDone && !self@.initialized,
                Ok(list) => self@.initialized && list@ == indices@.map_values(|index: usize| self@.before(index)),
            },
    {
        if !self.initialized {
            return Err(ReplayIndexError::MissingDone);
        }
        let mut list: Vec<usize> = Vec::new();
        let mut i: usize = 0;
        while i < indices.len()
            invariant
                self@.valid(),
                i <= indices@.len(),
                list@.len() == i,
                forall|j: int| 0 <= j < i ==> list@[j] == self@.before(indices@[j]),
            decreases indices@.len() - i,
        {
            list.push(self.before_one(indices[i]));
            i += 1;
        }
        assert(list@ =~= indices@.map_values(|index: usize| self@.before(index)));
        Ok(list)
    }

    fn before_one(&self, index: usize) -> (result: usize)
        requires
            self@.valid(),
        ensures
            result == self@.before(index),
    {
        if self.size == 0 {
            return 0;
        }
        let previous: usize = (index % self.size + self.size - 1) % self.size;
        if self.done[previous] || previous == self.last {
            (previous + 1) % self.size
        } else {
            previous % self.size
        }
    }

    /// Next positions of several positions; a position outside the storage is refused.
    pub fn next(&self, indices: &[usize]) -> (result: Result<Vec<usize>, ReplayIndexError>)
        requires
            self@.valid(),
        ensures
            match result {
                Err(error) => if self@.initialized {
                    error == ReplayIndexError::Index && exists|j: int|
                        0 <= j < indices@.len() && #[trigger] indices@[j] >= self@.capacity()
                } else {
                    error == ReplayIndexError::MissingDone
                },
                Ok(list) => self@.initialized && list@ == indices@.map_values(|index: usize| self@.after(index))
                    && forall|j: int| 0 <= j < indices@.len() ==> #[trigger] indices@[j] < self@.capacity(),
            },
    {
        if !self.initialized {
            return Err(ReplayIndexError::MissingDone);
        }
        let mut list: Vec<usize> = Vec::new();
        let mut i: usize = 0;
        while i < indices.len()
            invariant
                self@.valid(),
                self@.initialized,
                i <= indices@.len(),
                list@.len() == i,
                forall|j: int| 0 <= j < i ==> list@[j] == self@.after(indices@[j]),
                forall|j: int| 0 <= j < i ==> #[trigger] indices@[j] < self@.capacity(),
            decreases indices@.len() - i,
        {
            let index: usize = indices[i];
            if index >= self.done.len() {
                return Err(ReplayIndexError::Index);
            }
            if self.size == 0 {
                list.push(0);
            } else if self.done[index] || index == self.last {
                list.push(index % self.size);
            } else {
                list.push((index + 1) % self.size);
            }
            i += 1;
        }
        assert(list@ =~= indices@.map_values(|index: usize| self@.after(index)));
        Ok(list)
    }

    /// The positions that can be sampled, oldest first.
    fn available(&self, stack_count: usize, sample_available: bool) -> (result: Result<Vec<usize>, ReplayIndexError>)
        requires
            self@.valid(),
            stack_count > 0,
        ensures
            match result {
                Err(error) => error == ReplayIndexError::MissingDone && !self@.initialized && stack_count > 1
                    && sample_available,
                Ok(list) => list@ == self@.available(stack_count as int, sample_available) && !(stack_count > 1
                    && sample_available && !self@.initialized),
            },
    {
        let mut all: Vec<usize> = Vec::new();
        let mut i: usize = self.index;
        let ghost first = if self.index < self.size {
            (self.size - self.index) as nat
        } else {
            0
        };
        while i < self.size
            invariant
                self.index <= i,
                self.index < self.size ==> i <= self.size,
                self.index >= self.size ==> i == self.index,
                all@ == Seq::new((i - self.index) as nat, |j: int| (self.index + j) as usize),
            decreases self.size - i,
        {
            all.push(i);
            i += 1;
            assert(all@ =~= Seq::new((i - self.index) as nat, |j: int| (self.index + j) as usize));
        }
        let ghost front = all@;
        let mut k: usize = 0;
        assert(all@ =~= front + Seq::new(0, |j: int| j as usize));
        while k < self.index
            invariant
                k <= self.index,
                all@ == front + Seq::new(k as nat, |j: int| j as usize),
            decreases self.index - k,
        {
            all.push(k);
            k += 1;
            assert(all@ =~= front + Seq::new(k as nat, |j: int| j as usize));
        }
        assert(all@ =~= self@.chronological());
        if stack_count > 1 && sample_available {
            if !self.initialized {
                return Err(ReplayIndexError::MissingDone);
            }
            let mut kept: Vec<usize> = Vec::new();
            let mut n: usize = 0;
            proof {
                reveal(Seq::filter);
            }
            while n < all.len()
                invariant
                    self@.valid(),
                    stack_count > 1,
                    n <= all@.len(),
                    kept@ == all@.take(n as int).filter(|index: usize| self@.stackable(index, stack_count as int)),
                decreases all@.len() - n,
            {
                let mut previous: usize = all[n];
                let mut step: usize = 0;
                while step < stack_count - 2
                    invariant
                        self@.valid(),
                        stack_count > 1,
                        n < all@.len(),
                        step <= stack_count - 2,
                        previous == self@.steps_before(all@[n as int], step as nat),
                    decreases stack_count - 2 - step,
                {
                    previous = self.before_one(previous);
                    step += 1;
                }
                let before: usize = self.before_one(previous);
                proof {
                    reveal(Seq::filter);
                    assert(all@.take(n + 1).drop_last() =~= all@.take(n as int));
                    assert(all@.take(n + 1).last() == all@[n as int]);
                }
                if previous != before {
                    kept.push(all[n]);
                }
                n += 1;
            }
            assert(all@.take(n as int) =~= all@);
            return Ok(kept);
        }
        Ok(all)
    }

    /// Samples positions. A negative size gives none and a zero size gives all of them, oldest
    /// first; a positive size draws that many with replacement. Nothing is drawn unless the size
    /// is positive.
    pub fn sample_indices(&self, size: i64, stack_count: usize, sample_available: bool, rng: &mut StdRng) -> (result: Result<
        Vec<usize>,
        ReplayIndexError,
    >)
        requires
            self@.valid(),
            size <= usize::MAX,
        ensures
            size <= 0 || stack_count == 0 ==> *final(rng) == *old(rng),
            ({
                let filtered = stack_count > 1 && sample_available;
                let pool = self@.available(stack_count as int, sample_available);
                match result {
                    Err(ReplayIndexError::StackCount) => stack_count == 0,
                    Err(ReplayIndexError::MissingDone) => stack_count > 0 && size >= 0 && filtered && !self@.initialized,
                    Err(ReplayIndexError::EmptyPopulation) => stack_count > 0 && size > 0 && if filtered {
                        self@.initialized && pool.len() == 0
                    } else {
                        self@.size == 0
                    },
                    Err(_) => false,
                    Ok(list) => {
                        &&& stack_count > 0
                        &&& size < 0 ==> list@.len() == 0
                        &&& size >= 0 && filtered ==> self@.initialized
                        &&& size == 0 ==> list@ == pool
                        &&& size > 0 ==> list@.len() == size
                        &&& size > 0 && filtered ==> forall|i: int| 0 <= i < list@.len() ==> pool.contains(#[trigger] list@[i])
                        &&& size > 0 && !filtered ==> forall|i: int| 0 <= i < list@.len() ==> #[trigger] list@[i] < self@.size
                    },
                }
            }),
    {
        if stack_count == 0 {
            return Err(ReplayIndexError::StackCount);
        }
        if size < 0 {
            return Ok(Vec::new());
        }
        if size > 0 && (stack_count == 1 || !sample_available) {
            if self.size == 0 {
                return Err(ReplayIndexError::EmptyPopulation);
            }
            return Ok(draw_positions(rng, self.size, size as usize));
        }
        let all = match self.available(stack_count, sample_available) {
            Ok(all) => all,
            Err(error) => return Err(error),
        };
        if size == 0 {
            return Ok(all);
        }
        if all.len() == 0 {
            return Err(ReplayIndexError::EmptyPopulation);
        }
        let drawn = draw_positions(rng, all.len(), size as usize);
        Ok(select_positions(&all, &drawn))
    }
}

/// The items at drawn places of a population.
pub fn select_positions(population: &Vec<usize>, drawn: &Vec<usize>) -> (result: Vec<usize>)
    requires
        forall|i: int| 0 <= i < drawn@.len() ==> #[trigger] drawn@[i] < population@.len(),
    ensures
        result@ == drawn@.map_values(|place: usize| population@[place as int]),
        forall|i: int| 0 <= i < result@.len() ==> population@.contains(#[trigger] result@[i]),
{
    let mut list: Vec<usize> = Vec::new();
    let mut i: usize = 0;
    while i < drawn.len()
        invariant
            i <= drawn@.len(),
            forall|j: int| 0 <= j < drawn@.len() ==> #[trigger] drawn@[j] < population@.len(),
            list@.len() == i,
            forall|j: int| 0 <= j < i ==> list@[j] == population@[drawn@[j] as int],
        decreases drawn@.len() - i,
    {
        let place: usize = drawn[i];
        list.push(population[place]);
        i += 1;
    }
    assert(list@ =~= drawn@.map_values(|place: usize| population@[place as int]));
    list
}

impl<V: Number> ReplayState<V> {
    /// The position of the unfinished episode's newest item.
    pub open spec fn unfinished(self) -> Seq<usize> {
        if self.size == 0 {
            Seq::empty()
        } else {
            let last = ((self.index + self.size - 1) % self.size as int) as usize;
            if self.done[last as int] {
                Seq::empty()
            } else {
                seq![last]
            }
        }
    }
}

/// Neighbours lie one slot apart. What follows an item is the next slot, around the active ones, unless
/// the item ends its episode or is the newest; what comes before it is the slot before, unless that
/// one ends an episode or is the newest. Otherwise an item is its own neighbour.
pub proof fn neighbours_are_one_apart<V: Number>(
    ring: ReplayIndex<V>,
    indices: &[usize],
    following: Result<Vec<usize>, ReplayIndexError>,
    preceding: Result<Vec<usize>, ReplayIndexError>,
    place: int,
)
    requires
        call_ensures(ReplayIndex::<V>::next, (&ring, indices), following),
        call_ensures(ReplayIndex::<V>::previous, (&ring, indices), preceding),
        following is Ok && preceding is Ok,
        ring@.valid(),
        0 <= place < indices@.len(),
        indices@[place] < ring@.size,
    ensures
        ({
            let (index, size) = (indices@[place] as int, ring@.size as int);
            let next = following->Ok_0@[place] as int;
            let previous = preceding->Ok_0@[place] as int;
            let slot_before = if index == 0 {
                size - 1
            } else {
                index - 1
            };
            &&& ring@.done[index] || index == ring@.last ==> next == index
            &&& !ring@.done[index] && index != ring@.last && index + 1 < size ==> next == index + 1
            &&& !ring@.done[index] && index != ring@.last && index + 1 == size ==> next == 0
            &&& ring@.done[slot_before] || slot_before == ring@.last ==> previous == index
            &&& !ring@.done[slot_before] && slot_before != ring@.last ==> previous == slot_before
        }),
{
    let (index, size) = (indices@[place] as int, ring@.size as int);
    vstd::arithmetic::div_mod::lemma_small_mod(index as nat, size as nat);
    if index + 1 < size {
        vstd::arithmetic::div_mod::lemma_small_mod((index + 1) as nat, size as nat);
    } else {
        vstd::arithmetic::div_mod::lemma_mod_self_0(size);
    }
    if index == 0 {
        vstd::arithmetic::div_mod::lemma_small_mod((size - 1) as nat, size as nat);
        vstd::arithmetic::div_mod::lemma_mod_self_0(size);
    } else {
        vstd::arithmetic::div_mod::lemma_mod_add_multiples_vanish(index - 1, size);
        vstd::arithmetic::div_mod::lemma_small_mod((index - 1) as nat, size as nat);
    }
}

/// Going back undoes going on: what comes before the item behind another one is that other one.
pub proof fn going_back_undoes_going_on<V: Number>(
    ring: ReplayIndex<V>,
    indices: &[usize],
    following: Result<Vec<usize>, ReplayIndexError>,
    onward: &[usize],
    back: Result<Vec<usize>, ReplayIndexError>,
    place: int,
)
    requires
        call_ensures(ReplayIndex::<V>::next, (&ring, indices), following),
        following is Ok && onward@ == following->Ok_0@,
        call_ensures(ReplayIndex::<V>::previous, (&ring, onward), back),
        back is Ok,
        ring@.valid(),
        0 <= place < indices@.len(),
        indices@[place] < ring@.size,
        onward@[place] != indices@[place],
    ensures
        back->Ok_0@[place] == indices@[place],
{
    let (index, size) = (indices@[place] as int, ring@.size as int);
    vstd::arithmetic::div_mod::lemma_small_mod(index as nat, size as nat);
    if index + 1 < size {
        vstd::arithmetic::div_mod::lemma_small_mod((index + 1) as nat, size as nat);
        vstd::arithmetic::div_mod::lemma_mod_add_multiples_vanish(index, size);
    } else {
        vstd::arithmetic::div_mod::lemma_mod_self_0(size);
        vstd::arithmetic::div_mod::lemma_small_mod(0, size as nat);
    }
}

/// A step adds its reward to its episode. At the end the whole reward and length of the episode are
/// told and begin anew; before it nothing is told. The flags of the ring stay as they are.
pub proof fn steps_add_to_their_episode(
    ring: &mut ReplayIndex<Ticks>,
    reward: i64,
    done: bool,
    result: Result<ReplayEpisode<Ticks>, ReplayIndexError>,
    earned: i64,
)
    requires
        call_ensures(ReplayIndex::<Ticks>::advance, (ring, Ticks(Some(reward)), done), result),
        old(ring)@.valid(),
        result is Ok,
        old(ring)@.episode_reward == Ticks(Some(earned)),
        fits(earned + reward),
    ensures
        ({
            let (before, after, told) = (old(ring)@, final(ring)@, result->Ok_0);
            &&& told.index == before.index && told.start == before.episode_start
            &&& after.last == before.index
            &&& after.index == if before.index + 1 < before.capacity() {
                before.index + 1
            } else {
                0
            }
            &&& after.done == before.done && after.initialized == before.initialized
            &&& after.size == if before.size < before.capacity() {
                before.size + 1
            } else {
                before.size as int
            }
            &&& done ==> held(told.reward) == earned + reward && told.length == before.episode_length + 1
            &&& done ==> after.episode_reward == Ticks(Some(0)) && after.episode_length == 0 && after.episode_start
                == after.index
            &&& !done ==> told.reward == Ticks(Some(0)) && told.length == 0
            &&& !done ==> held(after.episode_reward) == earned + reward && after.episode_length == before.episode_length + 1
                && after.episode_start == before.episode_start
        }),
{
    let before = old(ring)@;
    assert(before.capacity() > 0);
    if before.index + 1 < before.capacity() {
        vstd::arithmetic::div_mod::lemma_small_mod((before.index + 1) as nat, before.capacity());
    } else {
        vstd::arithmetic::div_mod::lemma_mod_self_0(before.capacity() as int);
    }
    let total = earned + reward;
    assert(total * 0 == 0) by (nonlinear_arith);
}

/// Only the newest item can be unfinished, and it is unless it ends its episode.
pub proof fn newest_items_are_unfinished<V: Number>(ring: ReplayIndex<V>, result: Result<Vec<usize>, ReplayIndexError>)
    requires
        call_ensures(ReplayIndex::<V>::unfinished_indices, (&ring,), result),
        ring@.valid(),
        result is Ok,
    ensures
        ring@.size == 0 || ring@.done[ring@.last as int] ==> result->Ok_0@.len() == 0,
        ring@.size > 0 && !ring@.done[ring@.last as int] ==> result->Ok_0@ == seq![ring@.last],
{
    let state = ring@;
    if state.size > 0 {
        let size = state.size as int;
        if state.index == 0 {
            vstd::arithmetic::div_mod::lemma_small_mod((size - 1) as nat, size as nat);
        } else {
            vstd::arithmetic::div_mod::lemma_mod_add_multiples_vanish(state.index - 1, size);
            vstd::arithmetic::div_mod::lemma_small_mod((state.index - 1) as nat, size as nat);
        }
    }
}

/// All items come in the order in which they were written: each one slot behind the one before, around
/// the active ones, and the newest last.
pub proof fn items_come_as_they_were_written<V: Number>(
    ring: ReplayIndex<V>,
    stack_count: usize,
    sample_available: bool,
    rng: &mut StdRng,
    result: Result<Vec<usize>, ReplayIndexError>,
    place: int,
)
    requires
        call_ensures(ReplayIndex::<V>::sample_indices, (&ring, 0i64, stack_count, sample_available, rng), result),
        ring@.valid(),
        stack_count == 1 || !sample_available,
        result is Ok,
    ensures
        result->Ok_0@.len() == ring@.size,
        ring@.size > 0 ==> result->Ok_0@.last() == ring@.last,
        0 <= place < ring@.size ==> result->Ok_0@[place] < ring@.size,
        0 < place < ring@.size ==> result->Ok_0@[place] == if result->Ok_0@[place - 1] + 1 < ring@.size {
            result->Ok_0@[place - 1] + 1
        } else {
            0
        },
{
}

/// Once a walk back stops it goes no further.
proof fn stopped_walks_stay<V: Number>(state: ReplayState<V>, index: usize, from: nat, steps: nat)
    requires
        from <= steps,
        state.steps_before(index, from) == state.steps_before(index, from + 1),
    ensures
        state.steps_before(index, steps) == state.steps_before(index, from),
        state.steps_before(index, steps + 1) == state.steps_before(index, from),
    decreases steps - from,
{
    if from < steps {
        stopped_walks_stay(state, index, from, (steps - 1) as nat);
    }
}

/// Items that stacks of frames are taken at have as many items of their own episode before them as the
/// stack needs: no step back from them stops, as far as the stack goes.
pub proof fn stacks_stay_in_their_episode<V: Number>(
    ring: ReplayIndex<V>,
    size: i64,
    stack_count: usize,
    rng: &mut StdRng,
    result: Result<Vec<usize>, ReplayIndexError>,
    place: int,
    step: nat,
)
    requires
        call_ensures(ReplayIndex::<V>::sample_indices, (&ring, size, stack_count, true, rng), result),
        ring@.valid(),
        stack_count > 1,
        size <= usize::MAX,
        result is Ok,
        0 <= place < result->Ok_0@.len(),
        step + 1 < stack_count,
    ensures
        ring@.steps_before(result->Ok_0@[place], step) != ring@.steps_before(result->Ok_0@[place], step + 1),
{
    let state = ring@;
    let index = result->Ok_0@[place];
    let pool = state.available(stack_count as int, true);
    let all = state.chronological();
    assert(pool.contains(index));
    let fits_stack = |position: usize| state.stackable(position, stack_count as int);
    let kept = choose|i: int| 0 <= i < pool.len() && pool[i] == index;
    all.lemma_filter_pred(fits_stack, kept);
    assert(pool == all.filter(fits_stack));
    if state.steps_before(index, step) == state.steps_before(index, step + 1) {
        stopped_walks_stay(state, index, step, (stack_count - 2) as nat);
    }
}

/// Clearing a ring leaves no items. The flags stay, and so does the episode under way where that is
/// asked for; otherwise it begins anew.
pub proof fn cleared_rings_are_empty<V: Number>(ring: &mut ReplayIndex<V>, keep_statistics: bool)
    requires
        call_ensures(ReplayIndex::<V>::reset, (ring, keep_statistics), ()),
    ensures
        final(ring)@.size == 0 && final(ring)@.index == 0 && final(ring)@.last == 0,
        final(ring)@.done == old(ring)@.done && final(ring)@.initialized == old(ring)@.initialized,
        keep_statistics ==> final(ring)@.episode_reward == old(ring)@.episode_reward && final(ring)@.episode_length == old(
            ring,
        )@.episode_length && final(ring)@.episode_start == old(ring)@.episode_start,
        !keep_statistics ==> final(ring)@.episode_reward == V::zero_spec() && final(ring)@.episode_length == 0
            && final(ring)@.episode_start == 0,
{
}

} // verus!
