//! Batches read from replay buffers: the scalar columns and positions of a rollout.
use crate::number::Number;
use crate::rl_candle_replay::{
    active_slots, chronological_of, global_position, is_active, outside, unfinished_of, CandleReplayBuffer, CandleReplayError,
    CandleVectorReplayBuffer, ReplayRow,
};
use crate::rl_replay_index::{chronological_is_complete, ReplayIndexError, ReplayState};
use rand::rngs::StdRng;
use vstd::prelude::*;

verus! {

/// The scalar columns of a rollout, and the positions it was read from.
#[derive(Debug)]
pub struct ReplayBatch<V> {
    pub rewards: Vec<V>,
    pub terminated: Vec<bool>,
    pub truncated: Vec<bool>,
    /// Whether the value behind a transition counts: the episode was not terminated there.
    pub bootstrap_valid: Vec<bool>,
    pub indices: Vec<usize>,
    pub unfinished_indices: Vec<usize>,
}

/// Whether a batch holds the rows at some positions, in order.
pub open spec fn is_batch<V>(batch: ReplayBatch<V>, rows: Seq<ReplayRow<V>>, indices: Seq<usize>, unfinished: Seq<usize>) -> bool {
    &&& batch.rewards@ == indices.map_values(|index: usize| rows[index as int].reward)
    &&& batch.terminated@ == indices.map_values(|index: usize| rows[index as int].terminated)
    &&& batch.truncated@ == indices.map_values(|index: usize| rows[index as int].truncated)
    &&& batch.bootstrap_valid@ == indices.map_values(|index: usize| !rows[index as int].terminated)
    &&& batch.indices@ == indices
    &&& batch.unfinished_indices@ == unfinished
}

fn make_batch<V: Number>(
    rows: &Vec<ReplayRow<V>>,
    indices: &[usize],
    unfinished: Vec<usize>,
    Ghost(all): Ghost<Seq<ReplayRow<V>>>,
) -> (result: ReplayBatch<V>)
    requires
        rows@ == indices@.map_values(|index: usize| all[index as int]),
    ensures
        is_batch(result, all, indices@, unfinished@),
{
    let mut batch = ReplayBatch {
        rewards: Vec::new(),
        terminated: Vec::new(),
        truncated: Vec::new(),
        bootstrap_valid: Vec::new(),
        indices: Vec::new(),
        unfinished_indices: unfinished,
    };
    let mut i: usize = 0;
    while i < rows.len()
        invariant
            i <= rows@.len(),
            rows@ == indices@.map_values(|index: usize| all[index as int]),
            batch.rewards@ == Seq::new(i as nat, |j: int| rows@[j].reward),
            batch.terminated@ == Seq::new(i as nat, |j: int| rows@[j].terminated),
            batch.truncated@ == Seq::new(i as nat, |j: int| rows@[j].truncated),
            batch.bootstrap_valid@ == Seq::new(i as nat, |j: int| !rows@[j].terminated),
            batch.indices@ == indices@.take(i as int),
            batch.unfinished_indices == unfinished,
        decreases rows@.len() - i,
    {
        let row = rows[i];
        batch.rewards.push(row.reward);
        batch.terminated.push(row.terminated);
        batch.truncated.push(row.truncated);
        batch.bootstrap_valid.push(!row.terminated);
        batch.indices.push(indices[i]);
        i += 1;
        proof {
            assert(batch.rewards@ =~= Seq::new(i as nat, |j: int| rows@[j].reward));
            assert(batch.terminated@ =~= Seq::new(i as nat, |j: int| rows@[j].terminated));
            assert(batch.truncated@ =~= Seq::new(i as nat, |j: int| rows@[j].truncated));
            assert(batch.bootstrap_valid@ =~= Seq::new(i as nat, |j: int| !rows@[j].terminated));
            assert(batch.indices@ =~= indices@.take(i as int));
        }
    }
    proof {
        assert(batch.rewards@ =~= indices@.map_values(|index: usize| all[index as int].reward));
        assert(batch.terminated@ =~= indices@.map_values(|index: usize| all[index as int].terminated));
        assert(batch.truncated@ =~= indices@.map_values(|index: usize| all[index as int].truncated));
        assert(batch.bootstrap_valid@ =~= indices@.map_values(|index: usize| !all[index as int].terminated));
        assert(batch.indices@ =~= indices@);
    }
    batch
}

proof fn position_within(id: int, slots: nat, children: nat, local: int)
    requires
        0 <= id < children,
        0 <= local < slots,
    ensures
        0 <= global_position(id, slots, local) < children * slots,
{
    assert(0 <= id * slots + local < children * slots) by (nonlinear_arith)
        requires
            0 <= id < children,
            0 <= local < slots,
    ;
}

proof fn active_within<V: Number>(children: Seq<ReplayState<V>>, slots: nat, position: usize)
    requires
        forall|i: int| 0 <= i < children.len() ==> (#[trigger] children[i]).size <= slots,
        is_active(children, slots, position),
    ensures
        position < children.len() * slots,
{
    let (id, local) = choose|id: int, local: int|
        0 <= id < children.len() && 0 <= local < children[id].size && position == #[trigger] global_position(
            id,
            slots,
            local,
        );
    position_within(id, slots, children.len(), local);
}

proof fn chronological_within<V: Number>(children: Seq<ReplayState<V>>, slots: nat, count: int)
    requires
        0 <= count <= children.len(),
        children.len() * slots <= usize::MAX,
        forall|i: int| 0 <= i < children.len() ==> (#[trigger] children[i]).valid() && children[i].size <= slots,
    ensures
        forall|i: int|
            0 <= i < chronological_of(children, slots, count).len() ==> #[trigger] chronological_of(children, slots, count)[i]
                < children.len() * slots,
    decreases count,
{
    if count > 0 {
        chronological_within(children, slots, count - 1);
        let ring = children[count - 1];
        chronological_is_complete(ring);
        let earlier = chronological_of(children, slots, count - 1);
        let own = ring.chronological().map_values(|local: usize| global_position(count - 1, slots, local as int) as usize);
        assert forall|i: int| 0 <= i < own.len() implies #[trigger] own[i] < children.len() * slots by {
            position_within(count - 1, slots, children.len(), ring.chronological()[i] as int);
        }
        assert forall|i: int| 0 <= i < (earlier + own).len() implies #[trigger] (earlier + own)[i] < children.len() * slots by {
            if i < earlier.len() {
                assert((earlier + own)[i] == earlier[i]);
            } else {
                assert((earlier + own)[i] == own[i - earlier.len()]);
            }
        }
        assert(chronological_of(children, slots, count) == earlier + own);
    }
}

/// A requested size of a sample as a signed number. It must be one, and fit this machine.
pub fn sample_size(size: u64) -> (result: Result<i64, CandleReplayError>)
    ensures
        if size <= i64::MAX && size <= usize::MAX {
            result == Ok::<i64, CandleReplayError>(size as i64)
        } else {
            result == Err::<i64, CandleReplayError>(CandleReplayError::SampleSize)
        },
{
    if size > i64::MAX as u64 || size > usize::MAX as u64 {
        return Err(CandleReplayError::SampleSize);
    }
    Ok(size as i64)
}

impl<V: Number> CandleReplayBuffer<V> {
    /// The rows at some positions, as often and in the order in which they are given.
    pub fn get(&self, indices: &[usize]) -> (result: Result<ReplayBatch<V>, CandleReplayError>)
        requires
            self.wf(),
        ensures
            match self.rows() {
                None => result == Err::<ReplayBatch<V>, _>(CandleReplayError::MissingStorage),
                Some(rows) => if outside(indices@, rows.len()) {
                    result == Err::<ReplayBatch<V>, _>(CandleReplayError::Index(ReplayIndexError::Index))
                } else if !self.ring().initialized {
                    result == Err::<ReplayBatch<V>, _>(CandleReplayError::Index(ReplayIndexError::MissingDone))
                } else {
                    result matches Ok(batch) && is_batch(batch, rows, indices@, self.ring().unfinished())
                },
            },
    {
        let rows = match self.storage().get(indices) {
            Ok(rows) => rows,
            Err(error) => return Err(error),
        };
        let unfinished = match self.index().unfinished_indices() {
            Ok(unfinished) => unfinished,
            Err(error) => return Err(CandleReplayError::Index(error)),
        };
        Ok(make_batch(&rows, indices, unfinished, Ghost(self.rows()->Some_0)))
    }

    /// A sampled batch. A size of zero reads everything, oldest first.
    pub fn sample_batch(&self, size: i64, rng: &mut StdRng) -> (result: Result<ReplayBatch<V>, CandleReplayError>)
        requires
            self.wf(),
            size <= usize::MAX,
        ensures
            if size > 0 && self.ring().size == 0 {
                result == Err::<ReplayBatch<V>, _>(CandleReplayError::Index(ReplayIndexError::EmptyPopulation))
            } else {
                match result {
                    Ok(batch) => {
                        &&& self.rows() is Some
                        &&& is_batch(batch, self.rows()->Some_0, batch.indices@, self.ring().unfinished())
                        &&& size < 0 ==> batch.indices@.len() == 0
                        &&& size == 0 ==> batch.indices@ == self.ring().available(1, false)
                        &&& size > 0 ==> batch.indices@.len() == size && forall|i: int|
                            0 <= i < batch.indices@.len() ==> #[trigger] batch.indices@[i] < self.ring().size
                    },
                    Err(CandleReplayError::MissingStorage) => self.rows() is None,
                    Err(CandleReplayError::Index(ReplayIndexError::MissingDone)) => self.rows() is Some
                        && !self.ring().initialized,
                    Err(_) => false,
                }
            },
    {
        let indices = match self.index().sample_indices(size, 1, false, rng) {
            Ok(indices) => indices,
            Err(error) => return Err(CandleReplayError::Index(error)),
        };
        proof {
            chronological_is_complete(self.ring());
            assert forall|i: int| 0 <= i < indices@.len() implies #[trigger] indices@[i] < self.ring().size by {
                if size == 0 {
                    assert(indices@[i] == self.ring().chronological()[i]);
                }
            }
            if size > 0 {
                assert(indices@[0] < self.ring().size);
            }
        }
        self.get(indices.as_slice())
    }
}

impl<V: Number> CandleVectorReplayBuffer<V> {
    /// The rows at some positions, as often and in the order in which they are given.
    pub fn get(&self, indices: &[usize]) -> (result: Result<ReplayBatch<V>, CandleReplayError>)
        requires
            self.wf(),
        ensures
            match self.rows() {
                None => result == Err::<ReplayBatch<V>, _>(CandleReplayError::MissingStorage),
                Some(rows) => if outside(indices@, rows.len()) {
                    result == Err::<ReplayBatch<V>, _>(CandleReplayError::Index(ReplayIndexError::Index))
                } else {
                    result matches Ok(batch) && is_batch(
                        batch,
                        rows,
                        indices@,
                        unfinished_of(self.rings(), self.child_slots(), self.rings().len() as int),
                    )
                },
            },
    {
        let rows = match self.storage().get(indices) {
            Ok(rows) => rows,
            Err(error) => return Err(error),
        };
        let unfinished = match self.unfinished_indices() {
            Ok(unfinished) => unfinished,
            Err(error) => return Err(CandleReplayError::Index(error)),
        };
        Ok(make_batch(&rows, indices, unfinished, Ghost(self.rows()->Some_0)))
    }

    /// A sampled batch. A size of zero reads everything, child after child, oldest first.
    pub fn sample_batch(&self, size: i64, rng: &mut StdRng) -> (result: Result<ReplayBatch<V>, CandleReplayError>)
        requires
            self.wf(),
            size <= usize::MAX,
        ensures
            if size > 0 && active_slots(self.rings()) == 0 {
                result == Err::<ReplayBatch<V>, _>(CandleReplayError::Index(ReplayIndexError::EmptyPopulation))
            } else {
                match result {
                    Ok(batch) => {
                        &&& self.rows() is Some
                        &&& is_batch(
                            batch,
                            self.rows()->Some_0,
                            batch.indices@,
                            unfinished_of(self.rings(), self.child_slots(), self.rings().len() as int),
                        )
                        &&& size < 0 ==> batch.indices@.len() == 0
                        &&& size == 0 ==> batch.indices@ == chronological_of(
                            self.rings(),
                            self.child_slots(),
                            self.rings().len() as int,
                        )
                        &&& size > 0 ==> batch.indices@.len() == size && forall|i: int|
                            0 <= i < batch.indices@.len() ==> is_active(
                                self.rings(),
                                self.child_slots(),
                                #[trigger] batch.indices@[i],
                            )
                    },
                    Err(CandleReplayError::MissingStorage) => self.rows() is None,
                    Err(_) => false,
                }
            },
    {
        let indices = match self.sample_indices(size, rng) {
            Ok(indices) => indices,
            Err(error) => return Err(CandleReplayError::Index(error)),
        };
        proof {
            assert forall|i: int| 0 <= i < indices@.len() implies #[trigger] indices@[i] < self.slots() by {
                if size > 0 {
                    active_within(self.rings(), self.child_slots(), indices@[i]);
                } else {
                    chronological_within(self.rings(), self.child_slots(), self.rings().len() as int);
                }
            }
        }
        self.get(indices.as_slice())
    }
}

/// A batch holds the rows of its positions, and what comes behind a transition counts unless the
/// episode was terminated there, also where it was truncated.
pub proof fn batches_hold_their_rows<V: Number>(
    buffer: CandleReplayBuffer<V>,
    indices: &[usize],
    result: Result<ReplayBatch<V>, CandleReplayError>,
    place: int,
)
    requires
        call_ensures(CandleReplayBuffer::<V>::get, (&buffer, indices), result),
        buffer.wf(),
        result is Ok,
        0 <= place < indices@.len(),
    ensures
        ({
            let (batch, row) = (result->Ok_0, buffer.rows()->Some_0[indices@[place] as int]);
            &&& batch.indices@ == indices@
            &&& batch.rewards@[place] == row.reward
            &&& batch.terminated@[place] == row.terminated && batch.truncated@[place] == row.truncated
            &&& batch.bootstrap_valid@[place] <==> !batch.terminated@[place]
        }),
        forall|i: int| 0 <= i < indices@.len() ==> #[trigger] indices@[i] < buffer.rows()->Some_0.len(),
{
    let rows = buffer.rows()->Some_0;
    assert(!outside(indices@, rows.len()));
}

/// A batch of several environments holds the rows of its positions in the same way.
pub proof fn vector_batches_hold_their_rows<V: Number>(
    buffer: CandleVectorReplayBuffer<V>,
    indices: &[usize],
    result: Result<ReplayBatch<V>, CandleReplayError>,
    place: int,
)
    requires
        call_ensures(CandleVectorReplayBuffer::<V>::get, (&buffer, indices), result),
        buffer.wf(),
        result is Ok,
        0 <= place < indices@.len(),
    ensures
        ({
            let (batch, row) = (result->Ok_0, buffer.rows()->Some_0[indices@[place] as int]);
            &&& batch.indices@ == indices@
            &&& batch.rewards@[place] == row.reward
            &&& batch.terminated@[place] == row.terminated && batch.truncated@[place] == row.truncated
            &&& batch.bootstrap_valid@[place] <==> !batch.terminated@[place]
        }),
        forall|i: int| 0 <= i < indices@.len() ==> #[trigger] indices@[i] < buffer.rows()->Some_0.len(),
{
    let rows = buffer.rows()->Some_0;
    assert(!outside(indices@, rows.len()));
}

} // verus!
