//! N-step returns over replayed transitions.
use vstd::arithmetic::power::pow;
use vstd::prelude::*;

use crate::number::{held, Number, Ticks};
use crate::rl_candle_network::DType;
use crate::rl_candle_replay::{
    neighbour, outside, replay_words, unfinished_of, CandleReplayBuffer, CandleReplayError, CandleVectorReplayBuffer, ReplayRow,
};
use crate::rl_episodic_return::unit;
use crate::rl_replay_index::{index_words, ReplayIndexError};
use crate::text::sentence;

verus! {

/// Settings of n-step returns.
#[derive(Clone, Copy, Debug)]
pub struct CandleNStepConfig<V> {
    pub gamma: V,
    pub steps: usize,
    pub reward_normalization: bool,
}

/// Failures of n-step returns.
#[derive(Clone, Debug, PartialEq, Eq)]
pub enum CandleNStepError {
    /// Rewards cannot be normalized.
    RewardNormalization,
    /// The horizon is not positive.
    Horizon,
    /// The width of the targets of an empty batch is unknown.
    Empty,
    /// Column lengths or positions do not fit together.
    Metadata,
    /// Targets of a type are not taken.
    Dtype(DType),
    /// The replay failed at a stage, in its own words.
    Adapter { stage: &'static str, message: String },
}

/// A failure of n-step returns, by its contents.
pub enum NStepFailure {
    RewardNormalization,
    Horizon,
    Empty,
    Metadata,
    Dtype(DType),
    Adapter(Seq<char>, Seq<char>),
}

impl View for CandleNStepError {
    type V = NStepFailure;

    open spec fn view(&self) -> NStepFailure {
        match self {
            CandleNStepError::RewardNormalization => NStepFailure::RewardNormalization,
            CandleNStepError::Horizon => NStepFailure::Horizon,
            CandleNStepError::Empty => NStepFailure::Empty,
            CandleNStepError::Metadata => NStepFailure::Metadata,
            CandleNStepError::Dtype(dtype) => NStepFailure::Dtype(*dtype),
            CandleNStepError::Adapter { stage, message } => NStepFailure::Adapter(stage@, message@),
        }
    }
}

/// The name of a type that targets do not have.
pub open spec fn refused_name(dtype: DType) -> Seq<char> {
    match dtype {
        DType::BF16 => "BF16"@,
        DType::F16 => "F16"@,
        _ => "of another kind"@,
    }
}

/// What is said of a failure.
pub open spec fn nstep_words(failure: NStepFailure) -> Seq<char> {
    match failure {
        NStepFailure::RewardNormalization => "reward normalization is unsupported for n-step returns"@,
        NStepFailure::Horizon => "n-step horizon must be positive"@,
        NStepFailure::Empty => "cannot infer the target width for an empty batch"@,
        NStepFailure::Metadata => "invalid n-step metadata shape or physical index"@,
        NStepFailure::Dtype(dtype) => "n-step returns do not support target dtype "@ + refused_name(dtype),
        NStepFailure::Adapter(stage, message) => "n-step "@ + stage + " adapter failed: "@ + message,
    }
}

impl CandleNStepError {
    /// What is said of the failure.
    pub fn message(&self) -> (result: String)
        ensures
            result@ == nstep_words(self@),
    {
        match self {
            CandleNStepError::RewardNormalization => "reward normalization is unsupported for n-step returns".to_owned(),
            CandleNStepError::Horizon => "n-step horizon must be positive".to_owned(),
            CandleNStepError::Empty => "cannot infer the target width for an empty batch".to_owned(),
            CandleNStepError::Metadata => "invalid n-step metadata shape or physical index".to_owned(),
            CandleNStepError::Dtype(dtype) => {
                let name = match dtype {
                    DType::BF16 => "BF16",
                    DType::F16 => "F16",
                    _ => "of another kind",
                };
                sentence("n-step returns do not support target dtype ", name, "", "")
            },
            CandleNStepError::Adapter { stage, message } => sentence(
                "n-step ",
                stage,
                " adapter failed: ",
                message.as_str(),
            ),
        }
    }
}

/// What was read of a replay, by its contents: a list, or a failure in words.
pub type Reading<T> = Result<Seq<T>, Seq<char>>;

/// What was read of a replay, by its contents.
pub open spec fn read_list<T>(result: Result<Vec<T>, String>) -> Reading<T> {
    match result {
        Ok(list) => Ok(list@),
        Err(message) => Err(message@),
    }
}

/// What n-step returns read of a replay. Each reading may fail in words of its own, and no column
/// need go with another.
pub trait CandleNStepReplay<V: Number> {
    /// Whether the replay is in a valid state.
    open spec fn sound(&self) -> bool {
        arbitrary()
    }

    open spec fn rewards_read(&self) -> Reading<V> {
        arbitrary()
    }

    open spec fn next_read(&self, indices: Seq<usize>) -> Reading<usize> {
        arbitrary()
    }

    open spec fn bootstrap_read(&self, indices: Seq<usize>) -> Reading<bool> {
        arbitrary()
    }

    open spec fn ends_read(&self) -> Reading<bool> {
        arbitrary()
    }

    open spec fn unfinished_read(&self) -> Reading<usize> {
        arbitrary()
    }

    /// The rewards of all physical slots.
    fn rewards(&self) -> (result: Result<Vec<V>, String>)
        requires
            self.sound(),
        ensures
            read_list(result) == self.rewards_read(),
    ;

    /// The slots after several slots.
    fn next_indices(&self, indices: &[usize]) -> (result: Result<Vec<usize>, String>)
        requires
            self.sound(),
        ensures
            read_list(result) == self.next_read(indices@),
    ;

    /// Whether a value may be bootstrapped from each slot.
    fn bootstrap_mask(&self, indices: &[usize]) -> (result: Result<Vec<bool>, String>)
        requires
            self.sound(),
        ensures
            read_list(result) == self.bootstrap_read(indices@),
    ;

    /// Whether an episode ended at each physical slot.
    fn end_flags(&self) -> (result: Result<Vec<bool>, String>)
        requires
            self.sound(),
        ensures
            read_list(result) == self.ends_read(),
    ;

    /// The slots of unfinished episodes.
    fn unfinished(&self) -> (result: Result<Vec<usize>, String>)
        requires
            self.sound(),
        ensures
            read_list(result) == self.unfinished_read(),
    ;
}

fn stored<T>(result: Result<Vec<T>, CandleReplayError>) -> (reading: Result<Vec<T>, String>)
    ensures
        read_list(reading) == match result {
            Ok(list) => Ok(list@),
            Err(error) => Err::<Seq<T>, Seq<char>>(replay_words(error)),
        },
{
    match result {
        Ok(list) => Ok(list),
        Err(error) => Err(error.message().to_owned()),
    }
}

fn navigation<T>(result: Result<Vec<T>, ReplayIndexError>) -> (reading: Result<Vec<T>, String>)
    ensures
        read_list(reading) == match result {
            Ok(list) => Ok(list@),
            Err(error) => Err::<Seq<T>, Seq<char>>(index_words(error)),
        },
{
    match result {
        Ok(list) => Ok(list),
        Err(error) => Err(error.message().to_owned()),
    }
}

/// The rewards of stored rows.
pub open spec fn rewards_of<V>(rows: Option<Seq<ReplayRow<V>>>) -> Reading<V> {
    match rows {
        Some(found) => Ok(found.map_values(|row: ReplayRow<V>| row.reward)),
        None => Err(replay_words(CandleReplayError::MissingStorage)),
    }
}

/// Whether an episode ended at each of the stored rows.
pub open spec fn ends_of<V>(rows: Option<Seq<ReplayRow<V>>>) -> Reading<bool> {
    match rows {
        Some(found) => Ok(found.map_values(|row: ReplayRow<V>| row.terminated || row.truncated)),
        None => Err(replay_words(CandleReplayError::MissingStorage)),
    }
}

/// Whether a value may be bootstrapped from some of the stored rows.
pub open spec fn bootstrap_of<V>(rows: Option<Seq<ReplayRow<V>>>, indices: Seq<usize>) -> Reading<bool> {
    match rows {
        Some(found) => if outside(indices, found.len()) {
            Err(index_words(ReplayIndexError::Index))
        } else {
            Ok(indices.map_values(|index: usize| !found[index as int].terminated))
        },
        None => Err(replay_words(CandleReplayError::MissingStorage)),
    }
}

impl<V: Number> CandleNStepReplay<V> for CandleVectorReplayBuffer<V> {
    open spec fn sound(&self) -> bool {
        self.wf()
    }

    open spec fn rewards_read(&self) -> Reading<V> {
        rewards_of(self.rows())
    }

    open spec fn next_read(&self, indices: Seq<usize>) -> Reading<usize> {
        if self.rows() is None {
            Err(index_words(ReplayIndexError::MissingDone))
        } else if indices.len() > 0 && self.rings().len() * self.child_slots() == 0 {
            Err(index_words(ReplayIndexError::ZeroCapacity))
        } else {
            Ok(indices.map_values(|index: usize| neighbour(self.rings(), self.child_slots(), index, true)))
        }
    }

    open spec fn bootstrap_read(&self, indices: Seq<usize>) -> Reading<bool> {
        bootstrap_of(self.rows(), indices)
    }

    open spec fn ends_read(&self) -> Reading<bool> {
        ends_of(self.rows())
    }

    open spec fn unfinished_read(&self) -> Reading<usize> {
        if self.rows() is None {
            Err(index_words(ReplayIndexError::MissingDone))
        } else {
            Ok(unfinished_of(self.rings(), self.child_slots(), self.rings().len() as int))
        }
    }

    fn rewards(&self) -> (result: Result<Vec<V>, String>) {
        stored(self.storage().rewards())
    }

    fn next_indices(&self, indices: &[usize]) -> (result: Result<Vec<usize>, String>) {
        navigation(self.next(indices))
    }

    fn bootstrap_mask(&self, indices: &[usize]) -> (result: Result<Vec<bool>, String>) {
        stored(self.storage().bootstrap_mask(indices))
    }

    fn end_flags(&self) -> (result: Result<Vec<bool>, String>) {
        stored(self.storage().end_flags())
    }

    fn unfinished(&self) -> (result: Result<Vec<usize>, String>) {
        navigation(self.unfinished_indices())
    }
}

impl<V: Number> CandleNStepReplay<V> for CandleReplayBuffer<V> {
    open spec fn sound(&self) -> bool {
        self.wf()
    }

    open spec fn rewards_read(&self) -> Reading<V> {
        rewards_of(self.rows())
    }

    open spec fn next_read(&self, indices: Seq<usize>) -> Reading<usize> {
        if !self.ring().initialized {
            Err(index_words(ReplayIndexError::MissingDone))
        } else if outside(indices, self.ring().capacity()) {
            Err(index_words(ReplayIndexError::Index))
        } else {
            Ok(indices.map_values(|index: usize| self.ring().after(index)))
        }
    }

    open spec fn bootstrap_read(&self, indices: Seq<usize>) -> Reading<bool> {
        bootstrap_of(self.rows(), indices)
    }

    open spec fn ends_read(&self) -> Reading<bool> {
        ends_of(self.rows())
    }

    open spec fn unfinished_read(&self) -> Reading<usize> {
        if self.ring().initialized {
            Ok(self.ring().unfinished())
        } else {
            Err(index_words(ReplayIndexError::MissingDone))
        }
    }

    fn rewards(&self) -> (result: Result<Vec<V>, String>) {
        stored(self.storage().rewards())
    }

    fn next_indices(&self, indices: &[usize]) -> (result: Result<Vec<usize>, String>) {
        navigation(self.index().next(indices))
    }

    fn bootstrap_mask(&self, indices: &[usize]) -> (result: Result<Vec<bool>, String>) {
        stored(self.storage().bootstrap_mask(indices))
    }

    fn end_flags(&self) -> (result: Result<Vec<bool>, String>) {
        stored(self.storage().end_flags())
    }

    fn unfinished(&self) -> (result: Result<Vec<usize>, String>) {
        navigation(self.index().unfinished_indices())
    }
}

/// The discounted rewards of a row, from a step of its walk on. Nothing is carried over an end.
pub open spec fn reward_from<V: Number>(
    rewards: Seq<V>,
    end_flags: Seq<bool>,
    walk: Seq<Seq<usize>>,
    gamma: V,
    row: int,
    step: int,
) -> V
    decreases walk.len() - step,
{
    if step >= walk.len() {
        V::zero_spec()
    } else {
        let slot = walk[step][row] as int;
        let later = if end_flags[slot] {
            V::zero_spec()
        } else {
            reward_from(rewards, end_flags, walk, gamma, row, step + 1)
        };
        rewards[slot].plus_spec(gamma.times_spec(later))
    }
}

/// The number of steps of a row's walk up to and including its first end.
pub open spec fn horizon_from(end_flags: Seq<bool>, walk: Seq<Seq<usize>>, row: int, step: int) -> int
    decreases walk.len() - step,
{
    if step >= walk.len() {
        walk.len() as int
    } else if end_flags[walk[step][row] as int] {
        step + 1
    } else {
        horizon_from(end_flags, walk, row, step + 1)
    }
}

/// A power by repeated multiplication from one.
pub open spec fn power<V: Number>(base: V, exponent: nat) -> V
    decreases exponent,
{
    if exponent == 0 {
        V::one_spec()
    } else {
        power(base, (exponent - 1) as nat).times_spec(base)
    }
}

/// The slots of a walk.
pub open spec fn slots_of(walk: Seq<Vec<usize>>) -> Seq<Seq<usize>> {
    walk.map_values(|row: Vec<usize>| row@)
}

/// Whether columns, walk and targets fit together.
pub open spec fn fits_together(rewards: nat, end_flags: nat, rows: nat, walk: Seq<Seq<usize>>) -> bool {
    &&& end_flags == rewards
    &&& forall|step: int| 0 <= step < walk.len() ==> (#[trigger] walk[step]).len() == rows
    &&& forall|step: int, row: int|
        0 <= step < walk.len() && 0 <= row < walk[step].len() ==> #[trigger] walk[step][row] < rewards
}

/// Whether `list` holds the n-step returns of the targets.
pub open spec fn are_returns<V: Number>(
    list: Seq<Vec<V>>,
    rewards: Seq<V>,
    end_flags: Seq<bool>,
    target: Seq<Vec<V>>,
    walk: Seq<Seq<usize>>,
    gamma: V,
) -> bool {
    &&& list.len() == target.len()
    &&& forall|row: int| 0 <= row < target.len() ==> (#[trigger] list[row])@.len() == target[row]@.len()
    &&& forall|row: int, c: int|
        0 <= row < target.len() && 0 <= c < target[row]@.len() ==> #[trigger] list[row]@[c] == reward_from(
            rewards,
            end_flags,
            walk,
            gamma,
            row,
            0,
        ).plus_spec(
            target[row]@[c].times_spec(power(gamma, horizon_from(end_flags, walk, row, 0) as nat)),
        )
}

proof fn horizon_bounds(end_flags: Seq<bool>, walk: Seq<Seq<usize>>, row: int, step: int)
    requires
        0 <= step <= walk.len(),
    ensures
        step <= horizon_from(end_flags, walk, row, step) <= walk.len(),
    decreases walk.len() - step,
{
    if step < walk.len() {
        horizon_bounds(end_flags, walk, row, step + 1);
    }
}

fn walk_fits(rewards: usize, end_flags: usize, rows: usize, walk: &[Vec<usize>]) -> (result: bool)
    ensures
        result == fits_together(rewards as nat, end_flags as nat, rows as nat, slots_of(walk@)),
{
    let ghost all = slots_of(walk@);
    if end_flags != rewards {
        return false;
    }
    let mut step: usize = 0;
    while step < walk.len()
        invariant
            step <= walk@.len(),
            all == slots_of(walk@),
            forall|s: int| 0 <= s < step ==> (#[trigger] all[s]).len() == rows,
            forall|s: int, r: int| 0 <= s < step && 0 <= r < all[s].len() ==> #[trigger] all[s][r] < rewards,
        decreases walk@.len() - step,
    {
        assert(all[step as int] == walk@[step as int]@);
        if walk[step].len() != rows {
            return false;
        }
        let mut row: usize = 0;
        while row < walk[step].len()
            invariant
                step < walk@.len(),
                all == slots_of(walk@),
                all[step as int] == walk@[step as int]@,
                row <= walk@[step as int]@.len(),
                forall|r: int| 0 <= r < row ==> #[trigger] all[step as int][r] < rewards,
            decreases walk@[step as int]@.len() - row,
        {
            if walk[step][row] >= rewards {
                assert(all[step as int][row as int] >= rewards);
                return false;
            }
            row += 1;
        }
        step += 1;
    }
    true
}

/// N-step returns: for every row the discounted rewards along its walk, up to its first end, plus
/// the discounted target. Targets must already be masked where nothing may be bootstrapped.
pub fn nstep_returns<V: Number>(
    rewards: &[V],
    end_flags: &[bool],
    target: &[Vec<V>],
    walk: &[Vec<usize>],
    gamma: V,
) -> (result: Result<Vec<Vec<V>>, CandleNStepError>)
    ensures
        match result {
            Err(CandleNStepError::Horizon) => walk@.len() == 0,
            Err(CandleNStepError::Metadata) => walk@.len() > 0 && !fits_together(
                rewards@.len(),
                end_flags@.len(),
                target@.len(),
                slots_of(walk@),
            ),
            Err(_) => false,
            Ok(list) => walk@.len() > 0 && fits_together(
                rewards@.len(),
                end_flags@.len(),
                target@.len(),
                slots_of(walk@),
            ) && are_returns(list@, rewards@, end_flags@, target@, slots_of(walk@), gamma),
        },
{
    if walk.len() == 0 {
        return Err(CandleNStepError::Horizon);
    }
    if !walk_fits(rewards.len(), end_flags.len(), target.len(), walk) {
        return Err(CandleNStepError::Metadata);
    }
    let ghost slots = slots_of(walk@);
    let mut powers: Vec<V> = Vec::new();
    powers.push(V::one());
    let mut k: usize = 0;
    while k < walk.len()
        invariant
            k <= walk@.len(),
            powers@.len() == k + 1,
            forall|j: int| 0 <= j <= k ==> #[trigger] powers@[j] == power(gamma, j as nat),
        decreases walk@.len() - k,
    {
        powers.push(powers[k].times(gamma));
        k += 1;
    }
    let mut list: Vec<Vec<V>> = Vec::new();
    let mut row: usize = 0;
    while row < target.len()
        invariant
            row <= target@.len(),
            slots == slots_of(walk@),
            fits_together(rewards@.len(), end_flags@.len(), target@.len(), slots),
            powers@.len() == walk@.len() + 1,
            forall|j: int| 0 <= j <= walk@.len() ==> #[trigger] powers@[j] == power(gamma, j as nat),
            list@.len() == row,
            forall|r: int| 0 <= r < row ==> (#[trigger] list@[r])@.len() == target@[r]@.len(),
            forall|r: int, c: int|
                0 <= r < row && 0 <= c < target@[r]@.len() ==> #[trigger] list@[r]@[c] == reward_from(
                    rewards@,
                    end_flags@,
                    slots,
                    gamma,
                    r,
                    0,
                ).plus_spec(
                    target@[r]@[c].times_spec(power(gamma, horizon_from(end_flags@, slots, r, 0) as nat)),
                ),
        decreases target@.len() - row,
    {
        let mut value: V = V::zero();
        let mut horizon: usize = walk.len();
        let mut step: usize = walk.len();
        while step > 0
            invariant
                step <= walk@.len(),
                row < target@.len(),
                slots == slots_of(walk@),
                fits_together(rewards@.len(), end_flags@.len(), target@.len(), slots),
                horizon <= walk@.len(),
                value == reward_from(rewards@, end_flags@, slots, gamma, row as int, step as int),
                horizon == horizon_from(end_flags@, slots, row as int, step as int),
            decreases step,
        {
            step -= 1;
            assert(slots[step as int] == walk@[step as int]@);
            assert(slots[step as int].len() == target@.len());
            let slot: usize = walk[step][row];
            assert(slots[step as int][row as int] == slot);
            if end_flags[slot] {
                horizon = step + 1;
                value = V::zero();
            }
            value = rewards[slot].plus(gamma.times(value));
        }
        let mut out: Vec<V> = Vec::new();
        let mut c: usize = 0;
        while c < target[row].len()
            invariant
                row < target@.len(),
                c <= target@[row as int]@.len(),
                horizon <= walk@.len(),
                powers@.len() == walk@.len() + 1,
                forall|j: int| 0 <= j <= walk@.len() ==> #[trigger] powers@[j] == power(gamma, j as nat),
                out@.len() == c,
                forall|x: int|
                    0 <= x < c ==> #[trigger] out@[x] == value.plus_spec(
                        target@[row as int]@[x].times_spec(power(gamma, horizon as nat)),
                    ),
            decreases target@[row as int]@.len() - c,
        {
            out.push(value.plus(target[row][c].times(powers[horizon])));
            c += 1;
        }
        list.push(out);
        row += 1;
    }
    Ok(list)
}

/// What is read of a replay before targets are evaluated.
pub struct NStepPlan<V> {
    pub rewards: Vec<V>,
    pub walk: Vec<Vec<usize>>,
}

/// The slots of a step of a walk, or why it cannot be reached.
pub open spec fn walk_read<V: Number, B: CandleNStepReplay<V>>(buffer: B, indices: Seq<usize>, step: nat) -> Reading<usize>
    decreases step,
{
    if step == 0 {
        Ok(indices)
    } else {
        match walk_read(buffer, indices, (step - 1) as nat) {
            Ok(slots) => buffer.next_read(slots),
            Err(message) => Err(message),
        }
    }
}

proof fn walks_break_for_good<V: Number, B: CandleNStepReplay<V>>(buffer: B, indices: Seq<usize>, step: nat, later: nat)
    requires
        step <= later,
        walk_read(buffer, indices, step) is Err,
    ensures
        walk_read(buffer, indices, later) == walk_read(buffer, indices, step),
    decreases later - step,
{
    if step < later {
        walks_break_for_good(buffer, indices, step, (later - 1) as nat);
    }
}

fn copy_indices(indices: &[usize]) -> (result: Vec<usize>)
    ensures
        result@ == indices@,
{
    let mut copy: Vec<usize> = Vec::new();
    let mut i: usize = 0;
    while i < indices.len()
        invariant
            i <= indices@.len(),
            copy@ == indices@.take(i as int),
        decreases indices@.len() - i,
    {
        copy.push(indices[i]);
        i += 1;
        assert(copy@ =~= indices@.take(i as int));
    }
    assert(copy@ =~= indices@);
    copy
}

/// Reads rewards and walks ahead from sampled slots. The last step of the walk is where targets
/// are to be evaluated.
pub fn plan_nstep_returns<V: Number, B: CandleNStepReplay<V>>(
    buffer: &B,
    indices: &[usize],
    config: CandleNStepConfig<V>,
) -> (result: Result<NStepPlan<V>, CandleNStepError>)
    requires
        buffer.sound(),
    ensures
        if config.reward_normalization {
            result matches Err(error) && error@ == NStepFailure::RewardNormalization
        } else if config.steps == 0 {
            result matches Err(error) && error@ == NStepFailure::Horizon
        } else {
            match (buffer.rewards_read(), walk_read(*buffer, indices@, (config.steps - 1) as nat)) {
                (Err(message), _) => result matches Err(error) && error@ == NStepFailure::Adapter("rewards"@, message),
                (_, Err(message)) => result matches Err(error) && error@ == NStepFailure::Adapter("next"@, message),
                (Ok(rewards), Ok(_)) => {
                    &&& result matches Ok(plan)
                    &&& plan.rewards@ == rewards
                    &&& plan.walk@.len() == config.steps
                    &&& forall|step: int|
                        0 <= step < config.steps ==> Ok::<Seq<usize>, Seq<char>>((#[trigger] plan.walk@[step])@) == walk_read(
                            *buffer,
                            indices@,
                            step as nat,
                        )
                },
            }
        },
{
    if config.reward_normalization {
        return Err(CandleNStepError::RewardNormalization);
    }
    if config.steps == 0 {
        return Err(CandleNStepError::Horizon);
    }
    let rewards = match buffer.rewards() {
        Ok(rewards) => rewards,
        Err(message) => return Err(CandleNStepError::Adapter { stage: "rewards", message }),
    };
    let mut walk: Vec<Vec<usize>> = Vec::new();
    walk.push(copy_indices(indices));
    let mut step: usize = 1;
    while step < config.steps
        invariant
            buffer.sound(),
            buffer.rewards_read() is Ok,
            !config.reward_normalization,
            1 <= step <= config.steps,
            walk@.len() == step,
            forall|s: int|
                0 <= s < step ==> Ok::<Seq<usize>, Seq<char>>((#[trigger] walk@[s])@) == walk_read(
                    *buffer,
                    indices@,
                    s as nat,
                ),
        decreases config.steps - step,
    {
        let last: usize = step - 1;
        assert(Ok::<Seq<usize>, Seq<char>>(walk@[last as int]@) == walk_read(*buffer, indices@, last as nat));
        let next = match buffer.next_indices(walk[last].as_slice()) {
            Ok(next) => next,
            Err(message) => {
                proof {
                    walks_break_for_good(*buffer, indices@, step as nat, (config.steps - 1) as nat);
                }
                return Err(CandleNStepError::Adapter { stage: "next", message });
            },
        };
        walk.push(next);
        step += 1;
    }
    assert(Ok::<Seq<usize>, Seq<char>>(walk@[step - 1]@) == walk_read(*buffer, indices@, (step - 1) as nat));
    Ok(NStepPlan { rewards, walk })
}

/// Flags with further ends marked.
pub open spec fn marked(flags: Seq<bool>, ends: Seq<usize>) -> Seq<bool> {
    Seq::new(flags.len(), |i: int| flags[i] || ends.contains(i as usize))
}

/// Marks further ends; a position outside the flags is refused.
pub fn mark_ends(flags: Vec<bool>, ends: &[usize]) -> (result: Result<Vec<bool>, CandleNStepError>)
    ensures
        match result {
            Ok(list) => !outside(ends@, flags@.len()) && list@ == marked(flags@, ends@),
            Err(error) => error == CandleNStepError::Metadata && outside(ends@, flags@.len()),
        },
{
    let mut list = flags;
    let mut i: usize = 0;
    while i < ends.len()
        invariant
            i <= ends@.len(),
            list@.len() == flags@.len(),
            forall|j: int| 0 <= j < i ==> #[trigger] ends@[j] < flags@.len(),
            list@ == marked(flags@, ends@.take(i as int)),
        decreases ends@.len() - i,
    {
        let end: usize = ends[i];
        if end >= list.len() {
            return Err(CandleNStepError::Metadata);
        }
        list.set(end, true);
        proof {
            let narrow = ends@.take(i as int);
            let wide = ends@.take(i + 1);
            assert forall|k: int| 0 <= k < flags@.len() implies list@[k] == (flags@[k] || wide.contains(k as usize)) by {
                if wide.contains(k as usize) {
                    let j = choose|j: int| 0 <= j < wide.len() && wide[j] == k as usize;
                    if j < i {
                        assert(narrow[j] == k as usize);
                    }
                }
                if narrow.contains(k as usize) {
                    let j = choose|j: int| 0 <= j < narrow.len() && narrow[j] == k as usize;
                    assert(wide[j] == k as usize);
                }
                if k == end {
                    assert(wide[i as int] == k as usize);
                }
            }
            assert(list@ =~= marked(flags@, wide));
        }
        i += 1;
    }
    assert(ends@.take(i as int) =~= ends@);
    Ok(list)
}

/// Targets with zero in place of what may not be bootstrapped.
pub open spec fn is_masked<V: Number>(masked: Seq<Vec<V>>, target: Seq<Vec<V>>, mask: Seq<bool>) -> bool {
    &&& masked.len() == target.len()
    &&& forall|row: int| 0 <= row < target.len() ==> (#[trigger] masked[row])@.len() == target[row]@.len()
    &&& forall|row: int, c: int|
        0 <= row < target.len() && 0 <= c < target[row]@.len() ==> #[trigger] masked[row]@[c]
            == target[row]@[c].times_spec(unit::<V>(mask[row]))
}

fn mask_targets<V: Number>(target: &[Vec<V>], mask: &[bool]) -> (result: Vec<Vec<V>>)
    requires
        target@.len() == mask@.len(),
    ensures
        is_masked(result@, target@, mask@),
{
    let mut list: Vec<Vec<V>> = Vec::new();
    let mut row: usize = 0;
    while row < target.len()
        invariant
            row <= target@.len(),
            target@.len() == mask@.len(),
            list@.len() == row,
            forall|r: int| 0 <= r < row ==> (#[trigger] list@[r])@.len() == target@[r]@.len(),
            forall|r: int, c: int|
                0 <= r < row && 0 <= c < target@[r]@.len() ==> #[trigger] list@[r]@[c] == target@[r]@[c].times_spec(
                    unit::<V>(mask@[r]),
                ),
        decreases target@.len() - row,
    {
        let factor = if mask[row] {
            V::one()
        } else {
            V::zero()
        };
        let mut out: Vec<V> = Vec::new();
        let mut c: usize = 0;
        while c < target[row].len()
            invariant
                row < target@.len(),
                c <= target@[row as int]@.len(),
                out@.len() == c,
                forall|x: int| 0 <= x < c ==> #[trigger] out@[x] == target@[row as int]@[x].times_spec(factor),
            decreases target@[row as int]@.len() - c,
        {
            out.push(target[row][c].times(factor));
            c += 1;
        }
        list.push(out);
        row += 1;
    }
    list
}

/// What n-step returns are computed with: whether each row may be bootstrapped, and the ends of all
/// slots, where unfinished episodes count as ended. An empty batch is refused first, then what the
/// replay does not tell, then columns that do not fit together.
pub open spec fn preparation<V: Number, B: CandleNStepReplay<V>>(
    buffer: B,
    rewards: nat,
    walk: Seq<Seq<usize>>,
    rows: nat,
    dtype: DType,
) -> Result<(Seq<bool>, Seq<bool>), NStepFailure> {
    if walk[0].len() == 0 {
        Err(NStepFailure::Empty)
    } else if dtype == DType::BF16 {
        Err(NStepFailure::Dtype(dtype))
    } else {
        match buffer.bootstrap_read(walk.last()) {
            Err(message) => Err(NStepFailure::Adapter("bootstrap"@, message)),
            Ok(mask) => if mask.len() != walk[0].len() {
                Err(NStepFailure::Metadata)
            } else {
                match (buffer.ends_read(), buffer.unfinished_read()) {
                    (Err(message), _) => Err(NStepFailure::Adapter("end flags"@, message)),
                    (_, Err(message)) => Err(NStepFailure::Adapter("unfinished"@, message)),
                    (Ok(flags), Ok(open)) => if outside(open, flags.len()) {
                        Err(NStepFailure::Metadata)
                    } else if dtype == DType::F16 {
                        Err(NStepFailure::Dtype(dtype))
                    } else if !fits_together(rewards, flags.len(), rows, walk) {
                        Err(NStepFailure::Metadata)
                    } else {
                        Ok((mask, marked(flags, open)))
                    },
                }
            },
        }
    }
}

/// Computes the n-step returns of evaluated targets of a type.
pub fn prepare_nstep_returns<V: Number, B: CandleNStepReplay<V>>(
    buffer: &B,
    plan: &NStepPlan<V>,
    target: &[Vec<V>],
    dtype: DType,
    gamma: V,
) -> (result: Result<Vec<Vec<V>>, CandleNStepError>)
    requires
        buffer.sound(),
        plan.walk@.len() > 0,
    ensures
        match preparation(*buffer, plan.rewards@.len(), slots_of(plan.walk@), target@.len(), dtype) {
            Err(failure) => result is Err && result->Err_0@ == failure,
            Ok(found) => result is Ok && exists|masked: Seq<Vec<V>>| #[trigger]
                is_masked(masked, target@, found.0) && are_returns(
                    result->Ok_0@,
                    plan.rewards@,
                    found.1,
                    masked,
                    slots_of(plan.walk@),
                    gamma,
                ),
        },
{
    let ghost slots = slots_of(plan.walk@);
    assert(slots[0] == plan.walk@[0]@);
    if plan.walk[0].len() == 0 {
        return Err(CandleNStepError::Empty);
    }
    if dtype == DType::BF16 {
        return Err(CandleNStepError::Dtype(dtype));
    }
    let last: usize = plan.walk.len() - 1;
    assert(slots.last() == plan.walk@[last as int]@);
    let mask = match buffer.bootstrap_mask(plan.walk[last].as_slice()) {
        Ok(mask) => mask,
        Err(message) => return Err(CandleNStepError::Adapter { stage: "bootstrap", message }),
    };
    if mask.len() != plan.walk[0].len() {
        return Err(CandleNStepError::Metadata);
    }
    let flags = match buffer.end_flags() {
        Ok(flags) => flags,
        Err(message) => return Err(CandleNStepError::Adapter { stage: "end flags", message }),
    };
    let open = match buffer.unfinished() {
        Ok(open) => open,
        Err(message) => return Err(CandleNStepError::Adapter { stage: "unfinished", message }),
    };
    let ends = match mark_ends(flags, open.as_slice()) {
        Ok(ends) => ends,
        Err(error) => return Err(error),
    };
    if dtype == DType::F16 {
        return Err(CandleNStepError::Dtype(dtype));
    }
    if target.len() != mask.len() {
        proof {
            assert(slots[0].len() != target@.len());
            assert(!fits_together(plan.rewards@.len(), ends@.len(), target@.len(), slots));
        }
        return Err(CandleNStepError::Metadata);
    }
    let masked = mask_targets(target, mask.as_slice());
    assert(is_masked(masked@, target@, mask@));
    let result = nstep_returns(
        plan.rewards.as_slice(),
        ends.as_slice(),
        masked.as_slice(),
        plan.walk.as_slice(),
        gamma,
    );
    proof {
        let prepared = preparation(*buffer, plan.rewards@.len(), slots, target@.len(), dtype);
        if fits_together(plan.rewards@.len(), ends@.len(), target@.len(), slots) {
            assert(prepared is Ok && prepared->Ok_0.0 == mask@ && prepared->Ok_0.1 == ends@);
            assert(is_masked(masked@, target@, prepared->Ok_0.0));
        } else {
            assert(prepared is Err && prepared->Err_0 == NStepFailure::Metadata);
        }
    }
    result
}

/// What lies behind the first end of a walk does not matter: walks that agree up to an end give the
/// same rewards and the same number of steps.
pub proof fn walks_stop_at_ends<V: Number>(
    rewards: Seq<V>,
    end_flags: Seq<bool>,
    walk: Seq<Seq<usize>>,
    other: Seq<Seq<usize>>,
    gamma: V,
    row: int,
    step: int,
    end: int,
)
    requires
        0 <= step <= end < walk.len(),
        walk.len() == other.len(),
        forall|s: int| step <= s <= end ==> #[trigger] walk[s] == other[s],
        end_flags[walk[end][row] as int],
    ensures
        reward_from(rewards, end_flags, walk, gamma, row, step) == reward_from(rewards, end_flags, other, gamma, row, step),
        horizon_from(end_flags, walk, row, step) == horizon_from(end_flags, other, row, step),
        horizon_from(end_flags, walk, row, step) <= end + 1,
    decreases end - step,
{
    assert(walk[step] == other[step]);
    if step < end {
        walks_stop_at_ends(rewards, end_flags, walk, other, gamma, row, step + 1, end);
    }
}

// ---- laws -------------------------------------------------------------------------------------

/// The rewards of the first steps of a row, each discounted by as many factors as steps lie before it.
pub open spec fn discounted_sum(
    rewards: Seq<Ticks>,
    walk: Seq<Seq<usize>>,
    gamma: int,
    row: int,
    start: int,
    steps: nat,
) -> int
    decreases steps,
{
    if steps == 0 {
        0
    } else {
        discounted_sum(rewards, walk, gamma, row, start, (steps - 1) as nat) + pow(gamma, (steps - 1) as nat) * held(
            rewards[walk[start + steps - 1][row] as int],
        )
    }
}

/// How many steps of a row count from one on: up to and with the first that ends an episode, or all.
pub open spec fn counts_steps(end_flags: Seq<bool>, walk: Seq<Seq<usize>>, row: int, start: int, steps: nat) -> bool {
    &&& start + steps <= walk.len()
    &&& forall|k: int| 0 <= k < steps - 1 ==> !end_flags[(#[trigger] walk[start + k])[row] as int]
    &&& start + steps == walk.len() || (steps > 0 && end_flags[walk[start + steps - 1][row] as int])
}

/// A sum of discounted rewards begins with the first reward.
proof fn sums_begin_with_their_first(
    rewards: Seq<Ticks>,
    walk: Seq<Seq<usize>>,
    gamma: int,
    row: int,
    start: int,
    steps: nat,
)
    requires
        steps > 0,
    ensures
        discounted_sum(rewards, walk, gamma, row, start, steps) == held(rewards[walk[start][row] as int]) + gamma
            * discounted_sum(rewards, walk, gamma, row, start + 1, (steps - 1) as nat),
    decreases steps,
{
    reveal(pow);
    if steps > 1 {
        let fewer = (steps - 1) as nat;
        sums_begin_with_their_first(rewards, walk, gamma, row, start, fewer);
        let last = held(rewards[walk[start + steps - 1][row] as int]);
        let inner = discounted_sum(rewards, walk, gamma, row, start + 1, (steps - 2) as nat);
        let factor = pow(gamma, (steps - 2) as nat);
        assert(pow(gamma, fewer) == gamma * factor);
        assert(gamma * (inner + factor * last) == gamma * inner + (gamma * factor) * last) by (nonlinear_arith);
        assert(start + 1 + (steps - 2) == start + steps - 1);
    } else {
        assert(discounted_sum(rewards, walk, gamma, row, start, 0) == 0);
        assert(discounted_sum(rewards, walk, gamma, row, start + 1, 0) == 0);
        let first = held(rewards[walk[start][row] as int]);
        assert(pow(gamma, 0) == 1);
        assert(1 * first == first && gamma * 0 == 0);
    }
}

/// Rewards that are added up from the last step on are the discounted sum of the steps that count.
proof fn rewards_are_discounted_sums(
    rewards: Seq<Ticks>,
    end_flags: Seq<bool>,
    walk: Seq<Seq<usize>>,
    gamma: i64,
    row: int,
    start: int,
) -> (steps: nat)
    requires
        0 <= start <= walk.len(),
        reward_from(rewards, end_flags, walk, Ticks(Some(gamma)), row, start).0 is Some,
    ensures
        counts_steps(end_flags, walk, row, start, steps),
        horizon_from(end_flags, walk, row, start) == start + steps,
        held(reward_from(rewards, end_flags, walk, Ticks(Some(gamma)), row, start)) == discounted_sum(
            rewards,
            walk,
            gamma as int,
            row,
            start,
            steps,
        ),
    decreases walk.len() - start,
{
    if start == walk.len() {
        0
    } else if end_flags[walk[start][row] as int] {
        sums_begin_with_their_first(rewards, walk, gamma as int, row, start, 1);
        assert(gamma * 0 == 0);
        1
    } else {
        let later = rewards_are_discounted_sums(rewards, end_flags, walk, gamma, row, start + 1);
        sums_begin_with_their_first(rewards, walk, gamma as int, row, start, later + 1);
        assert forall|k: int| 0 <= k < later implies !end_flags[(#[trigger] walk[start + k])[row] as int] by {
            if k > 0 {
                assert(walk[start + 1 + (k - 1)] == walk[start + k]);
            }
        }
        later + 1
    }
}

/// A repeated product of a whole number is its power.
proof fn products_are_powers(gamma: i64, exponent: nat)
    requires
        power(Ticks(Some(gamma)), exponent).0 is Some,
    ensures
        held(power(Ticks(Some(gamma)), exponent)) == pow(gamma as int, exponent),
    decreases exponent,
{
    reveal(pow);
    if exponent > 0 {
        products_are_powers(gamma, (exponent - 1) as nat);
        let fewer = pow(gamma as int, (exponent - 1) as nat);
        assert(fewer * gamma == gamma * fewer) by (nonlinear_arith);
    }
}

/// The n-step return of a row adds up the rewards of the steps that count, each discounted once for
/// every step before it, and the target, discounted once for every one of them. This holds of whole
/// numbers wherever the return can be held.
pub proof fn returns_discount_rewards_and_targets(
    rewards: &[Ticks],
    end_flags: &[bool],
    target: &[Vec<Ticks>],
    walk: &[Vec<usize>],
    gamma: i64,
    result: Result<Vec<Vec<Ticks>>, CandleNStepError>,
    row: int,
    place: int,
) -> (steps: nat)
    requires
        call_ensures(nstep_returns::<Ticks>, (rewards, end_flags, target, walk, Ticks(Some(gamma))), result),
        result is Ok,
        0 <= row < target@.len(),
        0 <= place < target@[row]@.len(),
        result->Ok_0@[row]@[place].0 is Some,
    ensures
        result->Ok_0@.len() == target@.len() && result->Ok_0@[row]@.len() == target@[row]@.len(),
        steps > 0,
        counts_steps(end_flags@, slots_of(walk@), row, 0, steps),
        held(result->Ok_0@[row]@[place]) == discounted_sum(rewards@, slots_of(walk@), gamma as int, row, 0, steps) + pow(
            gamma as int,
            steps,
        ) * held(target@[row]@[place]),
{
    let slots = slots_of(walk@);
    assert(result->Ok_0@[row]@[place] == result->Ok_0@[row]@[place]);
    let steps = rewards_are_discounted_sums(rewards@, end_flags@, slots, gamma, row, 0);
    products_are_powers(gamma, steps);
    let factor = pow(gamma as int, steps);
    let last = held(target@[row]@[place]);
    assert(last * factor == factor * last) by (nonlinear_arith);
    steps
}

/// Where a replay does not let a row be bootstrapped, its target does not matter: targets of whole
/// numbers that only differ there give the same returns.
pub proof fn masked_targets_do_not_matter<B: CandleNStepReplay<Ticks>>(
    buffer: B,
    plan: NStepPlan<Ticks>,
    target: &[Vec<Ticks>],
    other: &[Vec<Ticks>],
    dtype: DType,
    gamma: Ticks,
    result: Result<Vec<Vec<Ticks>>, CandleNStepError>,
    beside: Result<Vec<Vec<Ticks>>, CandleNStepError>,
    row: int,
    place: int,
)
    requires
        call_ensures(prepare_nstep_returns::<Ticks, B>, (&buffer, &plan, target, dtype, gamma), result),
        call_ensures(prepare_nstep_returns::<Ticks, B>, (&buffer, &plan, other, dtype, gamma), beside),
        buffer.sound(),
        plan.walk@.len() > 0,
        target@.len() == other@.len(),
        forall|r: int| 0 <= r < target@.len() ==> (#[trigger] target@[r])@.len() == other@[r]@.len(),
        result is Ok && beside is Ok,
        0 <= row < target@.len(),
        0 <= place < target@[row]@.len(),
        target@[row]@[place].0 is Some && other@[row]@[place].0 is Some,
        buffer.bootstrap_read(slots_of(plan.walk@).last()) matches Ok(mask) && !mask[row],
    ensures
        result->Ok_0@[row]@[place] == beside->Ok_0@[row]@[place],
{
    let found = preparation(buffer, plan.rewards@.len(), slots_of(plan.walk@), target@.len(), dtype)->Ok_0;
    let slots = slots_of(plan.walk@);
    let masked = choose|masked: Seq<Vec<Ticks>>| #[trigger]
        is_masked(masked, target@, found.0) && are_returns(result->Ok_0@, plan.rewards@, found.1, masked, slots, gamma);
    let twin = choose|masked: Seq<Vec<Ticks>>| #[trigger]
        is_masked(masked, other@, found.0) && are_returns(beside->Ok_0@, plan.rewards@, found.1, masked, slots, gamma);
    assert(masked[row]@.len() == target@[row]@.len() && twin[row]@.len() == other@[row]@.len());
    let (left, right) = (held(target@[row]@[place]), held(other@[row]@[place]));
    assert(left * 0 == 0 && right * 0 == 0);
    assert(masked[row]@[place] == twin[row]@[place]);
    assert(result->Ok_0@[row]@[place] == beside->Ok_0@[row]@[place]);
}

/// Ends that are marked are ends, what was an end stays one, and nothing else becomes one.
pub proof fn marking_adds_ends(flags: Vec<bool>, ends: &[usize], result: Result<Vec<bool>, CandleNStepError>, place: int)
    requires
        call_ensures(mark_ends, (flags, ends), result),
        0 <= place < flags@.len() <= usize::MAX,
    ensures
        result is Ok <==> forall|i: int| 0 <= i < ends@.len() ==> #[trigger] ends@[i] < flags@.len(),
        result is Ok ==> result->Ok_0@.len() == flags@.len() && (result->Ok_0@[place] <==> flags@[place]
            || exists|i: int| 0 <= i < ends@.len() && #[trigger] ends@[i] == place),
{
    if result is Ok {
        if ends@.contains(place as usize) {
            let i = choose|i: int| 0 <= i < ends@.len() && ends@[i] == place as usize;
            assert(ends@[i] == place);
        }
        if exists|i: int| 0 <= i < ends@.len() && #[trigger] ends@[i] == place {
            let i = choose|i: int| 0 <= i < ends@.len() && #[trigger] ends@[i] == place;
            assert(ends@[i] == place as usize);
        }
    }
}

/// The rewards, ends and masks that a replay gives are those of its rows: an end is a terminated or a
/// truncated row, and a row can be bootstrapped unless it is terminated.
pub proof fn rows_say_where_they_end<V: Number>(
    buffer: CandleReplayBuffer<V>,
    rows: Seq<ReplayRow<V>>,
    indices: Seq<usize>,
    place: int,
)
    requires
        buffer.rows() == Some(rows),
        0 <= place < rows.len(),
        indices.contains(place as usize),
        rows.len() <= usize::MAX,
        forall|i: int| 0 <= i < indices.len() ==> #[trigger] indices[i] < rows.len(),
    ensures
        buffer.rewards_read() matches Ok(rewards) && rewards.len() == rows.len() && rewards[place] == rows[place].reward,
        buffer.ends_read() matches Ok(ends) && ends.len() == rows.len() && (ends[place] <==> rows[place].terminated
            || rows[place].truncated),
        buffer.bootstrap_read(indices) matches Ok(mask) && mask.len() == indices.len() && forall|i: int|
            0 <= i < indices.len() && indices[i] == place ==> (#[trigger] mask[i] <==> !rows[place].terminated),
{
}

/// A plan begins at the slots that are asked for, and each further step is where the buffer leads from
/// the step before. It has as many steps as the horizon.
pub proof fn plans_follow_the_buffer<V: Number, B: CandleNStepReplay<V>>(
    buffer: B,
    indices: &[usize],
    config: CandleNStepConfig<V>,
    result: Result<NStepPlan<V>, CandleNStepError>,
    step: int,
)
    requires
        call_ensures(plan_nstep_returns::<V, B>, (&buffer, indices, config), result),
        buffer.sound(),
        result is Ok,
        0 <= step < config.steps - 1,
    ensures
        !config.reward_normalization,
        result->Ok_0.walk@.len() == config.steps,
        result->Ok_0.walk@[0]@ == indices@,
        buffer.next_read(result->Ok_0.walk@[step]@) == Ok::<Seq<usize>, Seq<char>>(result->Ok_0.walk@[step + 1]@),
        buffer.rewards_read() == Ok::<Seq<V>, Seq<char>>(result->Ok_0.rewards@),
{
    let plan = result->Ok_0;
    assert(Ok::<Seq<usize>, Seq<char>>(plan.walk@[0]@) == walk_read(buffer, indices@, 0));
    assert(Ok::<Seq<usize>, Seq<char>>(plan.walk@[step]@) == walk_read(buffer, indices@, step as nat));
    assert(Ok::<Seq<usize>, Seq<char>>(plan.walk@[step + 1]@) == walk_read(buffer, indices@, (step + 1) as nat));
}

} // verus!
