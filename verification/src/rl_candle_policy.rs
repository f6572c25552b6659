//! A policy of proximal optimization: its settings, its registration and its learning schedule.
use crate::number::{Number, Ticks};
use crate::ordered::{distinct_names, value_of, with_entries, OrderedMap};
use crate::rl_candle_heads::{component_entries, component_name, register_component};
use crate::rl_candle_ppo::{dual_clip_valid, PpoLossConfig};
use crate::rl_policy_batch::{contents, minibatch_indices, minibatches, positions, InvalidBatchSize};
use crate::text::{append_chars, from_chars, to_chars};
use rand::rngs::StdRng;
use vstd::prelude::*;

verus! {

/// The settings of a policy.
#[derive(Clone, Copy, Debug, PartialEq)]
pub struct CandlePpoConfig<V> {
    pub learning_rate: V,
    pub weight_decay: V,
    pub gamma: V,
    pub gae_lambda: V,
    pub max_grad_norm: Option<V>,
    pub reward_normalization: bool,
    pub max_batch_size: usize,
    pub deterministic_eval: bool,
    pub recompute_advantage: bool,
    pub loss: PpoLossConfig<V>,
}

/// The numbers of an update.
#[derive(Clone, Copy, Debug, PartialEq, Eq, Structural)]
pub struct CandlePpoUpdate {
    pub sample_size: u64,
    pub batch_size: usize,
    pub repeat: usize,
}

/// Why settings are refused.
#[derive(Clone, Copy, Debug, PartialEq, Eq, Structural)]
pub enum ConfigurationError {
    /// A discount lies outside zero to one.
    Discount,
    /// The second limit of the loss does not exceed one.
    DualClip,
    /// Values are clipped without normalized rewards.
    ValueClip,
    /// There are no steps.
    Steps,
}

impl ConfigurationError {
    /// What the refusal of a policy of proximal optimization says.
    pub fn message(self) -> (result: &'static str)
        ensures
            result@ == match self {
                ConfigurationError::Discount => "gamma/lambda must be in [0,1]"@,
                ConfigurationError::DualClip => "dual clip must exceed one"@,
                ConfigurationError::ValueClip => "value clipping requires reward normalization"@,
                ConfigurationError::Steps => "steps must be positive"@,
            },
    {
        match self {
            ConfigurationError::Discount => "gamma/lambda must be in [0,1]",
            ConfigurationError::DualClip => "dual clip must exceed one",
            ConfigurationError::ValueClip => "value clipping requires reward normalization",
            ConfigurationError::Steps => "steps must be positive",
        }
    }
}

/// Whether a value lies between zero and one.
pub open spec fn in_unit<V: Number>(value: V) -> bool {
    (V::zero_spec().below_spec(value) || V::zero_spec().equals_spec(value)) && (value.below_spec(V::one_spec())
        || value.equals_spec(V::one_spec()))
}

/// Whether a value lies between zero and one.
pub fn is_in_unit<V: Number>(value: V) -> (result: bool)
    ensures
        result == in_unit(value),
{
    (V::zero().below(value) || V::zero().equals(value)) && (value.below(V::one()) || value.equals(V::one()))
}

/// Why the settings of a policy are refused.
pub open spec fn config_failure<V: Number>(config: CandlePpoConfig<V>) -> Option<ConfigurationError> {
    if !in_unit(config.gamma) || !in_unit(config.gae_lambda) {
        Some(ConfigurationError::Discount)
    } else if !dual_clip_valid(config.loss.dual_clip) {
        Some(ConfigurationError::DualClip)
    } else if config.loss.value_clip && !config.reward_normalization {
        Some(ConfigurationError::ValueClip)
    } else {
        None
    }
}

impl<V: Number> CandlePpoConfig<V> {
    /// Looks at the settings before anything is built.
    pub fn check(&self) -> (result: Result<(), ConfigurationError>)
        ensures
            match config_failure(*self) {
                Some(error) => result == Err::<(), ConfigurationError>(error),
                None => result is Ok,
            },
    {
        if !is_in_unit(self.gamma) || !is_in_unit(self.gae_lambda) {
            return Err(ConfigurationError::Discount);
        }
        if self.loss.check_dual_clip().is_err() {
            return Err(ConfigurationError::DualClip);
        }
        if self.loss.value_clip && !self.reward_normalization {
            return Err(ConfigurationError::ValueClip);
        }
        Ok(())
    }

    /// The limit of the gradients; zero stands for none.
    pub fn gradient_limit(&self) -> (result: Option<V>)
        ensures
            result == match self.max_grad_norm {
                Some(limit) => if limit.equals_spec(V::zero_spec()) {
                    None
                } else {
                    Some(limit)
                },
                None => None,
            },
    {
        match self.max_grad_norm {
            Some(limit) => if limit.equals(V::zero()) {
                None
            } else {
                Some(limit)
            },
            None => None,
        }
    }
}

// ---- registration -----------------------------------------------------------------------------

/// A parameter by its identity, and whether it is a live variable.
#[derive(Clone, Copy, Debug, PartialEq, Eq, Structural)]
pub struct ParameterHandle {
    pub id: u64,
    pub live: bool,
}

/// The parameters of actor and critic under the names of both.
pub fn actor_critic_parameters(actor: &OrderedMap<ParameterHandle>, critic: &OrderedMap<ParameterHandle>) -> (result: OrderedMap<
    ParameterHandle,
>)
    ensures
        result@ == with_entries(
            with_entries(Seq::empty(), component_entries("actor"@, actor@)),
            component_entries("critic"@, critic@),
        ),
{
    let mut parameters: OrderedMap<ParameterHandle> = OrderedMap::new();
    register_component(&mut parameters, "actor", actor);
    register_component(&mut parameters, "critic", critic);
    parameters
}

/// The first parameter that is no live variable.
pub open spec fn first_constant(entries: Seq<(Seq<char>, ParameterHandle)>) -> Option<Seq<char>>
    decreases entries.len(),
{
    if entries.len() == 0 {
        None
    } else if !entries[0].1.live {
        Some(entries[0].0)
    } else {
        first_constant(entries.drop_first())
    }
}

/// The first parameter that is no live variable.
pub(crate) fn find_constant(parameters: &OrderedMap<ParameterHandle>) -> (result: Option<&String>)
    ensures
        match result {
            Some(name) => first_constant(parameters@) == Some(name@),
            None => first_constant(parameters@) is None,
        },
{
    let length: usize = parameters.len();
    let mut i: usize = 0;
    assert(parameters@.skip(0) =~= parameters@);
    while i < length
        invariant
            i <= length,
            length == parameters@.len(),
            first_constant(parameters@) == first_constant(parameters@.skip(i as int)),
        decreases length - i,
    {
        assert(parameters@.skip(i as int)[0] == parameters@[i as int]);
        assert(parameters@.skip(i as int).drop_first() =~= parameters@.skip(i + 1));
        if !parameters.value_at(i).live {
            return Some(parameters.name_at(i));
        }
        i += 1;
    }
    assert(parameters@.skip(i as int).len() == 0);
    None
}

/// The message about a parameter that is no live variable.
pub open spec fn constant_message(component: Seq<char>, name: Seq<char>) -> Seq<char> {
    "PPO state requires live variable handles: "@ + component_name(component, name)
}

fn constant_error(component: &str, name: &str) -> (result: String)
    ensures
        result@ == constant_message(component@, name@),
{
    let mut message = to_chars("PPO state requires live variable handles: ");
    let mut path = to_chars(component);
    append_chars(&mut path, to_chars(".").as_slice());
    append_chars(&mut path, to_chars(name).as_slice());
    append_chars(&mut message, path.as_slice());
    from_chars(message.as_slice())
}

/// The registered state of a policy: the actor, the critic, and both again as one module. Every
/// parameter must be a live variable.
pub fn register_policy(
    actor: &OrderedMap<ParameterHandle>,
    critic: &OrderedMap<ParameterHandle>,
    actor_critic: &OrderedMap<ParameterHandle>,
) -> (result: Result<OrderedMap<ParameterHandle>, String>)
    ensures
        match first_constant(actor@) {
            Some(name) => result matches Err(message) && message@ == constant_message("actor"@, name),
            None => match first_constant(critic@) {
                Some(name) => result matches Err(message) && message@ == constant_message("critic"@, name),
                None => match first_constant(actor_critic@) {
                    Some(name) => result matches Err(message) && message@ == constant_message("_actor_critic"@, name),
                    None => result matches Ok(state) && state@ == with_entries(
                        with_entries(
                            with_entries(Seq::empty(), component_entries("actor"@, actor@)),
                            component_entries("critic"@, critic@),
                        ),
                        component_entries("_actor_critic"@, actor_critic@),
                    ),
                },
            },
        },
{
    if let Some(name) = find_constant(actor) {
        return Err(constant_error("actor", name.as_str()));
    }
    if let Some(name) = find_constant(critic) {
        return Err(constant_error("critic", name.as_str()));
    }
    if let Some(name) = find_constant(actor_critic) {
        return Err(constant_error("_actor_critic", name.as_str()));
    }
    let mut state: OrderedMap<ParameterHandle> = OrderedMap::new();
    register_component(&mut state, "actor", actor);
    register_component(&mut state, "critic", critic);
    register_component(&mut state, "_actor_critic", actor_critic);
    Ok(state)
}

// ---- learning ---------------------------------------------------------------------------------

/// Positions as indices of a tensor; none where one is too large for it.
pub fn tensor_positions(batch: &Vec<usize>) -> (result: Option<Vec<i64>>)
    ensures
        match result {
            Some(indices) => indices@.len() == batch@.len() && forall|i: int|
                0 <= i < batch@.len() ==> #[trigger] indices@[i] == batch@[i],
            None => exists|i: int| 0 <= i < batch@.len() && #[trigger] batch@[i] > i64::MAX,
        },
{
    let mut indices: Vec<i64> = Vec::new();
    let mut i: usize = 0;
    while i < batch.len()
        invariant
            i <= batch@.len(),
            indices@.len() == i,
            forall|j: int| 0 <= j < i ==> #[trigger] indices@[j] == batch@[j],
        decreases batch@.len() - i,
    {
        if batch[i] as u64 > i64::MAX as u64 {
            assert(batch@[i as int] > i64::MAX);
            return None;
        }
        indices.push(batch[i] as i64);
        i += 1;
    }
    Some(indices)
}

/// What is done next in learning.
#[derive(Debug)]
pub enum LearnStep {
    /// Compute the returns anew.
    Recompute,
    /// Shuffle the batch and split it.
    Split,
    /// Learn the minibatch of the given place.
    Minibatch(usize),
    Finished,
}

/// Where learning stands within a repeat.
#[derive(Clone, Copy, Debug, PartialEq, Eq, Structural)]
pub enum LearnStage {
    /// The repeat begins.
    Begins,
    /// The returns are up to date.
    Ready,
    /// The minibatches are learned.
    Splits,
}

/// Learning of a batch: it is shuffled and split once for each repeat. From the second repeat on
/// the returns may be computed anew.
#[derive(Debug)]
pub struct LearnRun {
    pub length: usize,
    pub batch_size: usize,
    pub repeat: usize,
    pub recomputes: bool,
    pub step: usize,
    pub stage: LearnStage,
    pub batches: Vec<Vec<usize>>,
    pub place: usize,
}

impl LearnRun {
    /// While minibatches are learned, the place is that of one of them.
    pub open spec fn wf(&self) -> bool {
        self.step <= self.repeat && (self.stage == LearnStage::Splits ==> self.step < self.repeat && self.place
            < self.batches@.len())
    }

    /// What is due.
    pub open spec fn due(&self) -> LearnStep {
        if self.step >= self.repeat {
            LearnStep::Finished
        } else {
            match self.stage {
                LearnStage::Begins => if self.recomputes && self.step > 0 {
                    LearnStep::Recompute
                } else {
                    LearnStep::Split
                },
                LearnStage::Ready => LearnStep::Split,
                LearnStage::Splits => LearnStep::Minibatch(self.place),
            }
        }
    }

    pub fn begin(length: usize, batch_size: usize, repeat: usize, recomputes: bool) -> (result: Self)
        ensures
            result.wf(),
            result.length == length,
            result.batch_size == batch_size,
            result.repeat == repeat,
            result.recomputes == recomputes,
            result.step == 0,
            result.stage == LearnStage::Begins,
    {
        LearnRun {
            length,
            batch_size,
            repeat,
            recomputes,
            step: 0,
            stage: LearnStage::Begins,
            batches: Vec::new(),
            place: 0,
        }
    }

    /// What is done next.
    pub fn next(&self) -> (result: LearnStep)
        requires
            self.wf(),
        ensures
            result == self.due(),
    {
        if self.step >= self.repeat {
            return LearnStep::Finished;
        }
        match self.stage {
            LearnStage::Begins => if self.recomputes && self.step > 0 {
                LearnStep::Recompute
            } else {
                LearnStep::Split
            },
            LearnStage::Ready => LearnStep::Split,
            LearnStage::Splits => LearnStep::Minibatch(self.place),
        }
    }

    /// Notes that the returns were computed anew.
    pub fn recomputed(&mut self)
        requires
            old(self).wf(),
            old(self).due() is Recompute,
        ensures
            final(self).wf(),
            final(self).due() is Split,
            final(self).step == old(self).step,
            final(self).repeat == old(self).repeat,
            final(self).length == old(self).length,
            final(self).batch_size == old(self).batch_size,
            final(self).recomputes == old(self).recomputes,
    {
        self.stage = LearnStage::Ready;
    }

    /// Shuffles the batch and splits it. A short last minibatch is joined to the one before. A
    /// repeat without minibatches is over at once.
    pub fn split(&mut self, rng: &mut StdRng) -> (result: Result<(), InvalidBatchSize>)
        requires
            old(self).wf(),
            old(self).due() is Split,
        ensures
            final(self).wf(),
            final(self).repeat == old(self).repeat,
            final(self).length == old(self).length,
            final(self).batch_size == old(self).batch_size,
            final(self).recomputes == old(self).recomputes,
            result is Err <==> old(self).batch_size == 0,
            result is Err ==> *final(self) == *old(self) && *final(rng) == *old(rng),
            result is Ok ==> exists|order: Seq<usize>|
                order.to_multiset() == positions(old(self).length as nat).to_multiset() && contents(final(self).batches@)
                    == #[trigger] minibatches(order, old(self).batch_size as nat, true),
            result is Ok ==> if final(self).batches@.len() == 0 {
                final(self).step == old(self).step + 1 && final(self).stage == LearnStage::Begins
            } else {
                final(self).step == old(self).step && final(self).due() == LearnStep::Minibatch(0)
            },
    {
        match minibatch_indices(self.length, self.batch_size, true, true, rng) {
            Err(error) => Err(error),
            Ok(batches) => {
                self.place = 0;
                if batches.len() == 0 {
                    self.step += 1;
                    self.stage = LearnStage::Begins;
                } else {
                    self.stage = LearnStage::Splits;
                }
                self.batches = batches;
                Ok(())
            },
        }
    }

    /// The positions of the minibatch that is due.
    pub fn minibatch(&self) -> (result: &Vec<usize>)
        requires
            self.wf(),
            self.due() is Minibatch,
        ensures
            result@ == self.batches@[self.place as int]@,
    {
        &self.batches[self.place]
    }

    /// Goes on behind a minibatch that was learned: with the next one, or with the next repeat.
    pub fn learned(&mut self)
        requires
            old(self).wf(),
            old(self).due() is Minibatch,
        ensures
            final(self).wf(),
            final(self).repeat == old(self).repeat,
            final(self).length == old(self).length,
            final(self).batch_size == old(self).batch_size,
            final(self).recomputes == old(self).recomputes,
            final(self).batches@ == old(self).batches@,
            if old(self).place + 1 < old(self).batches@.len() {
                final(self).step == old(self).step && final(self).due() == LearnStep::Minibatch(
                    (old(self).place + 1) as usize,
                )
            } else {
                final(self).step == old(self).step + 1 && final(self).stage == LearnStage::Begins
            },
    {
        let count: usize = self.batches.len();
        self.place += 1;
        if self.place >= count {
            self.step += 1;
            self.stage = LearnStage::Begins;
            self.place = 0;
        }
    }
}

/// The losses of one minibatch: the whole, the part of the policy, of the values, the entropy.
pub type BatchLosses<V> = (V, V, V, V);

/// The losses of all minibatches by name.
pub fn loss_metrics<V: Copy>(losses: &Vec<BatchLosses<V>>) -> (result: OrderedMap<Vec<V>>)
    ensures
        result@.len() == 4,
        value_of(result@, "loss"@) matches Some(values) && values@ == losses@.map_values(|loss: BatchLosses<V>| loss.0),
        value_of(result@, "loss/clip"@) matches Some(values) && values@ == losses@.map_values(
            |loss: BatchLosses<V>| loss.1,
        ),
        value_of(result@, "loss/vf"@) matches Some(values) && values@ == losses@.map_values(|loss: BatchLosses<V>| loss.2),
        value_of(result@, "loss/ent"@) matches Some(values) && values@ == losses@.map_values(
            |loss: BatchLosses<V>| loss.3,
        ),
{
    let mut whole: Vec<V> = Vec::new();
    let mut clip: Vec<V> = Vec::new();
    let mut values: Vec<V> = Vec::new();
    let mut entropy: Vec<V> = Vec::new();
    let ghost all = losses@;
    let ghost first = all.map_values(|loss: BatchLosses<V>| loss.0);
    let ghost second = all.map_values(|loss: BatchLosses<V>| loss.1);
    let ghost third = all.map_values(|loss: BatchLosses<V>| loss.2);
    let ghost fourth = all.map_values(|loss: BatchLosses<V>| loss.3);
    let mut i: usize = 0;
    while i < losses.len()
        invariant
            i <= losses@.len(),
            all == losses@,
            first == all.map_values(|loss: BatchLosses<V>| loss.0),
            second == all.map_values(|loss: BatchLosses<V>| loss.1),
            third == all.map_values(|loss: BatchLosses<V>| loss.2),
            fourth == all.map_values(|loss: BatchLosses<V>| loss.3),
            whole@ == first.take(i as int),
            clip@ == second.take(i as int),
            values@ == third.take(i as int),
            entropy@ == fourth.take(i as int),
        decreases losses@.len() - i,
    {
        let loss = losses[i];
        whole.push(loss.0);
        clip.push(loss.1);
        values.push(loss.2);
        entropy.push(loss.3);
        i += 1;
        proof {
            assert(whole@ =~= first.take(i as int));
            assert(clip@ =~= second.take(i as int));
            assert(values@ =~= third.take(i as int));
            assert(entropy@ =~= fourth.take(i as int));
        }
    }
    proof {
        assert(whole@ =~= first);
        assert(clip@ =~= second);
        assert(values@ =~= third);
        assert(entropy@ =~= fourth);
        reveal_strlit("loss");
        reveal_strlit("loss/clip");
        reveal_strlit("loss/vf");
        reveal_strlit("loss/ent");
        assert("loss/vf"@.len() == 7 && "loss/ent"@.len() == 8 && "loss/clip"@.len() == 9 && "loss"@.len() == 4);
    }
    let mut metrics: OrderedMap<Vec<V>> = OrderedMap::new();
    let ghost start = metrics@;
    metrics.insert("loss".to_owned(), whole);
    let ghost one = metrics@;
    metrics.insert("loss/clip".to_owned(), clip);
    let ghost two = metrics@;
    metrics.insert("loss/vf".to_owned(), values);
    let ghost three = metrics@;
    metrics.insert("loss/ent".to_owned(), entropy);
    proof {
        crate::ordered::read_after_write(start, "loss"@, whole);
        crate::ordered::read_after_write(one, "loss/clip"@, clip);
        crate::ordered::read_after_write(two, "loss/vf"@, values);
        crate::ordered::read_after_write(three, "loss/ent"@, entropy);
        crate::ordered::write_keeps_others(one, "loss/clip"@, clip, "loss"@);
        crate::ordered::write_keeps_others(two, "loss/vf"@, values, "loss"@);
        crate::ordered::write_keeps_others(two, "loss/vf"@, values, "loss/clip"@);
        crate::ordered::write_keeps_others(three, "loss/ent"@, entropy, "loss"@);
        crate::ordered::write_keeps_others(three, "loss/ent"@, entropy, "loss/clip"@);
        crate::ordered::write_keeps_others(three, "loss/ent"@, entropy, "loss/vf"@);
        crate::ordered::write_keeps_others(start, "loss"@, whole, "loss/clip"@);
        crate::ordered::write_keeps_others(start, "loss"@, whole, "loss/vf"@);
        crate::ordered::write_keeps_others(start, "loss"@, whole, "loss/ent"@);
        crate::ordered::write_keeps_others(one, "loss/clip"@, clip, "loss/vf"@);
        crate::ordered::write_keeps_others(one, "loss/clip"@, clip, "loss/ent"@);
        crate::ordered::write_keeps_others(two, "loss/vf"@, values, "loss/ent"@);
        assert(value_of(start, "loss/clip"@) is None);
        assert(value_of(start, "loss/vf"@) is None);
        assert(value_of(start, "loss/ent"@) is None);
        assert(one.len() == 1 && two.len() == 2 && three.len() == 3);
    }
    metrics
}

/// Without repeats nothing is split, not even a batch of a size that would be refused.
pub proof fn no_repeats_do_nothing(run: LearnRun)
    requires
        run.wf(),
        run.repeat == 0,
    ensures
        run.due() is Finished,
{
}

/// The returns are computed anew only from the second repeat on, and only where that is asked for.
pub proof fn first_repeats_keep_returns(run: LearnRun)
    requires
        run.step == 0 || !run.recomputes,
    ensures
        !(run.due() is Recompute),
{
}

/// Whole settings that will do: each discount is zero or one, a second limit exceeds one, and values
/// are clipped only along with normalized rewards.
pub proof fn settings_that_will_do(config: CandlePpoConfig<Ticks>, result: Result<(), ConfigurationError>)
    requires
        call_ensures(CandlePpoConfig::<Ticks>::check, (&config,), result),
    ensures
        result is Ok <==> {
            &&& config.gamma.0 is Some && 0 <= config.gamma.0->Some_0 <= 1
            &&& config.gae_lambda.0 is Some && 0 <= config.gae_lambda.0->Some_0 <= 1
            &&& config.loss.dual_clip matches Some(dual) ==> dual.0 is Some && dual.0->Some_0 > 1
            &&& config.loss.value_clip ==> config.reward_normalization
        },
{
}

/// Gradients are limited by the limit that is set, unless it is zero.
pub proof fn zero_limits_nothing(config: CandlePpoConfig<Ticks>, result: Option<Ticks>)
    requires
        call_ensures(CandlePpoConfig::<Ticks>::gradient_limit, (&config,), result),
    ensures
        config.max_grad_norm is None || config.max_grad_norm == Some(Ticks(Some(0))) ==> result is None,
        config.max_grad_norm is Some && config.max_grad_norm != Some(Ticks(Some(0))) ==> result == config.max_grad_norm,
{
}

/// A parameter is found under its component and its own name, whether it is one of the actor or of the
/// critic.
pub proof fn parameters_stand_under_their_components(
    actor: OrderedMap<ParameterHandle>,
    critic: OrderedMap<ParameterHandle>,
    result: OrderedMap<ParameterHandle>,
    name: Seq<char>,
)
    requires
        call_ensures(actor_critic_parameters, (&actor, &critic), result),
        distinct_names(actor@),
        distinct_names(critic@),
    ensures
        value_of(result@, "actor."@ + name) == value_of(actor@, name),
        value_of(result@, "critic."@ + name) == value_of(critic@, name),
{
    reveal_strlit("actor");
    reveal_strlit("critic");
    reveal_strlit("actor.");
    reveal_strlit("critic.");
    reveal_strlit(".");
    assert("actor."@ =~= "actor"@ + "."@);
    assert("critic."@ =~= "critic"@ + "."@);
    let (left, right) = (component_entries("actor"@, actor@), component_entries("critic"@, critic@));
    let (one, two) = (component_name("actor"@, name), component_name("critic"@, name));
    assert(one =~= "actor."@ + name);
    assert(two =~= "critic."@ + name);
    let start = Seq::<(Seq<char>, ParameterHandle)>::empty();
    let middle = with_entries(start, left);
    components_are_read_back(start, "actor"@, actor@, name);
    components_are_read_back(middle, "critic"@, critic@, name);
    assert forall|place: int| 0 <= place < right.len() implies (#[trigger] right[place]).0 != one by {
        assert(right[place].0[0] == 'c' && one[0] == 'a');
    }
    crate::ordered::last_entries_are_read_back(middle, right, one);
    assert forall|place: int| 0 <= place < left.len() implies (#[trigger] left[place]).0 != two by {
        assert(left[place].0[0] == 'a' && two[0] == 'c');
    }
    crate::ordered::last_entries_are_read_back(start, left, two);
}

proof fn components_are_read_back(
    start: Seq<(Seq<char>, ParameterHandle)>,
    component: Seq<char>,
    entries: Seq<(Seq<char>, ParameterHandle)>,
    name: Seq<char>,
)
    requires
        distinct_names(entries),
        component.len() > 0,
    ensures
        value_of(with_entries(start, component_entries(component, entries)), component_name(component, name)) == match value_of(
            entries,
            name,
        ) {
            Some(value) => Some(value),
            None => value_of(start, component_name(component, name)),
        },
{
    let added = component_entries(component, entries);
    let key = component_name(component, name);
    let front = component + "."@;
    crate::ordered::find_name_finds(entries, name);
    crate::ordered::last_entries_are_read_back(start, added, key);
    assert forall|i: int| 0 <= i < added.len() implies ((#[trigger] added[i]).0 == key <==> entries[i].0 == name) by {
        assert(added[i].0 == front + entries[i].0);
        assert(key == front + name);
        if added[i].0 == key {
            assert((front + entries[i].0).skip(front.len() as int) =~= entries[i].0);
            assert((front + name).skip(front.len() as int) =~= name);
        }
    }
    match crate::ordered::find_name(entries, name) {
        Some(place) => {
            assert(added[place].0 == key);
            assert forall|later: int| place < later < added.len() implies (#[trigger] added[later]).0 != key by {
                assert(entries[place].0 != entries[later].0);
            }
        },
        None => {},
    }
}

/// The losses of minibatches are listed under their names, one for each minibatch and in order: the
/// whole loss and the parts of the policy, of the values and of the entropy.
pub proof fn losses_stand_under_their_names<V: Copy>(
    losses: Vec<BatchLosses<V>>,
    result: OrderedMap<Vec<V>>,
    place: int,
)
    requires
        call_ensures(loss_metrics::<V>, (&losses,), result),
        0 <= place < losses@.len(),
    ensures
        value_of(result@, "loss"@) matches Some(list) && list@.len() == losses@.len() && list@[place] == losses@[place].0,
        value_of(result@, "loss/clip"@) matches Some(list) && list@.len() == losses@.len() && list@[place]
            == losses@[place].1,
        value_of(result@, "loss/vf"@) matches Some(list) && list@.len() == losses@.len() && list@[place] == losses@[place].2,
        value_of(result@, "loss/ent"@) matches Some(list) && list@.len() == losses@.len() && list@[place] == losses@[place].3,
{
}

} // verus!
