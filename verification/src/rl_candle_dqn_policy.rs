//! A policy of action values: its settings, its target model and its schedule.
use crate::number::{Number, Ticks};
use crate::ordered::{with_entries, OrderedMap};
use crate::rl_candle_categorical::TrainingPolicyMode;
use crate::rl_candle_heads::{component_entries, register_component};
use crate::rl_candle_policy::{find_constant, first_constant, in_unit, is_in_unit, ParameterHandle};
use vstd::prelude::*;

verus! {

/// The settings of a policy.
#[derive(Clone, Copy, Debug, PartialEq)]
pub struct CandleDqnConfig<V> {
    pub learning_rate: V,
    pub weight_decay: V,
    pub gamma: V,
    pub steps: usize,
    /// How often the target model is brought up to date. Without a positive number there is none.
    pub target_update_frequency: i64,
    pub reward_normalization: bool,
    pub is_double: bool,
    pub huber: bool,
}

/// Why a policy refuses.
#[derive(Clone, Copy, Debug, PartialEq, Eq, Structural)]
pub enum DqnPolicyError {
    /// The discount lies outside zero to one.
    Discount,
    /// There are no steps.
    Steps,
    MissingTarget,
    /// No forward has told the number of actions yet.
    MissingActionCount,
    /// The iterations cannot be counted any further.
    Iteration,
    /// A parameter is no live variable.
    NotLive,
}

impl DqnPolicyError {
    /// What is said of the failure.
    pub fn message(self) -> (result: &'static str)
        ensures
            result@ == match self {
                DqnPolicyError::Discount => "invalid DQN configuration: gamma must be in [0,1]"@,
                DqnPolicyError::Steps => "invalid DQN configuration: steps must be positive"@,
                DqnPolicyError::MissingTarget => "DQN has no target model"@,
                DqnPolicyError::MissingActionCount => {
                    "DQN exploration requires a preceding forward to discover action count"@
                },
                DqnPolicyError::Iteration => "DQN iteration exceeds native u64 counter after optimizer update"@,
                DqnPolicyError::NotLive => "DQN state requires live variable handles"@,
            },
    {
        match self {
            DqnPolicyError::Discount => "invalid DQN configuration: gamma must be in [0,1]",
            DqnPolicyError::Steps => "invalid DQN configuration: steps must be positive",
            DqnPolicyError::MissingTarget => "DQN has no target model",
            DqnPolicyError::MissingActionCount => {
                "DQN exploration requires a preceding forward to discover action count"
            },
            DqnPolicyError::Iteration => "DQN iteration exceeds native u64 counter after optimizer update",
            DqnPolicyError::NotLive => "DQN state requires live variable handles",
        }
    }
}

impl<V: Number> CandleDqnConfig<V> {
    /// Looks at the settings once the online model and its optimizer are built.
    pub fn check(&self) -> (result: Result<(), DqnPolicyError>)
        ensures
            result == if !in_unit(self.gamma) {
                Err::<(), DqnPolicyError>(DqnPolicyError::Discount)
            } else if self.steps == 0 {
                Err(DqnPolicyError::Steps)
            } else {
                Ok(())
            },
    {
        if !is_in_unit(self.gamma) {
            return Err(DqnPolicyError::Discount);
        }
        if self.steps == 0 {
            return Err(DqnPolicyError::Steps);
        }
        Ok(())
    }

    /// How often the target model is brought up to date; none without a target model.
    pub open spec fn frequency_spec(self) -> Option<u64> {
        if self.target_update_frequency > 0 {
            Some(self.target_update_frequency as u64)
        } else {
            None
        }
    }

    /// How often the target model is brought up to date.
    pub fn frequency(&self) -> (result: Option<u64>)
        ensures
            result == self.frequency_spec(),
    {
        if self.target_update_frequency > 0 {
            Some(self.target_update_frequency as u64)
        } else {
            None
        }
    }
}

/// Where a policy stands: its iteration, the number of actions once it is known, its mode and its
/// rate of exploration.
#[derive(Clone, Copy, Debug, PartialEq)]
pub struct DqnSchedule<V> {
    pub frequency: Option<u64>,
    pub iteration: u64,
    pub action_count: Option<usize>,
    pub epsilon: V,
    pub mode: TrainingPolicyMode,
}

/// What exploration does.
#[derive(Clone, Copy, Debug, PartialEq, Eq, Structural)]
pub enum Exploration {
    /// Nothing: the rate is next to zero, and nothing is drawn.
    Nothing,
    /// The rows are drawn, and then it fails: the number of actions is not known.
    Fails,
    /// The rows and then the scores of this many actions are drawn.
    Draws(usize),
}

impl<V: Number> DqnSchedule<V> {
    /// A target model is brought up to date only at positive intervals.
    pub open spec fn wf(&self) -> bool {
        self.frequency matches Some(interval) ==> interval > 0
    }

    pub fn new(config: &CandleDqnConfig<V>) -> (result: Self)
        ensures
            result.wf(),
            result == (DqnSchedule::<V> {
                frequency: config.frequency_spec(),
                iteration: 0,
                action_count: None,
                epsilon: V::zero_spec(),
                mode: TrainingPolicyMode::Train,
            }),
    {
        DqnSchedule {
            frequency: config.frequency(),
            iteration: 0,
            action_count: None,
            epsilon: V::zero(),
            mode: TrainingPolicyMode::Train,
        }
    }

    /// Whether there is a target model.
    pub fn has_target(&self) -> (result: bool)
        ensures
            result == (self.frequency is Some),
    {
        self.frequency.is_some()
    }

    /// Refuses to bring a target model up to date that is not there.
    pub fn check_target(&self) -> (result: Result<(), DqnPolicyError>)
        ensures
            result == if self.frequency is Some {
                Ok::<(), DqnPolicyError>(())
            } else {
                Err(DqnPolicyError::MissingTarget)
            },
    {
        if self.frequency.is_some() {
            Ok(())
        } else {
            Err(DqnPolicyError::MissingTarget)
        }
    }

    /// Whether the target model is brought up to date before the next batch is learned.
    pub open spec fn sync_due_spec(self) -> bool {
        self.frequency matches Some(interval) && self.iteration as int % interval as int == 0
    }

    /// Whether the target model is brought up to date before the next batch is learned.
    pub fn sync_due(&self) -> (result: bool)
        requires
            self.wf(),
        ensures
            result == self.sync_due_spec(),
    {
        match self.frequency {
            Some(interval) => self.iteration % interval == 0,
            None => false,
        }
    }

    /// Counts a batch that was learned.
    pub fn learned(&mut self) -> (result: Result<(), DqnPolicyError>)
        ensures
            if old(self).iteration == u64::MAX {
                result == Err::<(), DqnPolicyError>(DqnPolicyError::Iteration) && *final(self) == *old(self)
            } else {
                result is Ok && *final(self) == (DqnSchedule::<V> {
                    iteration: (old(self).iteration + 1) as u64,
                    ..*old(self)
                })
            },
    {
        match self.iteration.checked_add(1) {
            Some(next) => {
                self.iteration = next;
                Ok(())
            },
            None => Err(DqnPolicyError::Iteration),
        }
    }

    /// Notes the number of actions of a forward. The first one stays.
    pub fn note_actions(&mut self, count: usize)
        ensures
            *final(self) == (DqnSchedule::<V> {
                action_count: match old(self).action_count {
                    Some(known) => Some(known),
                    None => Some(count),
                },
                ..*old(self)
            }),
    {
        if self.action_count.is_none() {
            self.action_count = Some(count);
        }
    }

    pub fn set_epsilon(&mut self, epsilon: V)
        ensures
            *final(self) == (DqnSchedule::<V> { epsilon, ..*old(self) }),
    {
        self.epsilon = epsilon;
    }

    /// Takes another mode. The target model stays in evaluation.
    pub fn set_mode(&mut self, mode: TrainingPolicyMode)
        ensures
            *final(self) == (DqnSchedule::<V> { mode, ..*old(self) }),
    {
        self.mode = mode;
    }

    /// What exploration does, with the rate below which it does nothing.
    pub fn exploration(&self, tiny: V) -> (result: Exploration)
        ensures
            result == if self.epsilon.absolute_spec().below_spec(tiny) || self.epsilon.absolute_spec().equals_spec(tiny) {
                Exploration::Nothing
            } else {
                match self.action_count {
                    Some(count) => Exploration::Draws(count),
                    None => Exploration::Fails,
                }
            },
    {
        let rate: V = self.epsilon.absolute();
        if rate.below(tiny) || rate.equals(tiny) {
            return Exploration::Nothing;
        }
        match self.action_count {
            Some(count) => Exploration::Draws(count),
            None => Exploration::Fails,
        }
    }
}

/// The registered state of a policy: the online model, then the target model where there is one.
pub fn register_models(model: &OrderedMap<ParameterHandle>, target: Option<&OrderedMap<ParameterHandle>>) -> (result: Result<
    OrderedMap<ParameterHandle>,
    DqnPolicyError,
>)
    ensures
        if first_constant(model@) is Some || (target is Some && first_constant(target->Some_0@) is Some) {
            result == Err::<OrderedMap<ParameterHandle>, DqnPolicyError>(DqnPolicyError::NotLive)
        } else {
            let online = with_entries(Seq::empty(), component_entries("model"@, model@));
            result matches Ok(state) && state@ == match target {
                Some(copy) => with_entries(online, component_entries("model_old"@, copy@)),
                None => online,
            }
        },
{
    if find_constant(model).is_some() {
        return Err(DqnPolicyError::NotLive);
    }
    let mut state: OrderedMap<ParameterHandle> = OrderedMap::new();
    register_component(&mut state, "model", model);
    if let Some(copy) = target {
        if find_constant(copy).is_some() {
            return Err(DqnPolicyError::NotLive);
        }
        register_component(&mut state, "model_old", copy);
    }
    Ok(state)
}

/// A target model is brought up to date before the very first batch, and then at every multiple of
/// the interval.
pub proof fn targets_begin_up_to_date<V: Number>(config: CandleDqnConfig<V>, schedule: DqnSchedule<V>, rounds: nat)
    requires
        config.frequency_spec() is Some,
        schedule.frequency == config.frequency_spec(),
        schedule.iteration == rounds * config.frequency_spec()->Some_0,
    ensures
        schedule.sync_due_spec(),
{
    let interval = config.frequency_spec()->Some_0 as int;
    assert((rounds * interval) % interval == 0) by (nonlinear_arith)
        requires
            interval > 0,
            rounds >= 0,
    ;
}

/// A target model is brought up to date at the multiples of its interval and at no other iteration,
/// and never where there is none.
pub proof fn targets_wait_for_their_interval<V: Number>(
    config: CandleDqnConfig<V>,
    schedule: DqnSchedule<V>,
    begun: DqnSchedule<V>,
    rounds: nat,
    beyond: nat,
    due: bool,
)
    requires
        call_ensures(DqnSchedule::<V>::new, (&config,), begun),
        schedule.frequency == begun.frequency,
        call_ensures(DqnSchedule::<V>::sync_due, (&schedule,), due),
        config.target_update_frequency > 0 ==> beyond < config.target_update_frequency && schedule.iteration == rounds
            * config.target_update_frequency + beyond,
    ensures
        due <==> config.target_update_frequency > 0 && beyond == 0,
        begun.iteration == 0,
{
    let interval = config.target_update_frequency as int;
    if interval > 0 {
        assert((rounds * interval + beyond) % interval == beyond as int) by (nonlinear_arith)
            requires
                interval > 0,
                rounds >= 0,
                0 <= beyond < interval,
        ;
    }
}

/// Exploration draws exactly where the rate exceeds the least one in size, either way.
pub proof fn only_real_rates_explore(schedule: DqnSchedule<Ticks>, epsilon: i64, tiny: i64, result: Exploration)
    requires
        call_ensures(DqnSchedule::<Ticks>::exploration, (&schedule, Ticks(Some(tiny))), result),
        schedule.epsilon == Ticks(Some(epsilon)),
        epsilon != i64::MIN,
    ensures
        result == Exploration::Nothing <==> -tiny <= epsilon <= tiny,
        result == Exploration::Fails <==> !(-tiny <= epsilon <= tiny) && schedule.action_count is None,
        result matches Exploration::Draws(count) ==> schedule.action_count == Some(count),
{
}

/// A discount is taken from zero to one, and a horizon from one on.
pub proof fn settings_are_bounded(config: CandleDqnConfig<Ticks>, gamma: i64, result: Result<(), DqnPolicyError>)
    requires
        call_ensures(CandleDqnConfig::<Ticks>::check, (&config,), result),
        config.gamma == Ticks(Some(gamma)),
    ensures
        result is Ok <==> 0 <= gamma <= 1 && config.steps >= 1,
        result is Err && 0 <= gamma <= 1 ==> result->Err_0 == DqnPolicyError::Steps,
        !(0 <= gamma <= 1) ==> result == Err::<(), DqnPolicyError>(DqnPolicyError::Discount),
{
}

} // verus!
