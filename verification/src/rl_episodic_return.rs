//! Episodic returns and generalized advantage estimation.
use vstd::prelude::*;

use crate::integer::decimal_digits;
use crate::number::{held, Number, Ticks};
use crate::text::{decimal_chars, from_chars, sentence};

verus! {

/// Prepared columns of a batch of transitions.
pub struct EpisodicReturnInput<'a, V> {
    pub rewards: &'a [V],
    pub terminated: &'a [bool],
    pub truncated: &'a [bool],
    /// Whether a value may be bootstrapped; read only where next values are given.
    pub bootstrap_valid: &'a [bool],
    pub indices: &'a [usize],
    pub unfinished_indices: &'a [usize],
    pub next_values: Option<&'a [V]>,
    pub values: Option<&'a [V]>,
}

/// Returns and advantages of a batch.
#[derive(Debug)]
pub struct EpisodicReturns<V> {
    pub returns: Vec<V>,
    pub advantages: Vec<V>,
}

/// Failures of return estimation.
#[derive(Clone, Copy, Debug, PartialEq, Eq)]
pub enum EpisodicReturnError {
    /// A column's length differs from the number of rewards.
    Length { field: &'static str, actual: usize, expected: usize },
    /// Without next values, the smoothing factor must be close to one.
    MissingBootstrap,
}

/// What is said of a failure.
pub open spec fn episodic_words(error: EpisodicReturnError) -> Seq<char> {
    match error {
        EpisodicReturnError::Length { field, actual, expected } => field@ + " length "@ + decimal_digits(actual as nat)
            + " does not match rewards length "@ + decimal_digits(expected as nat),
        EpisodicReturnError::MissingBootstrap => "missing next-state values requires GAE lambda close to one"@,
    }
}

impl EpisodicReturnError {
    /// What is said of the failure.
    pub fn message(self) -> (result: String)
        ensures
            result@ == episodic_words(self),
    {
        match self {
            EpisodicReturnError::Length { field, actual, expected } => {
                let found = from_chars(decimal_chars(actual).as_slice());
                let start = sentence(field, " length ", found.as_str(), " does not match rewards length ");
                let wanted = from_chars(decimal_chars(expected).as_slice());
                sentence(start.as_str(), wanted.as_str(), "", "")
            },
            EpisodicReturnError::MissingBootstrap => {
                "missing next-state values requires GAE lambda close to one".to_owned()
            },
        }
    }
}

/// One where a flag holds, zero otherwise.
pub open spec fn unit<V: Number>(flag: bool) -> V {
    if flag {
        V::one_spec()
    } else {
        V::zero_spec()
    }
}

/// The next values, masked where nothing may be bootstrapped; zeros without next values.
pub open spec fn masked_next<V: Number>(count: nat, next_values: Option<Seq<V>>, valid: Seq<bool>) -> Seq<V> {
    match next_values {
        Some(next) => Seq::new(count, |i: int| next[i].times_spec(unit::<V>(valid[i]))),
        None => Seq::new(count, |i: int| V::zero_spec()),
    }
}

/// The values; without values, the next values shifted by one place around the end.
pub open spec fn estimates<V: Number>(values: Option<Seq<V>>, next: Seq<V>) -> Seq<V> {
    match values {
        Some(values) => values,
        None => Seq::new(
            next.len(),
            |i: int| if i == 0 {
                next[next.len() - 1]
            } else {
                next[i - 1]
            },
        ),
    }
}

/// The one-step error of a transition.
pub open spec fn step_error<V: Number>(reward: V, next: V, value: V, gamma: V) -> V {
    reward.plus_spec(next.times_spec(gamma)).minus_spec(value)
}

/// Whether an episode ends at a transition, or is cut off there.
pub open spec fn ends(terminated: bool, truncated: bool, index: usize, unfinished: Seq<usize>) -> bool {
    terminated || truncated || unfinished.contains(index)
}

/// The advantage of a transition: its own error plus the discounted advantage of the next one.
/// At an end the factor is zero, and it is still applied.
pub open spec fn advantage_from<V: Number>(errors: Seq<V>, ended: Seq<bool>, factor: V, index: int) -> V
    decreases errors.len() - index,
{
    if index >= errors.len() {
        V::zero_spec()
    } else {
        errors[index].plus_spec(
            unit::<V>(!ended[index]).times_spec(factor).times_spec(advantage_from(errors, ended, factor, index + 1)),
        )
    }
}

/// The first column whose length differs from the number of rewards.
pub open spec fn wrong_length<V>(input: EpisodicReturnInput<V>) -> Option<(Seq<char>, nat)> {
    let count = input.rewards@.len();
    if input.terminated@.len() != count {
        Some(("terminated"@, input.terminated@.len()))
    } else if input.truncated@.len() != count {
        Some(("truncated"@, input.truncated@.len()))
    } else if input.indices@.len() != count {
        Some(("indices"@, input.indices@.len()))
    } else if input.next_values is Some && input.next_values->Some_0@.len() != count {
        Some(("next_values"@, input.next_values->Some_0@.len()))
    } else if input.next_values is Some && input.bootstrap_valid@.len() != count {
        Some(("bootstrap_valid"@, input.bootstrap_valid@.len()))
    } else {
        None
    }
}

fn length(field: &'static str, actual: usize, expected: usize) -> (result: Result<(), EpisodicReturnError>)
    ensures
        match result {
            Ok(_) => actual == expected,
            Err(EpisodicReturnError::Length { field: f, actual: a, expected: e }) => actual != expected && f@ == field@
                && a == actual && e == expected,
            Err(_) => false,
        },
{
    if actual == expected {
        Ok(())
    } else {
        Err(EpisodicReturnError::Length { field, actual, expected })
    }
}

fn contains(list: &[usize], item: usize) -> (result: bool)
    ensures
        result == list@.contains(item),
{
    let mut i: usize = 0;
    while i < list.len()
        invariant
            i <= list@.len(),
            forall|j: int| 0 <= j < i ==> list@[j] != item,
        decreases list@.len() - i,
    {
        if list[i] == item {
            assert(list@[i as int] == item);
            return true;
        }
        i += 1;
    }
    false
}

/// The values of an optional column.
pub open spec fn column<V>(values: Option<&[V]>) -> Option<Seq<V>> {
    match values {
        Some(values) => Some(values@),
        None => None,
    }
}

/// The step errors of a batch.
pub open spec fn batch_errors<V: Number>(input: EpisodicReturnInput<V>, gamma: V) -> Seq<V> {
    let next = masked_next(input.rewards@.len(), column(input.next_values), input.bootstrap_valid@);
    let values = estimates(column(input.values), next);
    Seq::new(input.rewards@.len(), |i: int| step_error(input.rewards@[i], next[i], values[i], gamma))
}

/// Where the episodes of a batch end.
pub open spec fn batch_ends<V>(input: EpisodicReturnInput<V>) -> Seq<bool> {
    Seq::new(
        input.rewards@.len(),
        |i: int|
            ends(input.terminated@[i], input.truncated@[i], input.indices@[i], input.unfinished_indices@),
    )
}

/// Estimates returns and advantages of a batch, in input order.
///
/// `lambda_is_one` says whether the smoothing factor is close to one; only then may next values
/// be absent.
pub fn episodic_returns<V: Number>(
    input: &EpisodicReturnInput<V>,
    gamma: V,
    gae_lambda: V,
    lambda_is_one: bool,
) -> (result: Result<EpisodicReturns<V>, EpisodicReturnError>)
    ensures
        ({
            let count = input.rewards@.len();
            let next = masked_next(count, column(input.next_values), input.bootstrap_valid@);
            let values = estimates(column(input.values), next);
            match result {
                Err(EpisodicReturnError::Length { field, actual, expected }) => {
                    &&& expected == count
                    &&& match wrong_length(*input) {
                        Some(wrong) => field@ == wrong.0 && actual == wrong.1,
                        None => field@ == "values"@ && (input.next_values is Some || lambda_is_one) && input.values is Some
                            && input.values->Some_0@.len() == actual && actual != count,
                    }
                },
                Err(EpisodicReturnError::MissingBootstrap) => wrong_length(*input) is None && input.next_values is None
                    && !lambda_is_one,
                Ok(output) => {
                    &&& wrong_length(*input) is None
                    &&& input.next_values is Some || lambda_is_one
                    &&& input.values is Some ==> input.values->Some_0@.len() == count
                    &&& output.advantages@ == Seq::new(
                        count,
                        |i: int| advantage_from(batch_errors(*input, gamma), batch_ends(*input), gamma.times_spec(gae_lambda), i),
                    )
                    &&& output.returns@ == Seq::new(count, |i: int| output.advantages@[i].plus_spec(values[i]))
                },
            }
        }),
{
    let count: usize = input.rewards.len();
    match length("terminated", input.terminated.len(), count) {
        Ok(_) => {},
        Err(error) => return Err(error),
    }
    match length("truncated", input.truncated.len(), count) {
        Ok(_) => {},
        Err(error) => return Err(error),
    }
    match length("indices", input.indices.len(), count) {
        Ok(_) => {},
        Err(error) => return Err(error),
    }
    let mut next_values: Vec<V> = Vec::new();
    let ghost masked = masked_next(count as nat, column(input.next_values), input.bootstrap_valid@);
    match input.next_values {
        Some(next) => {
            match length("next_values", next.len(), count) {
                Ok(_) => {},
                Err(error) => return Err(error),
            }
            match length("bootstrap_valid", input.bootstrap_valid.len(), count) {
                Ok(_) => {},
                Err(error) => return Err(error),
            }
            let mut i: usize = 0;
            while i < count
                invariant
                    i <= count,
                    next@.len() == count,
                    input.bootstrap_valid@.len() == count,
                    next_values@.len() == i,
                    forall|j: int|
                        0 <= j < i ==> #[trigger] next_values@[j] == next@[j].times_spec(
                            unit::<V>(input.bootstrap_valid@[j]),
                        ),
                decreases count - i,
            {
                let mask = if input.bootstrap_valid[i] {
                    V::one()
                } else {
                    V::zero()
                };
                next_values.push(next[i].times(mask));
                i += 1;
            }
        },
        None => {
            if !lambda_is_one {
                return Err(EpisodicReturnError::MissingBootstrap);
            }
            let mut i: usize = 0;
            while i < count
                invariant
                    i <= count,
                    next_values@.len() == i,
                    forall|j: int| 0 <= j < i ==> #[trigger] next_values@[j] == V::zero_spec(),
                decreases count - i,
            {
                next_values.push(V::zero());
                i += 1;
            }
        },
    }
    assert(next_values@ =~= masked);
    let mut values: Vec<V> = Vec::new();
    let ghost estimated = estimates(column(input.values), masked);
    match input.values {
        Some(given) => {
            match length("values", given.len(), count) {
                Ok(_) => {},
                Err(error) => return Err(error),
            }
            let mut i: usize = 0;
            while i < count
                invariant
                    i <= count,
                    given@.len() == count,
                    values@.len() == i,
                    forall|j: int| 0 <= j < i ==> #[trigger] values@[j] == given@[j],
                decreases count - i,
            {
                values.push(given[i]);
                i += 1;
            }
        },
        None => {
            let mut i: usize = 0;
            while i < count
                invariant
                    i <= count,
                    next_values@.len() == count,
                    values@.len() == i,
                    forall|j: int|
                        0 <= j < i ==> #[trigger] values@[j] == if j == 0 {
                            next_values@[count - 1]
                        } else {
                            next_values@[j - 1]
                        },
                decreases count - i,
            {
                if i == 0 {
                    values.push(next_values[count - 1]);
                } else {
                    values.push(next_values[i - 1]);
                }
                i += 1;
            }
        },
    }
    assert(values@ =~= estimated);
    let mut advantages: Vec<V> = Vec::new();
    let factor = gamma.times(gae_lambda);
    let ghost errors = batch_errors(*input, gamma);
    let ghost ended = batch_ends(*input);
    let mut gae: V = V::zero();
    let mut index: usize = count;
    while index > 0
        invariant
            index <= count,
            count == input.rewards@.len(),
            input.terminated@.len() == count,
            input.truncated@.len() == count,
            input.indices@.len() == count,
            next_values@ == masked,
            values@ == estimated,
            next_values@.len() == count,
            values@.len() == count,
            errors == batch_errors(*input, gamma),
            ended == batch_ends(*input),
            masked == masked_next(count as nat, column(input.next_values), input.bootstrap_valid@),
            estimated == estimates(column(input.values), masked),
            factor == gamma.times_spec(gae_lambda),
            gae == advantage_from(errors, ended, factor, index as int),
            advantages@.len() == count - index,
            forall|j: int|
                0 <= j < advantages@.len() ==> #[trigger] advantages@[j] == advantage_from(
                    errors,
                    ended,
                    factor,
                    count - 1 - j,
                ),
        decreases index,
    {
        index -= 1;
        let end = input.terminated[index] || input.truncated[index] || contains(
            input.unfinished_indices,
            input.indices[index],
        );
        let delta = input.rewards[index].plus(next_values[index].times(gamma)).minus(values[index]);
        let mask = if end {
            V::zero()
        } else {
            V::one()
        };
        gae = delta.plus(mask.times(factor).times(gae));
        advantages.push(gae);
    }
    let mut ordered: Vec<V> = Vec::new();
    let mut totals: Vec<V> = Vec::new();
    let mut i: usize = 0;
    while i < count
        invariant
            i <= count,
            advantages@.len() == count,
            values@.len() == count,
            ordered@.len() == i,
            totals@.len() == i,
            forall|j: int| 0 <= j < i ==> #[trigger] ordered@[j] == advantages@[count - 1 - j],
            forall|j: int| 0 <= j < i ==> #[trigger] totals@[j] == ordered@[j].plus_spec(values@[j]),
        decreases count - i,
    {
        let advantage = advantages[count - 1 - i];
        ordered.push(advantage);
        totals.push(advantage.plus(values[i]));
        i += 1;
    }
    proof {
        assert(ordered@ =~= Seq::new(count as nat, |k: int| advantage_from(errors, ended, factor, k)));
        assert(totals@ =~= Seq::new(count as nat, |k: int| ordered@[k].plus_spec(values@[k])));
    }
    Ok(EpisodicReturns { returns: totals, advantages: ordered })
}

/// Advantages look forward: what came before a transition does not matter for its advantage.
pub proof fn advantages_look_forward<V: Number>(
    errors: Seq<V>,
    ended: Seq<bool>,
    others: Seq<V>,
    other_ended: Seq<bool>,
    factor: V,
    index: int,
)
    requires
        errors.len() == others.len(),
        forall|i: int| index <= i < errors.len() ==> #[trigger] errors[i] == others[i],
        forall|i: int| index <= i < errors.len() ==> #[trigger] ended[i] == other_ended[i],
    ensures
        advantage_from(errors, ended, factor, index) == advantage_from(others, other_ended, factor, index),
    decreases errors.len() - index,
{
    if index < errors.len() {
        assert(errors[index] == others[index]);
        assert(ended[index] == other_ended[index]);
        advantages_look_forward(errors, ended, others, other_ended, factor, index + 1);
    }
}

// ---- laws -------------------------------------------------------------------------------------

/// The value behind a transition that counts: nothing where none may be bootstrapped, or without
/// next values.
pub open spec fn counted_next(input: EpisodicReturnInput<Ticks>, place: int) -> int {
    if input.next_values is Some && input.bootstrap_valid@[place] {
        held(input.next_values->Some_0@[place])
    } else {
        0
    }
}

/// The value that a transition is held against: its own, or without values what counts behind the
/// transition before it, around the end.
pub open spec fn counted_value(input: EpisodicReturnInput<Ticks>, place: int) -> int {
    match input.values {
        Some(values) => held(values@[place]),
        None => counted_next(
            input,
            if place == 0 {
                input.rewards@.len() - 1
            } else {
                place - 1
            },
        ),
    }
}

/// The advantage of a transition is its reward and what counts behind it, less its own value, and the
/// advantage of the next transition, discounted, unless the episode ends in between. Its return is its
/// advantage and its value. This holds of whole numbers wherever the results can be held.
pub proof fn advantages_follow_one_another(
    input: EpisodicReturnInput<Ticks>,
    gamma: i64,
    gae_lambda: i64,
    lambda_is_one: bool,
    result: Result<EpisodicReturns<Ticks>, EpisodicReturnError>,
    place: int,
)
    requires
        call_ensures(
            episodic_returns::<Ticks>,
            (&input, Ticks(Some(gamma)), Ticks(Some(gae_lambda)), lambda_is_one),
            result,
        ),
        result is Ok,
        0 <= place < input.rewards@.len(),
        result->Ok_0.advantages@[place].0 is Some,
    ensures
        result->Ok_0.advantages@.len() == input.rewards@.len(),
        result->Ok_0.returns@.len() == input.rewards@.len(),
        ({
            let ended = input.terminated@[place] || input.truncated@[place] || input.unfinished_indices@.contains(
                input.indices@[place],
            );
            let own = held(input.rewards@[place]) + gamma * counted_next(input, place) - counted_value(input, place);
            let advantage = held(result->Ok_0.advantages@[place]);
            if ended || place + 1 == input.rewards@.len() {
                advantage == own
            } else {
                advantage == own + gamma * gae_lambda * held(result->Ok_0.advantages@[place + 1])
            }
        }),
        result->Ok_0.returns@[place].0 is Some ==> held(result->Ok_0.returns@[place]) == held(
            result->Ok_0.advantages@[place],
        ) + counted_value(input, place),
{
    let count = input.rewards@.len();
    let next = masked_next(count, column(input.next_values), input.bootstrap_valid@);
    let errors = batch_errors(input, Ticks(Some(gamma)));
    let ended = batch_ends(input);
    let factor = Ticks(Some(gamma)).times_spec(Ticks(Some(gae_lambda)));
    let later = advantage_from(errors, ended, factor, place + 1);
    assert(advantage_from(errors, ended, factor, place) == result->Ok_0.advantages@[place]);
    assert(errors[place].0 is Some);
    assert(later.0 is Some && factor.0 is Some);
    masked_values_count(input, place);
    let before = if place == 0 {
        count - 1
    } else {
        place - 1
    };
    if input.values is None {
        masked_values_count(input, before);
    }
    let values = estimates(column(input.values), next);
    assert(held(values[place]) == counted_value(input, place));
    assert(counted_next(input, place) * gamma == gamma * counted_next(input, place)) by (nonlinear_arith);
    let own = held(input.rewards@[place]) + gamma * counted_next(input, place) - counted_value(input, place);
    assert(held(errors[place]) == own);
    if place + 1 < count {
        assert(later == result->Ok_0.advantages@[place + 1]);
    } else {
        assert(held(later) == 0);
    }
    let open = unit::<Ticks>(!ended[place]).times_spec(factor);
    if ended[place] {
        assert(0 * held(factor) == 0 && 0 * held(later) == 0);
        assert(open == Ticks(Some(0)));
    } else {
        assert(1 * held(factor) == held(factor));
        assert(open == factor);
        assert(held(factor) * 0 == 0);
        assert(held(factor) == gamma * gae_lambda);
    }
}

/// A masked next value is the one that counts.
proof fn masked_values_count(input: EpisodicReturnInput<Ticks>, place: int)
    requires
        0 <= place < input.rewards@.len(),
        masked_next(input.rewards@.len(), column(input.next_values), input.bootstrap_valid@)[place].0 is Some,
    ensures
        held(masked_next(input.rewards@.len(), column(input.next_values), input.bootstrap_valid@)[place])
            == counted_next(input, place),
{
    match input.next_values {
        Some(next) => {
            let value = held(next@[place]);
            assert(value * 1 == value && value * 0 == 0);
        },
        None => {},
    }
}

/// Where no value may be bootstrapped, what stands behind a transition does not matter: batches that
/// only differ in such next values have the same advantages and the same returns.
pub proof fn values_behind_ends_do_not_matter(
    input: EpisodicReturnInput<Ticks>,
    other: EpisodicReturnInput<Ticks>,
    gamma: Ticks,
    gae_lambda: Ticks,
    lambda_is_one: bool,
    result: Result<EpisodicReturns<Ticks>, EpisodicReturnError>,
    beside: Result<EpisodicReturns<Ticks>, EpisodicReturnError>,
)
    requires
        call_ensures(episodic_returns::<Ticks>, (&input, gamma, gae_lambda, lambda_is_one), result),
        call_ensures(episodic_returns::<Ticks>, (&other, gamma, gae_lambda, lambda_is_one), beside),
        result is Ok && beside is Ok,
        input.rewards@ == other.rewards@,
        input.terminated@ == other.terminated@,
        input.truncated@ == other.truncated@,
        input.bootstrap_valid@ == other.bootstrap_valid@,
        input.indices@ == other.indices@,
        input.unfinished_indices@ == other.unfinished_indices@,
        column(input.values) == column(other.values),
        input.next_values is Some && other.next_values is Some,
        forall|i: int|
            0 <= i < input.rewards@.len() ==> (#[trigger] input.next_values->Some_0@[i]).0 is Some
                && other.next_values->Some_0@[i].0 is Some && (input.bootstrap_valid@[i] ==> input.next_values->Some_0@[i]
                == other.next_values->Some_0@[i]),
    ensures
        result->Ok_0.advantages@ == beside->Ok_0.advantages@,
        result->Ok_0.returns@ == beside->Ok_0.returns@,
{
    let count = input.rewards@.len();
    let next = masked_next(count, column(input.next_values), input.bootstrap_valid@);
    let twin = masked_next(count, column(other.next_values), other.bootstrap_valid@);
    assert forall|i: int| 0 <= i < count implies next[i] == twin[i] by {
        assert(input.next_values->Some_0@[i].0 is Some);
        let (left, right) = (held(input.next_values->Some_0@[i]), held(other.next_values->Some_0@[i]));
        assert(left * 0 == 0 && right * 0 == 0);
    }
    assert(next =~= twin);
    assert(batch_errors(input, gamma) =~= batch_errors(other, gamma));
    assert(batch_ends(input) =~= batch_ends(other));
    assert(result->Ok_0.advantages@ =~= beside->Ok_0.advantages@);
    assert(result->Ok_0.returns@ =~= beside->Ok_0.returns@);
}

/// A transition that ended its episode for good is worth its reward: that is its return, and its
/// advantage is the reward less its value, whatever stands behind it.
pub proof fn last_steps_are_worth_their_reward(
    input: EpisodicReturnInput<Ticks>,
    gamma: i64,
    gae_lambda: i64,
    lambda_is_one: bool,
    result: Result<EpisodicReturns<Ticks>, EpisodicReturnError>,
    place: int,
)
    requires
        call_ensures(
            episodic_returns::<Ticks>,
            (&input, Ticks(Some(gamma)), Ticks(Some(gae_lambda)), lambda_is_one),
            result,
        ),
        result is Ok,
        0 <= place < input.rewards@.len(),
        result->Ok_0.advantages@[place].0 is Some,
        input.terminated@[place],
        input.next_values is Some && !input.bootstrap_valid@[place],
        input.values is Some,
    ensures
        held(result->Ok_0.advantages@[place]) == held(input.rewards@[place]) - held(input.values->Some_0@[place]),
        result->Ok_0.returns@[place].0 is Some ==> result->Ok_0.returns@[place] == input.rewards@[place],
{
    advantages_follow_one_another(input, gamma, gae_lambda, lambda_is_one, result, place);
    assert(gamma * 0 == 0);
    let errors = batch_errors(input, Ticks(Some(gamma)));
    assert(errors[place].0 is Some);
}

/// A batch is refused exactly where a column has another length than the rewards, or where next values
/// are missing and advantages are smoothed.
pub proof fn fitting_batches_are_estimated(
    input: EpisodicReturnInput<Ticks>,
    gamma: Ticks,
    gae_lambda: Ticks,
    lambda_is_one: bool,
    result: Result<EpisodicReturns<Ticks>, EpisodicReturnError>,
)
    requires
        call_ensures(episodic_returns::<Ticks>, (&input, gamma, gae_lambda, lambda_is_one), result),
    ensures
        result is Ok <==> {
            let count = input.rewards@.len();
            &&& input.terminated@.len() == count && input.truncated@.len() == count && input.indices@.len() == count
            &&& input.values is Some ==> input.values->Some_0@.len() == count
            &&& match input.next_values {
                Some(next) => next@.len() == count && input.bootstrap_valid@.len() == count,
                None => lambda_is_one,
            }
        },
{
}

} // verus!
