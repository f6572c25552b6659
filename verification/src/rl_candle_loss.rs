//! The terms that a loss of proximal policy optimization is made of.
//!
//! A term is a number for each transition of a minibatch, or a single number. The formulas are
//! written once, for whatever holds the terms: a tensor, or the number of a single transition.
use crate::number::{fits, ticks, Number, Ticks};
use crate::rl_candle_ppo::PpoLossConfig;
use vstd::prelude::*;

verus! {

/// What a loss is computed on. The specification functions name what the operations give.
pub trait LossTerm<V: Number>: Sized {
    open spec fn product_spec(self, other: Self) -> Self {
        arbitrary()
    }

    open spec fn sum_spec(self, other: Self) -> Self {
        arbitrary()
    }

    open spec fn difference_spec(self, other: Self) -> Self {
        arbitrary()
    }

    open spec fn squared_spec(self) -> Self {
        arbitrary()
    }

    open spec fn negated_spec(self) -> Self {
        arbitrary()
    }

    /// Brought to no less than the lower and no more than the upper of two bounds.
    open spec fn clipped_spec(self, low: V, high: V) -> Self {
        arbitrary()
    }

    /// The lesser of two.
    open spec fn least_spec(self, other: Self) -> Self {
        arbitrary()
    }

    /// The greater of two.
    open spec fn greatest_spec(self, other: Self) -> Self {
        arbitrary()
    }

    /// Times a number.
    open spec fn scaled_spec(self, factor: V) -> Self {
        arbitrary()
    }

    /// Times a weight. A weight of zero still leaves a trace of the term in its slope.
    open spec fn weighted_spec(self, weight: V) -> Self {
        arbitrary()
    }

    /// In the type that the part of the policy is computed in.
    open spec fn widened_spec(self) -> Self {
        arbitrary()
    }

    /// The mean of all there is.
    open spec fn mean_spec(self) -> Self {
        arbitrary()
    }

    /// The first of two where a term is negative, and the second elsewhere.
    open spec fn chosen_spec(self, negative: Self, otherwise: Self) -> Self {
        arbitrary()
    }

    fn product(&self, other: &Self) -> (result: Self)
        ensures
            result == self.product_spec(*other),
    ;

    fn sum(&self, other: &Self) -> (result: Self)
        ensures
            result == self.sum_spec(*other),
    ;

    fn difference(&self, other: &Self) -> (result: Self)
        ensures
            result == self.difference_spec(*other),
    ;

    fn squared(&self) -> (result: Self)
        ensures
            result == self.squared_spec(),
    ;

    fn negated(&self) -> (result: Self)
        ensures
            result == self.negated_spec(),
    ;

    fn clipped(&self, low: V, high: V) -> (result: Self)
        ensures
            result == self.clipped_spec(low, high),
    ;

    fn least(&self, other: &Self) -> (result: Self)
        ensures
            result == self.least_spec(*other),
    ;

    fn greatest(&self, other: &Self) -> (result: Self)
        ensures
            result == self.greatest_spec(*other),
    ;

    fn scaled(&self, factor: V) -> (result: Self)
        ensures
            result == self.scaled_spec(factor),
    ;

    fn weighted(&self, weight: V) -> (result: Self)
        ensures
            result == self.weighted_spec(weight),
    ;

    fn widened(&self) -> (result: Self)
        ensures
            result == self.widened_spec(),
    ;

    fn mean(&self) -> (result: Self)
        ensures
            result == self.mean_spec(),
    ;

    fn chosen(&self, negative: &Self, otherwise: &Self) -> (result: Self)
        ensures
            result == self.chosen_spec(*negative, *otherwise),
    ;
}

/// A value brought to no less than the lower and then to no more than the upper of two bounds;
/// missing where a bound is.
pub open spec fn bounded<V: Number>(value: V, low: V, high: V) -> V {
    if low.missing() || high.missing() {
        V::nothing_spec()
    } else {
        let raised = if value.below_spec(low) {
            low
        } else {
            value
        };
        if high.below_spec(raised) {
            high
        } else {
            raised
        }
    }
}

/// The lesser of two values; missing where one of them is.
pub open spec fn lesser<V: Number>(left: V, right: V) -> V {
    if left.missing() || right.missing() {
        left.plus_spec(right)
    } else if right.below_spec(left) {
        right
    } else {
        left
    }
}

/// The greater of two values; missing where one of them is.
pub open spec fn greater<V: Number>(left: V, right: V) -> V {
    if left.missing() || right.missing() {
        left.plus_spec(right)
    } else if left.below_spec(right) {
        right
    } else {
        left
    }
}

/// The number of a single transition.
impl<V: Number> LossTerm<V> for V {
    open spec fn product_spec(self, other: Self) -> Self {
        self.times_spec(other)
    }

    open spec fn sum_spec(self, other: Self) -> Self {
        self.plus_spec(other)
    }

    open spec fn difference_spec(self, other: Self) -> Self {
        self.minus_spec(other)
    }

    open spec fn squared_spec(self) -> Self {
        self.times_spec(self)
    }

    open spec fn negated_spec(self) -> Self {
        V::zero_spec().minus_spec(self)
    }

    open spec fn clipped_spec(self, low: V, high: V) -> Self {
        bounded(self, low, high)
    }

    open spec fn least_spec(self, other: Self) -> Self {
        lesser(self, other)
    }

    open spec fn greatest_spec(self, other: Self) -> Self {
        greater(self, other)
    }

    open spec fn scaled_spec(self, factor: V) -> Self {
        self.times_spec(factor)
    }

    open spec fn weighted_spec(self, weight: V) -> Self {
        self.times_spec(weight)
    }

    open spec fn widened_spec(self) -> Self {
        self
    }

    open spec fn mean_spec(self) -> Self {
        self
    }

    open spec fn chosen_spec(self, negative: Self, otherwise: Self) -> Self {
        if self.below_spec(V::zero_spec()) {
            negative
        } else {
            otherwise
        }
    }

    fn product(&self, other: &Self) -> (result: Self) {
        (*self).times(*other)
    }

    fn sum(&self, other: &Self) -> (result: Self) {
        (*self).plus(*other)
    }

    fn difference(&self, other: &Self) -> (result: Self) {
        (*self).minus(*other)
    }

    fn squared(&self) -> (result: Self) {
        (*self).times(*self)
    }

    fn negated(&self) -> (result: Self) {
        V::zero().minus(*self)
    }

    fn clipped(&self, low: V, high: V) -> (result: Self) {
        bound(*self, low, high)
    }

    fn least(&self, other: &Self) -> (result: Self) {
        take_lesser(*self, *other)
    }

    fn greatest(&self, other: &Self) -> (result: Self) {
        take_greater(*self, *other)
    }

    fn scaled(&self, factor: V) -> (result: Self) {
        (*self).times(factor)
    }

    fn weighted(&self, weight: V) -> (result: Self) {
        (*self).times(weight)
    }

    fn widened(&self) -> (result: Self) {
        *self
    }

    fn mean(&self) -> (result: Self) {
        *self
    }

    fn chosen(&self, negative: &Self, otherwise: &Self) -> (result: Self) {
        if (*self).below(V::zero()) {
            *negative
        } else {
            *otherwise
        }
    }
}

/// The surrogate: the advantage times the ratio of probabilities or times the clipped ratio,
/// whichever is less. A second limit holds negative advantages up.
pub open spec fn surrogate<V: Number, T: LossTerm<V>>(config: PpoLossConfig<V>, ratio: T, advantage: T) -> T {
    let clipped = ratio.clipped_spec(
        V::one_spec().minus_spec(config.eps_clip),
        V::one_spec().plus_spec(config.eps_clip),
    );
    let wide = advantage.widened_spec();
    let plain = ratio.widened_spec().product_spec(wide).least_spec(clipped.widened_spec().product_spec(wide));
    match config.dual_clip {
        Some(dual) => wide.chosen_spec(plain.greatest_spec(wide.scaled_spec(dual)), plain),
        None => plain,
    }
}

/// The error of a predicted value: the square of its distance from the return, or that of the
/// clipped prediction if it is greater.
pub open spec fn value_error<V: Number, T: LossTerm<V>>(
    config: PpoLossConfig<V>,
    predicted: T,
    old: Option<T>,
    returned: T,
) -> T {
    let plain = returned.difference_spec(predicted).squared_spec();
    match old {
        Some(before) => if config.value_clip {
            let moved = before.sum_spec(
                predicted.difference_spec(before).clipped_spec(
                    V::zero_spec().minus_spec(config.eps_clip),
                    config.eps_clip,
                ),
            );
            plain.greatest_spec(returned.difference_spec(moved).squared_spec())
        } else {
            plain
        },
        None => plain,
    }
}

fn bound<V: Number>(value: V, low: V, high: V) -> (result: V)
    ensures
        result == bounded(value, low, high),
{
    if low.is_missing() || high.is_missing() {
        return V::nothing();
    }
    let raised: V = if value.below(low) {
        low
    } else {
        value
    };
    if high.below(raised) {
        high
    } else {
        raised
    }
}

fn take_lesser<V: Number>(left: V, right: V) -> (result: V)
    ensures
        result == lesser(left, right),
{
    if left.is_missing() || right.is_missing() {
        left.plus(right)
    } else if right.below(left) {
        right
    } else {
        left
    }
}

fn take_greater<V: Number>(left: V, right: V) -> (result: V)
    ensures
        result == greater(left, right),
{
    if left.is_missing() || right.is_missing() {
        left.plus(right)
    } else if left.below(right) {
        right
    } else {
        left
    }
}

impl<V: Number> PpoLossConfig<V> {
    /// The surrogates of the transitions.
    pub fn surrogate<T: LossTerm<V>>(&self, ratio: &T, advantage: &T) -> (result: T)
        ensures
            result == surrogate(*self, *ratio, *advantage),
            // Without a second limit: the lesser of what the ratio and what the ratio within its bounds gain.
            self.dual_clip is None ==> result == ratio.widened_spec().product_spec(advantage.widened_spec()).least_spec(
                ratio.clipped_spec(
                    V::one_spec().minus_spec(self.eps_clip),
                    V::one_spec().plus_spec(self.eps_clip),
                ).widened_spec().product_spec(advantage.widened_spec()),
            ),
            // With a second limit, where something is lost: no less than what the limit loses.
            self.dual_clip matches Some(dual) ==> result == ({
                let plain = ratio.widened_spec().product_spec(advantage.widened_spec()).least_spec(
                    ratio.clipped_spec(
                        V::one_spec().minus_spec(self.eps_clip),
                        V::one_spec().plus_spec(self.eps_clip),
                    ).widened_spec().product_spec(advantage.widened_spec()),
                );
                advantage.widened_spec().chosen_spec(
                    plain.greatest_spec(advantage.widened_spec().scaled_spec(dual)),
                    plain,
                )
            }),
    {
        let clipped: T = ratio.clipped(V::one().minus(self.eps_clip), V::one().plus(self.eps_clip));
        let wide: T = advantage.widened();
        let plain: T = ratio.widened().product(&wide).least(&clipped.widened().product(&wide));
        match self.dual_clip {
            Some(dual) => wide.chosen(&plain.greatest(&wide.scaled(dual)), &plain),
            None => plain,
        }
    }

    /// The part of the policy: the mean surrogate, turned round, since a surrogate is to grow.
    pub fn policy_part<T: LossTerm<V>>(&self, ratio: &T, advantage: &T) -> (result: T)
        ensures
            result == surrogate(*self, *ratio, *advantage).mean_spec().negated_spec(),
    {
        self.surrogate(ratio, advantage).mean().negated()
    }

    /// The errors of the predicted values.
    pub fn value_error<T: LossTerm<V>>(&self, predicted: &T, old: Option<&T>, returned: &T) -> (result: T)
        ensures
            result == value_error(
                *self,
                *predicted,
                match old {
                    Some(before) => Some(*before),
                    None => None,
                },
                *returned,
            ),
    {
        let plain: T = returned.difference(predicted).squared();
        match old {
            Some(before) => if self.value_clip {
                let moved: T = before.sum(
                    &predicted.difference(before).clipped(V::zero().minus(self.eps_clip), self.eps_clip),
                );
                plain.greatest(&returned.difference(&moved).squared())
            } else {
                plain
            },
            None => plain,
        }
    }

    /// The part of the values: their mean error.
    pub fn value_part<T: LossTerm<V>>(&self, predicted: &T, old: Option<&T>, returned: &T) -> (result: T)
        ensures
            result == value_error(
                *self,
                *predicted,
                match old {
                    Some(before) => Some(*before),
                    None => None,
                },
                *returned,
            ).mean_spec(),
    {
        self.value_error(predicted, old, returned).mean()
    }

    /// The loss of a minibatch out of its three parts.
    pub fn total<T: LossTerm<V>>(&self, policy: &T, value: &T, entropy: &T) -> (result: T)
        ensures
            result == policy.sum_spec(value.weighted_spec(self.value_weight).widened_spec()).difference_spec(
                entropy.weighted_spec(self.entropy_weight).widened_spec(),
            ),
    {
        policy.sum(&value.weighted(self.value_weight).widened()).difference(
            &entropy.weighted(self.entropy_weight).widened(),
        )
    }
}

/// A ratio within its bounds is not clipped.
pub proof fn ratios_within_bounds_stay<V: Number>(ratio: V, low: V, high: V)
    requires
        !low.missing() && !high.missing(),
        !ratio.below_spec(low),
        !high.below_spec(ratio),
    ensures
        bounded(ratio, low, high) == ratio,
{
}

/// A product keeps the order of its first factors where the second one is not negative, and turns it
/// round where it is not positive.
proof fn products_keep_order(less: int, more: int, factor: int)
    ensures
        less <= more && factor >= 0 ==> less * factor <= more * factor,
        less <= more && factor <= 0 ==> less * factor >= more * factor,
{
    assert(less <= more && factor >= 0 ==> less * factor <= more * factor) by (nonlinear_arith);
    assert(less <= more && factor <= 0 ==> less * factor >= more * factor) by (nonlinear_arith);
}

/// The ratio that a surrogate counts with. A gain counts up to the upper bound and a loss down to the
/// lower one; a second limit caps how much of a loss counts.
pub open spec fn counted_ratio(eps: int, dual: Option<int>, ratio: int, advantage: int) -> int {
    if advantage >= 0 {
        if ratio > 1 + eps {
            1 + eps
        } else {
            ratio
        }
    } else {
        let kept = if ratio < 1 - eps {
            1 - eps
        } else {
            ratio
        };
        match dual {
            Some(limit) => if kept > limit {
                limit
            } else {
                kept
            },
            None => kept,
        }
    }
}

/// Whether a loss has a limit and perhaps a second one.
pub open spec fn has_limits(config: PpoLossConfig<Ticks>, eps: i64, dual: Option<i64>) -> bool {
    &&& config.eps_clip == Ticks(Some(eps))
    &&& config.dual_clip == match dual {
        Some(limit) => Some(Ticks(Some(limit))),
        None => None,
    }
    &&& 0 <= eps < i64::MAX
}

/// Whether the products of a surrogate are whole numbers that can be held.
pub open spec fn products_fit(eps: i64, dual: Option<i64>, ratio: i64, advantage: i64) -> bool {
    &&& fits(ratio * advantage)
    &&& fits((1 - eps) * advantage)
    &&& fits((1 + eps) * advantage)
    &&& dual is Some ==> fits(dual->Some_0 * advantage)
}

/// The surrogate of whole numbers is the advantage times the ratio that counts.
pub proof fn surrogates_clip_the_ratio(
    config: PpoLossConfig<Ticks>,
    eps: i64,
    dual: Option<i64>,
    ratio: i64,
    advantage: i64,
    result: Ticks,
)
    requires
        call_ensures(
            PpoLossConfig::<Ticks>::surrogate::<Ticks>,
            (&config, &Ticks(Some(ratio)), &Ticks(Some(advantage))),
            result,
        ),
        has_limits(config, eps, dual),
        products_fit(eps, dual, ratio, advantage),
    ensures
        result == ticks(
            counted_ratio(
                eps as int,
                match dual {
                    Some(limit) => Some(limit as int),
                    None => None,
                },
                ratio as int,
                advantage as int,
            ) * advantage,
        ),
        result.0 is Some,
{
    let (r, a, low, high) = (ratio as int, advantage as int, 1 - eps, 1 + eps);
    products_keep_order(r, high, a);
    products_keep_order(high, r, a);
    products_keep_order(r, low, a);
    products_keep_order(low, r, a);
    match dual {
        Some(limit) => {
            products_keep_order(r, limit as int, a);
            products_keep_order(limit as int, r, a);
            products_keep_order(low, limit as int, a);
            products_keep_order(limit as int, low, a);
            assert(a * limit == limit * a) by (nonlinear_arith);
        },
        None => {},
    }
}

/// Beyond its bound a ratio makes no difference: a gain is worth no more than the upper bound allows,
/// and two ratios that both lie above it give the same surrogate; so do two that lie below the lower
/// bound where something is lost.
pub proof fn surrogates_stop_at_the_bounds(
    config: PpoLossConfig<Ticks>,
    eps: i64,
    dual: Option<i64>,
    ratio: i64,
    other: i64,
    advantage: i64,
    result: Ticks,
    beside: Ticks,
)
    requires
        call_ensures(
            PpoLossConfig::<Ticks>::surrogate::<Ticks>,
            (&config, &Ticks(Some(ratio)), &Ticks(Some(advantage))),
            result,
        ),
        call_ensures(
            PpoLossConfig::<Ticks>::surrogate::<Ticks>,
            (&config, &Ticks(Some(other)), &Ticks(Some(advantage))),
            beside,
        ),
        has_limits(config, eps, dual),
        products_fit(eps, dual, ratio, advantage),
        products_fit(eps, dual, other, advantage),
    ensures
        advantage >= 0 ==> result.0->Some_0 <= (1 + eps) * advantage,
        advantage >= 0 && ratio >= 1 + eps && other >= 1 + eps ==> result == beside,
        advantage < 0 && ratio <= 1 - eps && other <= 1 - eps ==> result == beside,
        ratio <= other && advantage >= 0 ==> result.0->Some_0 <= beside.0->Some_0,
        1 - eps <= ratio <= 1 + eps && (advantage >= 0 || dual is None) ==> result.0->Some_0 == ratio * advantage,
        dual is Some && advantage < 0 ==> result.0->Some_0 >= dual->Some_0 * advantage,
{
    surrogates_clip_the_ratio(config, eps, dual, ratio, advantage, result);
    surrogates_clip_the_ratio(config, eps, dual, other, advantage, beside);
    let (r, o, a, low, high) = (ratio as int, other as int, advantage as int, 1 - eps, 1 + eps);
    products_keep_order(r, high, a);
    products_keep_order(r, o, a);
    match dual {
        Some(limit) => {
            products_keep_order(r, limit as int, a);
            products_keep_order(low, limit as int, a);
        },
        None => {},
    }
}

/// The part of the policy is the surrogate turned round: together they are nothing.
pub proof fn policies_lose_what_surrogates_gain(
    config: PpoLossConfig<Ticks>,
    ratio: i64,
    advantage: i64,
    gained: Ticks,
    lost: Ticks,
)
    requires
        call_ensures(
            PpoLossConfig::<Ticks>::surrogate::<Ticks>,
            (&config, &Ticks(Some(ratio)), &Ticks(Some(advantage))),
            gained,
        ),
        call_ensures(
            PpoLossConfig::<Ticks>::policy_part::<Ticks>,
            (&config, &Ticks(Some(ratio)), &Ticks(Some(advantage))),
            lost,
        ),
        gained.0 is Some && gained.0->Some_0 != i64::MIN,
    ensures
        lost.0 is Some && lost.0->Some_0 + gained.0->Some_0 == 0,
{
}

/// What is missing makes a surrogate missing.
pub proof fn missing_ratios_give_no_surrogate(
    config: PpoLossConfig<Ticks>,
    ratio: Ticks,
    advantage: Ticks,
    result: Ticks,
)
    requires
        call_ensures(PpoLossConfig::<Ticks>::surrogate::<Ticks>, (&config, &ratio, &advantage), result),
        ratio.0 is None || advantage.0 is None,
    ensures
        result.0 is None,
{
}

/// The square of a distance.
pub open spec fn square_distance(from: int, to: int) -> int {
    (to - from) * (to - from)
}

/// The old value moved toward a prediction by no more than the limit.
pub open spec fn moved_toward(old: int, predicted: int, eps: int) -> int {
    if predicted > old + eps {
        old + eps
    } else if predicted < old - eps {
        old - eps
    } else {
        predicted
    }
}

/// The error of a predicted whole number: the square of its distance from the return, unless values
/// are clipped and the old value, moved no further than the limit toward the prediction, lies further
/// from the return. An error is never negative, and clipping never makes it less.
pub proof fn value_errors_are_square_distances(
    config: PpoLossConfig<Ticks>,
    eps: i64,
    predicted: i64,
    old: Option<i64>,
    returned: i64,
    before: Option<&Ticks>,
    result: Ticks,
)
    requires
        call_ensures(
            PpoLossConfig::<Ticks>::value_error::<Ticks>,
            (&config, &Ticks(Some(predicted)), before, &Ticks(Some(returned))),
            result,
        ),
        before == match old {
            Some(value) => Some(&Ticks(Some(value))),
            None => None,
        },
        config.eps_clip == Ticks(Some(eps)),
        0 <= eps,
        fits(returned - predicted) && fits(square_distance(predicted as int, returned as int)),
        old is Some ==> fits(predicted - old->Some_0) && fits(old->Some_0 - eps) && fits(old->Some_0 + eps) && fits(
            returned - moved_toward(old->Some_0 as int, predicted as int, eps as int),
        ) && fits(
            square_distance(moved_toward(old->Some_0 as int, predicted as int, eps as int), returned as int),
        ),
    ensures
        result.0 is Some,
        result.0->Some_0 >= square_distance(predicted as int, returned as int) >= 0,
        old is None || !config.value_clip ==> result.0->Some_0 == square_distance(predicted as int, returned as int),
        old is Some && config.value_clip ==> ({
            let other = square_distance(moved_toward(old->Some_0 as int, predicted as int, eps as int), returned as int);
            &&& result.0->Some_0 >= other
            &&& result.0->Some_0 == other || result.0->Some_0 == square_distance(predicted as int, returned as int)
        }),
{
    let distance = returned - predicted;
    assert(distance * distance >= 0) by (nonlinear_arith);
}

/// The part of the values is their error where there is a single one.
pub proof fn single_values_are_their_part(
    config: PpoLossConfig<Ticks>,
    predicted: Ticks,
    before: Option<&Ticks>,
    returned: Ticks,
    error: Ticks,
    part: Ticks,
)
    requires
        call_ensures(
            PpoLossConfig::<Ticks>::value_error::<Ticks>,
            (&config, &predicted, before, &returned),
            error,
        ),
        call_ensures(PpoLossConfig::<Ticks>::value_part::<Ticks>, (&config, &predicted, before, &returned), part),
    ensures
        part == error,
{
}

/// A loss grows by the weight of the values with every unit of their part, falls by the weight of the
/// entropy with every unit of it, and is the part of the policy where the others are nothing.
pub proof fn losses_weigh_their_parts(
    config: PpoLossConfig<Ticks>,
    value_weight: i64,
    entropy_weight: i64,
    policy: i64,
    value: i64,
    entropy: i64,
    result: Ticks,
)
    requires
        call_ensures(
            PpoLossConfig::<Ticks>::total::<Ticks>,
            (&config, &Ticks(Some(policy)), &Ticks(Some(value)), &Ticks(Some(entropy))),
            result,
        ),
        config.value_weight == Ticks(Some(value_weight)),
        config.entropy_weight == Ticks(Some(entropy_weight)),
        fits(value_weight * value) && fits(entropy_weight * entropy),
        fits(policy + value_weight * value) && fits(policy + value_weight * value - entropy_weight * entropy),
    ensures
        result.0 is Some,
        result.0->Some_0 + entropy_weight * entropy == policy + value_weight * value,
{
    assert(value * value_weight == value_weight * value) by (nonlinear_arith);
    assert(entropy * entropy_weight == entropy_weight * entropy) by (nonlinear_arith);
}

/// The policy loses the mean of what the surrogates gain, the values lose the mean of their errors, and
/// nothing else of a minibatch is counted.
pub proof fn parts_are_means<V: Number, T: LossTerm<V>>(
    config: PpoLossConfig<V>,
    ratio: T,
    advantage: T,
    predicted: T,
    before: Option<&T>,
    returned: T,
    gained: T,
    lost: T,
    errors: T,
    part: T,
)
    requires
        call_ensures(PpoLossConfig::<V>::surrogate::<T>, (&config, &ratio, &advantage), gained),
        call_ensures(PpoLossConfig::<V>::policy_part::<T>, (&config, &ratio, &advantage), lost),
        call_ensures(PpoLossConfig::<V>::value_error::<T>, (&config, &predicted, before, &returned), errors),
        call_ensures(PpoLossConfig::<V>::value_part::<T>, (&config, &predicted, before, &returned), part),
    ensures
        lost == gained.mean_spec().negated_spec(),
        part == errors.mean_spec(),
{
}

} // verus!
