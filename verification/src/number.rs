//! The arithmetic that numeric code is written against.
//!
//! Numeric code in this crate never fixes a representation: it works on any [`Number`], and its
//! contracts name the operation that is applied to each value, in the order in which it is applied.
use vstd::prelude::*;

verus! {

/// A value with deterministic arithmetic and a notion of "missing".
///
/// The specification functions name what the operations give. An implementation outside of verified
/// code need not say what that is.
pub trait Number: Copy + Sized {
    /// Whether the value stands for a missing observation.
    open spec fn missing(self) -> bool {
        arbitrary()
    }

    /// The value that stands for a missing observation.
    open spec fn nothing_spec() -> Self {
        arbitrary()
    }

    open spec fn zero_spec() -> Self {
        arbitrary()
    }

    open spec fn one_spec() -> Self {
        arbitrary()
    }

    open spec fn count_spec(count: nat) -> Self {
        arbitrary()
    }

    open spec fn plus_spec(self, other: Self) -> Self {
        arbitrary()
    }

    open spec fn minus_spec(self, other: Self) -> Self {
        arbitrary()
    }

    open spec fn times_spec(self, other: Self) -> Self {
        arbitrary()
    }

    open spec fn over_spec(self, other: Self) -> Self {
        arbitrary()
    }

    open spec fn absolute_spec(self) -> Self {
        arbitrary()
    }

    /// Whether the value is strictly below the other one; false when either is missing.
    open spec fn below_spec(self, other: Self) -> bool {
        arbitrary()
    }

    /// Whether the two values compare equal; false when either is missing.
    open spec fn equals_spec(self, other: Self) -> bool {
        arbitrary()
    }

    fn is_missing(self) -> (result: bool)
        ensures
            result == self.missing(),
    ;

    fn nothing() -> (result: Self)
        ensures
            result == Self::nothing_spec(),
    ;

    fn zero() -> (result: Self)
        ensures
            result == Self::zero_spec(),
    ;

    fn one() -> (result: Self)
        ensures
            result == Self::one_spec(),
    ;

    /// The number of items in a collection.
    fn count(count: usize) -> (result: Self)
        ensures
            result == Self::count_spec(count as nat),
    ;

    fn plus(self, other: Self) -> (result: Self)
        ensures
            result == self.plus_spec(other),
    ;

    fn minus(self, other: Self) -> (result: Self)
        ensures
            result == self.minus_spec(other),
    ;

    fn times(self, other: Self) -> (result: Self)
        ensures
            result == self.times_spec(other),
    ;

    fn over(self, other: Self) -> (result: Self)
        ensures
            result == self.over_spec(other),
    ;

    fn absolute(self) -> (result: Self)
        ensures
            result == self.absolute_spec(),
    ;

    fn below(self, other: Self) -> (result: bool)
        ensures
            result == self.below_spec(other),
    ;

    fn equals(self, other: Self) -> (result: bool)
        ensures
            result == self.equals_spec(other),
    ;
}

/// A whole quantity, or nothing. An operation whose exact result is not a representable whole
/// number gives nothing, and so do any operation on nothing and a division that involves a
/// negative quantity.
#[derive(Clone, Copy, Debug, PartialEq, Eq, Structural)]
pub struct Ticks(pub Option<i64>);

/// Whether a whole number can be held.
pub open spec fn fits(value: int) -> bool {
    i64::MIN <= value <= i64::MAX
}

/// The quantity with the given exact value, where it is representable.
pub open spec fn ticks(value: int) -> Ticks {
    if i64::MIN <= value <= i64::MAX {
        Ticks(Some(value as i64))
    } else {
        Ticks(None)
    }
}

impl Number for Ticks {
    open spec fn missing(self) -> bool {
        self.0 is None
    }

    open spec fn nothing_spec() -> Self {
        Ticks(None)
    }

    open spec fn zero_spec() -> Self {
        Ticks(Some(0))
    }

    open spec fn one_spec() -> Self {
        Ticks(Some(1))
    }

    open spec fn count_spec(count: nat) -> Self {
        ticks(count as int)
    }

    open spec fn plus_spec(self, other: Self) -> Self {
        match (self.0, other.0) {
            (Some(a), Some(b)) => ticks(a + b),
            _ => Ticks(None),
        }
    }

    open spec fn minus_spec(self, other: Self) -> Self {
        match (self.0, other.0) {
            (Some(a), Some(b)) => ticks(a - b),
            _ => Ticks(None),
        }
    }

    open spec fn times_spec(self, other: Self) -> Self {
        match (self.0, other.0) {
            (Some(a), Some(b)) => ticks(a * b),
            _ => Ticks(None),
        }
    }

    open spec fn over_spec(self, other: Self) -> Self {
        match (self.0, other.0) {
            (Some(a), Some(b)) => if a >= 0 && b > 0 && a as int % b as int == 0 {
                ticks(a as int / b as int)
            } else {
                Ticks(None)
            },
            _ => Ticks(None),
        }
    }

    open spec fn absolute_spec(self) -> Self {
        match self.0 {
            Some(a) => ticks(if a < 0 { -a } else { a as int }),
            None => Ticks(None),
        }
    }

    open spec fn below_spec(self, other: Self) -> bool {
        match (self.0, other.0) {
            (Some(a), Some(b)) => a < b,
            _ => false,
        }
    }

    open spec fn equals_spec(self, other: Self) -> bool {
        match (self.0, other.0) {
            (Some(a), Some(b)) => a == b,
            _ => false,
        }
    }

    fn is_missing(self) -> bool {
        self.0.is_none()
    }

    fn nothing() -> Self {
        Ticks(None)
    }

    fn zero() -> Self {
        Ticks(Some(0))
    }

    fn one() -> Self {
        Ticks(Some(1))
    }

    fn count(count: usize) -> Self {
        if count as u64 <= i64::MAX as u64 {
            Ticks(Some(count as i64))
        } else {
            Ticks(None)
        }
    }

    fn plus(self, other: Self) -> Self {
        match (self.0, other.0) {
            (Some(a), Some(b)) => Ticks(a.checked_add(b)),
            _ => Ticks(None),
        }
    }

    fn minus(self, other: Self) -> Self {
        match (self.0, other.0) {
            (Some(a), Some(b)) => Ticks(a.checked_sub(b)),
            _ => Ticks(None),
        }
    }

    fn times(self, other: Self) -> Self {
        match (self.0, other.0) {
            (Some(a), Some(b)) => Ticks(a.checked_mul(b)),
            _ => Ticks(None),
        }
    }

    fn over(self, other: Self) -> Self {
        match (self.0, other.0) {
            (Some(a), Some(b)) => if a >= 0 && b > 0 && a % b == 0 {
                Ticks(Some(a / b))
            } else {
                Ticks(None)
            },
            _ => Ticks(None),
        }
    }

    fn absolute(self) -> Self {
        match self.0 {
            Some(a) => if a == i64::MIN {
                Ticks(None)
            } else if a < 0 {
                Ticks(Some(-a))
            } else {
                Ticks(Some(a))
            },
            None => Ticks(None),
        }
    }

    fn below(self, other: Self) -> bool {
        match (self.0, other.0) {
            (Some(a), Some(b)) => a < b,
            _ => false,
        }
    }

    fn equals(self, other: Self) -> bool {
        match (self.0, other.0) {
            (Some(a), Some(b)) => a == b,
            _ => false,
        }
    }
}

/// Left-to-right sum of a sequence, from zero.
pub open spec fn sum_of<V: Number>(values: Seq<V>) -> V
    decreases values.len(),
{
    if values.len() == 0 {
        V::zero_spec()
    } else {
        sum_of(values.drop_last()).plus_spec(values.last())
    }
}

/// The values that are not missing, in order.
pub open spec fn present<V: Number>(values: Seq<V>) -> Seq<V> {
    values.filter(|value: V| !value.missing())
}

/// The absolute values of a sequence.
pub open spec fn absolutes<V: Number>(values: Seq<V>) -> Seq<V> {
    values.map_values(|value: V| value.absolute_spec())
}

/// The mean of the values that are not missing; missing when there are none.
pub open spec fn mean_of_present<V: Number>(values: Seq<V>) -> V {
    if present_count(values) == 0 {
        V::nothing_spec()
    } else {
        sum_of(present(values)).over_spec(V::count_spec(present_count(values)))
    }
}

/// How the values that are not missing grow by one value.
pub proof fn present_push<V: Number>(values: Seq<V>, value: V)
    ensures
        present(values.push(value)) == if value.missing() {
            present(values)
        } else {
            present(values).push(value)
        },
{
    reveal(Seq::filter);
    assert(values.push(value).drop_last() =~= values);
}

/// How a sum grows by one value.
pub proof fn sum_push<V: Number>(values: Seq<V>, value: V)
    ensures
        sum_of(values.push(value)) == sum_of(values).plus_spec(value),
{
    assert(values.push(value).drop_last() =~= values);
}

/// The number of values that are not missing.
pub fn non_nan_count<V: Number>(values: &[V]) -> (result: usize)
    ensures
        result == present_count(values@),
{
    let mut count: usize = 0;
    let mut i: usize = 0;
    proof {
        reveal(Seq::filter);
    }
    while i < values.len()
        invariant
            i <= values@.len(),
            count == present(values@.take(i as int)).len(),
            count <= i,
        decreases values@.len() - i,
    {
        proof {
            present_push(values@.take(i as int), values@[i as int]);
            assert(values@.take(i + 1) =~= values@.take(i as int).push(values@[i as int]));
        }
        if !values[i].is_missing() {
            count += 1;
        }
        i += 1;
    }
    assert(values@.take(i as int) =~= values@);
    count
}

/// The sum of the values that are not missing.
pub fn sum_present<V: Number>(values: &[V]) -> (result: V)
    ensures
        result == sum_of(present(values@)),
{
    let mut sum: V = V::zero();
    let mut i: usize = 0;
    proof {
        reveal(Seq::filter);
    }
    while i < values.len()
        invariant
            i <= values@.len(),
            sum == sum_of(present(values@.take(i as int))),
        decreases values@.len() - i,
    {
        proof {
            present_push(values@.take(i as int), values@[i as int]);
            sum_push(present(values@.take(i as int)), values@[i as int]);
            assert(values@.take(i + 1) =~= values@.take(i as int).push(values@[i as int]));
        }
        if !values[i].is_missing() {
            sum = sum.plus(values[i]);
        }
        i += 1;
    }
    assert(values@.take(i as int) =~= values@);
    sum
}

/// The sum of the absolute values that are not missing.
pub fn sum_abs<V: Number>(values: &[V]) -> (result: V)
    ensures
        result == sum_of(absolutes(present(values@))),
{
    let mut sum: V = V::zero();
    let mut i: usize = 0;
    proof {
        reveal(Seq::filter);
        assert(absolutes(present(values@.take(0))) =~= Seq::<V>::empty());
    }
    while i < values.len()
        invariant
            i <= values@.len(),
            sum == sum_of(absolutes(present(values@.take(i as int)))),
        decreases values@.len() - i,
    {
        proof {
            let narrow = present(values@.take(i as int));
            present_push(values@.take(i as int), values@[i as int]);
            sum_push(absolutes(narrow), values@[i as int].absolute_spec());
            assert(values@.take(i + 1) =~= values@.take(i as int).push(values@[i as int]));
            assert(absolutes(narrow.push(values@[i as int])) =~= absolutes(narrow).push(
                values@[i as int].absolute_spec(),
            ));
        }
        if !values[i].is_missing() {
            sum = sum.plus(values[i].absolute());
        }
        i += 1;
    }
    assert(values@.take(i as int) =~= values@);
    sum
}

/// The mean of the values that are not missing; missing when there are none.
pub fn nan_mean<V: Number>(values: &[V]) -> (result: V)
    ensures
        result == mean_of_present(values@),
{
    let count: usize = non_nan_count(values);
    if count == 0 {
        V::nothing()
    } else {
        sum_present(values).over(V::count(count))
    }
}

/// The number of values that are not missing.
pub open spec fn present_count<V: Number>(values: Seq<V>) -> nat {
    present(values).len()
}

// ---- whole quantities -------------------------------------------------------------------------

/// The number that a quantity holds.
pub open spec fn held(value: Ticks) -> int {
    value.0->Some_0 as int
}

/// Whether no quantity of a list is missing.
pub open spec fn all_held(values: Seq<Ticks>) -> bool {
    forall|i: int| 0 <= i < values.len() ==> (#[trigger] values[i]).0 is Some
}

/// What the quantities of a list come to together.
pub open spec fn total(values: Seq<Ticks>) -> int
    decreases values.len(),
{
    if values.len() == 0 {
        0
    } else {
        total(values.drop_last()) + held(values.last())
    }
}

/// What the squares of the distances of some quantities from a number come to together.
pub open spec fn total_squares(values: Seq<Ticks>, center: int) -> int
    decreases values.len(),
{
    if values.len() == 0 {
        0
    } else {
        total_squares(values.drop_last(), center) + (held(values.last()) - center) * (held(values.last()) - center)
    }
}

/// Quantities that are all there are all present.
pub proof fn held_quantities_are_present(values: Seq<Ticks>)
    requires
        all_held(values),
    ensures
        present(values) == values,
    decreases values.len(),
{
    reveal(Seq::filter);
    if values.len() > 0 {
        let fewer = values.drop_last();
        assert(all_held(fewer)) by {
            assert forall|i: int| 0 <= i < fewer.len() implies (#[trigger] fewer[i]).0 is Some by {
                assert(values[i].0 is Some);
            }
        }
        held_quantities_are_present(fewer);
        assert(values.last().0 is Some);
        assert(fewer.push(values.last()) =~= values);
        present_push(fewer, values.last());
    } else {
        assert(present(values) =~= values);
    }
}

/// A sum that can be held is what its quantities come to, and none of them is missing.
pub proof fn sums_are_totals(values: Seq<Ticks>)
    requires
        sum_of(values).0 is Some,
    ensures
        all_held(values),
        held(sum_of(values)) == total(values),
    decreases values.len(),
{
    if values.len() > 0 {
        let fewer = values.drop_last();
        sums_are_totals(fewer);
        assert forall|i: int| 0 <= i < values.len() implies (#[trigger] values[i]).0 is Some by {
            if i < fewer.len() {
                assert(fewer[i].0 is Some);
            }
        }
    }
}

/// A mean that is there, taken as often as there are quantities, is what they come to together.
pub proof fn means_balance(values: &[Ticks], result: Ticks)
    requires
        call_ensures(nan_mean::<Ticks>, (values,), result),
        all_held(values@),
        result.0 is Some,
    ensures
        values@.len() > 0,
        held(result) * values@.len() == total(values@),
{
    held_quantities_are_present(values@);
    sums_are_totals(values@);
    let (sum, count) = (held(sum_of(values@)), values@.len() as int);
    vstd::arithmetic::div_mod::lemma_fundamental_div_mod(sum, count);
    assert(count * (sum / count) == (sum / count) * count) by (nonlinear_arith);
}

/// What is missing does not count: a mean is the same with further missing values.
pub proof fn missing_values_do_not_count<V: Number>(values: &[V], more: &[V], result: V, beside: V)
    requires
        call_ensures(nan_mean::<V>, (values,), result),
        call_ensures(nan_mean::<V>, (more,), beside),
        more@.len() == values@.len() + 1,
        more@.drop_last() == values@,
        more@.last().missing(),
    ensures
        result == beside,
{
    present_push(values@, more@.last());
    assert(values@.push(more@.last()) =~= more@);
}

/// The sum of the present quantities is what they come to, and that of their sizes what they come to
/// without their signs.
pub proof fn present_sums_are_totals(values: &[Ticks], sum: Ticks, sizes: Ticks, count: usize)
    requires
        call_ensures(sum_present::<Ticks>, (values,), sum),
        call_ensures(sum_abs::<Ticks>, (values,), sizes),
        call_ensures(non_nan_count::<Ticks>, (values,), count),
        all_held(values@),
    ensures
        sum.0 is Some ==> held(sum) == total(values@),
        sizes.0 is Some && sum.0 is Some ==> held(sizes) >= held(sum) && held(sizes) >= -held(sum),
        sizes.0 is Some ==> held(sizes) >= 0,
        count == values@.len(),
{
    held_quantities_are_present(values@);
    if sum.0 is Some {
        sums_are_totals(values@);
    }
    if sizes.0 is Some {
        sizes_bound_sums(values@);
    }
}

proof fn sizes_bound_sums(values: Seq<Ticks>)
    requires
        all_held(values),
        sum_of(absolutes(values)).0 is Some,
    ensures
        held(sum_of(absolutes(values))) >= total(values),
        held(sum_of(absolutes(values))) >= -total(values),
    decreases values.len(),
{
    if values.len() > 0 {
        let fewer = values.drop_last();
        assert(absolutes(values).drop_last() =~= absolutes(fewer));
        assert forall|i: int| 0 <= i < fewer.len() implies (#[trigger] fewer[i]).0 is Some by {
            assert(values[i].0 is Some);
        }
        sizes_bound_sums(fewer);
        assert(values.last().0 is Some);
    }
}

/// A quotient that is there gives its dividend back.
pub proof fn quotients_undo(dividend: Ticks, divisor: Ticks)
    requires
        dividend.over_spec(divisor).0 is Some,
    ensures
        dividend.0 is Some && divisor.0 is Some && held(divisor) > 0,
        held(dividend.over_spec(divisor)) * held(divisor) == held(dividend),
{
    let (a, b) = (held(dividend), held(divisor));
    vstd::arithmetic::div_mod::lemma_fundamental_div_mod(a, b);
    assert(b * (a / b) == (a / b) * b) by (nonlinear_arith);
}

/// What several quantities come to together, without those that are missing.
pub open spec fn present_total(values: Seq<Ticks>) -> int
    decreases values.len(),
{
    if values.len() == 0 {
        0
    } else {
        present_total(values.drop_last()) + if values.last().0 is Some {
            held(values.last())
        } else {
            0
        }
    }
}

/// What is missing does not count in a sum either, with or without signs: sums are the same with further
/// missing values, and so is the number of values that are there.
pub proof fn missing_values_add_nothing<V: Number>(
    values: &[V],
    more: &[V],
    sums: (V, V),
    sizes: (V, V),
    counts: (usize, usize),
)
    requires
        call_ensures(sum_present::<V>, (values,), sums.0),
        call_ensures(sum_present::<V>, (more,), sums.1),
        call_ensures(sum_abs::<V>, (values,), sizes.0),
        call_ensures(sum_abs::<V>, (more,), sizes.1),
        call_ensures(non_nan_count::<V>, (values,), counts.0),
        call_ensures(non_nan_count::<V>, (more,), counts.1),
        more@.len() == values@.len() + 1,
        more@.drop_last() == values@,
    ensures
        more@.last().missing() ==> sums.0 == sums.1 && sizes.0 == sizes.1 && counts.0 == counts.1,
        !more@.last().missing() ==> sums.1 == sums.0.plus_spec(more@.last()) && sizes.1 == sizes.0.plus_spec(
            more@.last().absolute_spec(),
        ) && counts.1 == counts.0 + 1,
{
    let last = more@.last();
    present_push(values@, last);
    assert(values@.push(last) =~= more@);
    if !last.missing() {
        let before = present(values@);
        sum_push(before, last);
        assert(absolutes(before.push(last)) =~= absolutes(before).push(last.absolute_spec()));
        sum_push(absolutes(before), last.absolute_spec());
    }
}

} // verus!
