//! Return targets out of evaluated values, with running normalization.
use crate::number::{
    all_held, fits, held, held_quantities_are_present, quotients_undo, sum_of, sums_are_totals, total, total_squares, Number, Ticks,
};
use crate::rl_candle_network::DType;
use crate::rl_episodic_return::{
    advantage_from, batch_ends, batch_errors, episodic_returns, wrong_length, EpisodicReturnError, EpisodicReturnInput,
    EpisodicReturns,
};
use crate::risk_analysis::Statistic;
use vstd::prelude::*;

verus! {

/// The arithmetic of return statistics.
pub trait ReturnNumber: Statistic {
    /// The mean of an array, which need not be added up from left to right; missing without values.
    open spec fn array_mean_spec(values: Seq<Self>) -> Self {
        arbitrary()
    }

    /// The small amount that keeps a variance away from zero.
    open spec fn floor_spec() -> Self {
        arbitrary()
    }

    fn array_mean(values: &Vec<Self>) -> (result: Self)
        ensures
            result == Self::array_mean_spec(values@),
    ;

    fn floor() -> (result: Self)
        ensures
            result == Self::floor_spec(),
    ;
}

impl ReturnNumber for Ticks {
    open spec fn array_mean_spec(values: Seq<Self>) -> Self {
        crate::number::mean_of_present(values)
    }

    open spec fn floor_spec() -> Self {
        Ticks(Some(0))
    }

    fn array_mean(values: &Vec<Self>) -> (result: Self) {
        crate::number::nan_mean(values.as_slice())
    }

    fn floor() -> (result: Self) {
        Ticks(Some(0))
    }
}

/// The distribution of returns so far.
#[derive(Clone, Copy, Debug, PartialEq)]
pub struct ReturnStatistics<V> {
    pub mean: V,
    pub variance: V,
    pub count: usize,
}

/// The squares of the distances of values from a mean.
pub open spec fn squared_distances<V: Number>(values: Seq<V>, mean: V) -> Seq<V> {
    values.map_values(|value: V| value.minus_spec(mean).times_spec(value.minus_spec(mean)))
}

/// The distribution of returns after another batch.
pub open spec fn merged<V: ReturnNumber>(statistics: ReturnStatistics<V>, values: Seq<V>) -> ReturnStatistics<V> {
    let batch_mean = V::array_mean_spec(values);
    let batch_variance = V::array_mean_spec(squared_distances(values, batch_mean));
    let batch_count = V::count_spec(values.len());
    let old_count = V::count_spec(statistics.count as nat);
    let total_count = old_count.plus_spec(batch_count);
    let delta = batch_mean.minus_spec(statistics.mean);
    let moment = statistics.variance.times_spec(old_count).plus_spec(
        batch_variance.times_spec(batch_count),
    ).plus_spec(delta.times_spec(delta).times_spec(old_count).times_spec(batch_count).over_spec(total_count));
    ReturnStatistics {
        mean: statistics.mean.plus_spec(delta.times_spec(batch_count).over_spec(total_count)),
        variance: moment.over_spec(total_count),
        count: (statistics.count + values.len()) as usize,
    }
}

impl<V: ReturnNumber> Default for ReturnStatistics<V> {
    fn default() -> (result: Self)
        ensures
            result == (ReturnStatistics::<V> { mean: V::zero_spec(), variance: V::one_spec(), count: 0 }),
    {
        ReturnStatistics { mean: V::zero(), variance: V::one(), count: 0 }
    }
}

impl<V: ReturnNumber> ReturnStatistics<V> {
    /// Takes in a batch of returns, the first as any other.
    pub fn update(&mut self, values: &Vec<V>)
        requires
            old(self).count + values@.len() <= usize::MAX,
        ensures
            *final(self) == merged(*old(self), values@),
    {
        let batch_mean: V = V::array_mean(values);
        let mut squares: Vec<V> = Vec::new();
        let mut i: usize = 0;
        while i < values.len()
            invariant
                i <= values@.len(),
                squares@ == squared_distances(values@, batch_mean).take(i as int),
            decreases values@.len() - i,
        {
            let distance: V = values[i].minus(batch_mean);
            squares.push(distance.times(distance));
            i += 1;
            assert(squares@ =~= squared_distances(values@, batch_mean).take(i as int));
        }
        assert(squares@ =~= squared_distances(values@, batch_mean));
        let batch_variance: V = V::array_mean(&squares);
        let batch_count: V = V::count(values.len());
        let old_count: V = V::count(self.count);
        let total_count: V = old_count.plus(batch_count);
        let delta: V = batch_mean.minus(self.mean);
        let moment: V = self.variance.times(old_count).plus(batch_variance.times(batch_count)).plus(
            delta.times(delta).times(old_count).times(batch_count).over(total_count),
        );
        self.mean = self.mean.plus(delta.times(batch_count).over(total_count));
        self.variance = moment.over(total_count);
        self.count = self.count + values.len();
    }

    /// By how much values are scaled: the root of the variance, kept away from zero.
    pub open spec fn scale_spec(self) -> V {
        self.variance.plus_spec(V::floor_spec()).root_spec()
    }

    /// By how much values are scaled.
    pub fn scale(&self) -> (result: V)
        ensures
            result == self.scale_spec(),
    {
        self.variance.plus(V::floor()).root()
    }
}

/// Why targets cannot be prepared.
#[derive(Debug)]
pub enum CandleReturnError {
    /// There is no transition.
    Empty,
    /// The values are not all of single or all of double precision.
    Dtype,
    Episodic(EpisodicReturnError),
}

/// What is said of a failure.
pub open spec fn return_words(error: CandleReturnError) -> Seq<char> {
    match error {
        CandleReturnError::Empty => "return preparation requires a nonempty batch"@,
        CandleReturnError::Dtype => "critic values must both use the same F32 or F64 dtype"@,
        CandleReturnError::Episodic(error) => crate::rl_episodic_return::episodic_words(error),
    }
}

impl CandleReturnError {
    /// What is said of the failure.
    pub fn message(&self) -> (result: String)
        ensures
            result@ == return_words(*self),
    {
        match self {
            CandleReturnError::Empty => "return preparation requires a nonempty batch".to_owned(),
            CandleReturnError::Dtype => "critic values must both use the same F32 or F64 dtype".to_owned(),
            CandleReturnError::Episodic(error) => error.message(),
        }
    }
}

/// Looks at a batch before its values are read.
pub fn check_returns(rewards: usize, values: DType, next_values: DType) -> (result: Result<(), CandleReturnError>)
    ensures
        if rewards == 0 {
            result == Err::<(), _>(CandleReturnError::Empty)
        } else if (values != DType::F32 && values != DType::F64) || values != next_values {
            result == Err::<(), _>(CandleReturnError::Dtype)
        } else {
            result is Ok
        },
{
    if rewards == 0 {
        return Err(CandleReturnError::Empty);
    }
    if (values != DType::F32 && values != DType::F64) || values != next_values {
        return Err(CandleReturnError::Dtype);
    }
    Ok(())
}

/// Each value divided by a scale.
pub open spec fn scaled_down<V: Number>(values: Seq<V>, scale: V) -> Seq<V> {
    values.map_values(|value: V| value.over_spec(scale))
}

/// The advantages of a batch.
pub open spec fn batch_advantages<V: Number>(input: EpisodicReturnInput<V>, gamma: V, gae_lambda: V) -> Seq<V> {
    Seq::new(
        input.rewards@.len(),
        |i: int| advantage_from(batch_errors(input, gamma), batch_ends(input), gamma.times_spec(gae_lambda), i),
    )
}

/// The returns of a batch before normalization.
pub open spec fn plain_returns<V: Number>(input: EpisodicReturnInput<V>, gamma: V, gae_lambda: V) -> Seq<V> {
    Seq::new(
        input.rewards@.len(),
        |i: int| batch_advantages(input, gamma, gae_lambda)[i].plus_spec(input.values->Some_0@[i]),
    )
}

/// Prepares the targets of a batch, whose values and next values were scaled up by
/// [`ReturnStatistics::scale`] where returns are normalized. The returns are scaled down by the
/// same amount, and only then do the statistics take the plain returns in. The mean is never
/// taken off, and the advantages stay as they are.
pub fn prepare_returns<V: ReturnNumber>(
    input: &EpisodicReturnInput<V>,
    gamma: V,
    gae_lambda: V,
    lambda_is_one: bool,
    statistics: &mut ReturnStatistics<V>,
    normalizes: bool,
) -> (result: Result<EpisodicReturns<V>, CandleReturnError>)
    requires
        input.rewards@.len() > 0,
        input.values is Some,
        input.next_values is Some,
        normalizes ==> old(statistics).count + input.rewards@.len() <= usize::MAX,
    ensures
        match result {
            Err(error) => {
                &&& wrong_length(*input) is Some || input.values->Some_0@.len() != input.rewards@.len()
                &&& error matches CandleReturnError::Episodic(EpisodicReturnError::Length { field, actual, expected })
                    && expected == input.rewards@.len() && match wrong_length(*input) {
                    Some(wrong) => field@ == wrong.0 && actual == wrong.1,
                    None => field@ == "values"@ && actual == input.values->Some_0@.len(),
                }
                &&& *final(statistics) == *old(statistics)
            },
            Ok(prepared) => {
                &&& wrong_length(*input) is None && input.values->Some_0@.len() == input.rewards@.len()
                &&& prepared.advantages@ == batch_advantages(*input, gamma, gae_lambda)
                &&& if normalizes {
                    &&& prepared.returns@ == scaled_down(
                        plain_returns(*input, gamma, gae_lambda),
                        old(statistics).scale_spec(),
                    )
                    &&& *final(statistics) == merged(*old(statistics), plain_returns(*input, gamma, gae_lambda))
                } else {
                    &&& prepared.returns@ == plain_returns(*input, gamma, gae_lambda)
                    &&& *final(statistics) == *old(statistics)
                }
            },
        },
{
    let prepared = match episodic_returns(input, gamma, gae_lambda, lambda_is_one) {
        Ok(prepared) => prepared,
        Err(error) => return Err(CandleReturnError::Episodic(error)),
    };
    assert(prepared.advantages@ =~= batch_advantages(*input, gamma, gae_lambda));
    assert(prepared.returns@ =~= plain_returns(*input, gamma, gae_lambda));
    if !normalizes {
        return Ok(prepared);
    }
    let scale: V = statistics.scale();
    let mut normalized: Vec<V> = Vec::new();
    let mut i: usize = 0;
    while i < prepared.returns.len()
        invariant
            i <= prepared.returns@.len(),
            normalized@ == scaled_down(prepared.returns@, scale).take(i as int),
        decreases prepared.returns@.len() - i,
    {
        normalized.push(prepared.returns[i].over(scale));
        i += 1;
        assert(normalized@ =~= scaled_down(prepared.returns@, scale).take(i as int));
    }
    assert(normalized@ =~= scaled_down(prepared.returns@, scale));
    statistics.update(&prepared.returns);
    Ok(EpisodicReturns { returns: normalized, advantages: prepared.advantages })
}

/// Statistics count every return that they took in.
pub proof fn statistics_count_returns<V: ReturnNumber>(statistics: ReturnStatistics<V>, values: Seq<V>)
    requires
        statistics.count + values.len() <= usize::MAX,
    ensures
        merged(statistics, values).count == statistics.count + values.len(),
{
}

// ---- laws -------------------------------------------------------------------------------------

/// Squared distances that can be held come to the total of the squares.
proof fn distances_total(values: Seq<Ticks>, center: i64)
    requires
        all_held(values),
        forall|i: int|
            0 <= i < values.len() ==> fits(held(#[trigger] values[i]) - center) && fits(
                (held(values[i]) - center) * (held(values[i]) - center),
            ),
    ensures
        all_held(squared_distances(values, Ticks(Some(center)))),
        total(squared_distances(values, Ticks(Some(center)))) == total_squares(values, center as int),
    decreases values.len(),
{
    let squares = squared_distances(values, Ticks(Some(center)));
    assert forall|i: int| 0 <= i < squares.len() implies (#[trigger] squares[i]).0 is Some && held(squares[i]) == (held(
        values[i],
    ) - center) * (held(values[i]) - center) by {
        assert(values[i].0 is Some);
    }
    if values.len() > 0 {
        let fewer = values.drop_last();
        assert forall|i: int| 0 <= i < fewer.len() implies (#[trigger] fewer[i]).0 is Some && fits(
            held(fewer[i]) - center,
        ) && fits((held(fewer[i]) - center) * (held(fewer[i]) - center)) by {
            assert(values[i].0 is Some);
        }
        distances_total(fewer, center);
        assert(squares.drop_last() =~= squared_distances(fewer, Ticks(Some(center))));
        assert(held(squares.last()) == (held(values.last()) - center) * (held(values.last()) - center));
    }
}

/// The mean of some quantities, taken as often as there are any, is what they come to.
proof fn array_means_balance(values: Seq<Ticks>)
    requires
        all_held(values),
        Ticks::array_mean_spec(values).0 is Some,
    ensures
        values.len() > 0,
        held(Ticks::array_mean_spec(values)) * values.len() == total(values),
{
    held_quantities_are_present(values);
    sums_are_totals(values);
    let (sum, count) = (held(sum_of(values)), values.len() as int);
    vstd::arithmetic::div_mod::lemma_fundamental_div_mod(sum, count);
    assert(count * (sum / count) == (sum / count) * count) by (nonlinear_arith);
}

/// Squares about a center and about zero: they differ by what the center takes with it.
proof fn squares_move(values: Seq<Ticks>, center: int)
    ensures
        total_squares(values, center) == total_squares(values, 0) - 2 * center * total(values) + values.len() * (center
            * center),
    decreases values.len(),
{
    if values.len() > 0 {
        let fewer = values.drop_last();
        squares_move(fewer, center);
        let last = held(values.last());
        let (count, sum) = (fewer.len() as int, total(fewer));
        assert((last - center) * (last - center) == last * last - 2 * center * last + center * center)
            by (nonlinear_arith);
        assert((count + 1) * (center * center) == count * (center * center) + center * center) by (nonlinear_arith);
        assert(2 * center * (sum + last) == 2 * center * sum + 2 * center * last) by (nonlinear_arith);
        assert((last - 0) * (last - 0) == last * last);
    } else {
        assert(0 * (center * center) == 0);
        assert(2 * center * 0 == 0);
    }
}

/// What all returns so far come to together.
pub open spec fn first_moment(statistics: ReturnStatistics<Ticks>) -> int {
    held(statistics.mean) * statistics.count
}

/// What the squares of all returns so far come to together.
pub open spec fn second_moment(statistics: ReturnStatistics<Ticks>) -> int {
    (held(statistics.variance) + held(statistics.mean) * held(statistics.mean)) * statistics.count
}

/// Statistics that take in a batch stand for all returns so far together. Their count grows by that of
/// the batch; their mean, taken as often as they count, grows by what the batch comes to; and their
/// variance about zero, taken as often, grows by the squares of the batch.
pub proof fn statistics_stand_for_all_returns(
    statistics: &mut ReturnStatistics<Ticks>,
    values: Vec<Ticks>,
    batch_mean: i64,
)
    requires
        call_ensures(ReturnStatistics::<Ticks>::update, (statistics, &values), ()),
        old(statistics).count + values@.len() <= usize::MAX,
        all_held(values@),
        final(statistics).mean.0 is Some,
        final(statistics).variance.0 is Some,
        batch_mean * values@.len() == total(values@),
        forall|i: int|
            0 <= i < values@.len() ==> fits(held(#[trigger] values@[i]) - batch_mean) && fits(
                (held(values@[i]) - batch_mean) * (held(values@[i]) - batch_mean),
            ),
    ensures
        final(statistics).count == old(statistics).count + values@.len(),
        first_moment(*final(statistics)) == first_moment(*old(statistics)) + total(values@),
        second_moment(*final(statistics)) == second_moment(*old(statistics)) + total_squares(values@, 0),
{
    let before = *old(statistics);
    let after = merged(before, values@);
    assert(*final(statistics) == after);
    let mean = Ticks::array_mean_spec(values@);
    let old_count = Ticks::count_spec(before.count as nat);
    let batch_count = Ticks::count_spec(values@.len());
    let total_count = old_count.plus_spec(batch_count);
    let delta = mean.minus_spec(before.mean);
    assert(delta.0 is Some && mean.0 is Some && before.mean.0 is Some);
    array_means_balance(values@);
    let (m, n, b) = (values@.len() as int, before.count as int, batch_mean as int);
    assert(held(mean) == b) by (nonlinear_arith)
        requires
            held(mean) * m == b * m,
            m > 0,
    ;
    assert(mean == Ticks(Some(batch_mean)));
    let squares = squared_distances(values@, mean);
    distances_total(values@, batch_mean);
    let spread = Ticks::array_mean_spec(squares);
    let shift = delta.times_spec(batch_count);
    quotients_undo(shift, total_count);
    let cross = delta.times_spec(delta).times_spec(old_count).times_spec(batch_count);
    let moment = before.variance.times_spec(old_count).plus_spec(spread.times_spec(batch_count)).plus_spec(
        cross.over_spec(total_count),
    );
    quotients_undo(moment, total_count);
    quotients_undo(cross, total_count);
    assert(spread.0 is Some);
    array_means_balance(squares);
    squares_move(values@, b);
    let (u, v, d) = (held(before.mean), held(before.variance), b - held(before.mean));
    let (sum, q) = (total(values@), total_squares(values@, 0));
    let (w, e) = (held(after.mean), held(after.variance));
    let (s, c) = (held(shift.over_spec(total_count)), held(cross.over_spec(total_count)));
    assert(held(total_count) == n + m);
    assert(w == u + s);
    assert(w * (n + m) == u * n + sum) by (nonlinear_arith)
        requires
            w == u + s,
            s * (n + m) == d * m,
            d == b - u,
            b * m == sum,
    ;
    let spreads = held(spread) * m;
    assert(spreads == q - 2 * b * sum + m * (b * b));
    assert(spreads == q - m * (b * b)) by (nonlinear_arith)
        requires
            spreads == q - 2 * b * sum + m * (b * b),
            b * m == sum,
    ;
    assert(held(moment) == v * n + spreads + c);
    assert(c * (n + m) == d * d * n * m);
    moments_add_up(n, m, u, v, b, d, w, e, c, sum, q);
}

/// The moments of two groups and of both together.
proof fn moments_add_up(
    n: int,
    m: int,
    u: int,
    v: int,
    b: int,
    d: int,
    w: int,
    e: int,
    c: int,
    sum: int,
    q: int,
)
    requires
        n >= 0,
        m > 0,
        d == b - u,
        b * m == sum,
        w * (n + m) == u * n + sum,
        c * (n + m) == d * d * n * m,
        e * (n + m) == v * n + (q - m * (b * b)) + c,
    ensures
        (e + w * w) * (n + m) == (v + u * u) * n + q,
{
    let t = n + m;
    let left = (e + w * w) * t;
    let right = (v + u * u) * n + q;
    let (x, y) = (u * n, b * m);
    assert(left * t == (e * t) * t + (w * t) * (w * t)) by (nonlinear_arith)
        requires
            left == (e + w * w) * t,
    ;
    assert((e * t) * t == (v * n + q - m * (b * b)) * t + d * d * n * m) by (nonlinear_arith)
        requires
            e * t == v * n + (q - m * (b * b)) + c,
            c * t == d * d * n * m,
    ;
    assert((w * t) * (w * t) == (x + y) * (x + y));
    let (p, r, z, k) = (u * u, b * b, u * b, n * m);
    assert(d * d == r - 2 * z + p) by (nonlinear_arith)
        requires
            d == b - u,
            p == u * u,
            r == b * b,
            z == u * b,
    ;
    assert(d * d * n * m == (d * d) * k) by (nonlinear_arith)
        requires
            k == n * m,
    ;
    assert((d * d) * k == r * k - 2 * (z * k) + p * k) by (nonlinear_arith)
        requires
            d * d == r - 2 * z + p,
    ;
    assert((x + y) * (x + y) == x * x + 2 * (x * y) + y * y) by (nonlinear_arith);
    assert(x * x == p * (n * n) && y * y == r * (m * m) && x * y == z * k) by (nonlinear_arith)
        requires
            x == u * n,
            y == b * m,
            p == u * u,
            r == b * b,
            z == u * b,
            k == n * m,
    ;
    let (f, g) = (p * n, m * r);
    assert((f + g) * (n + m) == f * n + f * m + g * n + g * m) by (nonlinear_arith);
    assert(f * n == p * (n * n) && f * m == p * k) by (nonlinear_arith)
        requires
            f == p * n,
            k == n * m,
    ;
    assert(g * n == r * k && g * m == r * (m * m)) by (nonlinear_arith)
        requires
            g == m * r,
            k == n * m,
    ;
    assert((v * n + q - m * (b * b)) * t + (u * u * n + m * (b * b)) * t == right * t) by (nonlinear_arith)
        requires
            right == (v + u * u) * n + q,
    ;
    assert(left * t == right * t);
    assert(left == right) by (nonlinear_arith)
        requires
            left * t == right * t,
            t > 0,
    ;
}

/// Normalized returns, scaled up again by the deviation of the returns before the batch, are the plain
/// ones. Without normalization nothing is scaled and no statistics change; advantages never are.
pub proof fn normalized_returns_scale_back(
    input: EpisodicReturnInput<Ticks>,
    gamma: Ticks,
    gae_lambda: Ticks,
    lambda_is_one: bool,
    statistics: &mut ReturnStatistics<Ticks>,
    normalizes: bool,
    prepared: Result<EpisodicReturns<Ticks>, CandleReturnError>,
    plain: Result<EpisodicReturns<Ticks>, EpisodicReturnError>,
    place: int,
)
    requires
        call_ensures(
            prepare_returns::<Ticks>,
            (&input, gamma, gae_lambda, lambda_is_one, statistics, normalizes),
            prepared,
        ),
        call_ensures(episodic_returns::<Ticks>, (&input, gamma, gae_lambda, lambda_is_one), plain),
        input.values is Some && input.next_values is Some,
        normalizes ==> old(statistics).count + input.rewards@.len() <= usize::MAX,
        0 <= place < input.rewards@.len(),
    ensures
        prepared is Ok <==> plain is Ok,
        prepared is Ok ==> prepared->Ok_0.advantages@ == plain->Ok_0.advantages@,
        prepared is Ok && !normalizes ==> prepared->Ok_0.returns@ == plain->Ok_0.returns@,
        prepared is Ok && normalizes && prepared->Ok_0.returns@[place].0 is Some ==> {
            let (small, large) = (held(prepared->Ok_0.returns@[place]), held(plain->Ok_0.returns@[place]));
            old(statistics).variance.0 is Some && small * small * held(old(statistics).variance) == large * large
        },
        prepared is Ok && normalizes ==> final(statistics).count == old(statistics).count + input.rewards@.len(),
        prepared is Err || !normalizes ==> *final(statistics) == *old(statistics),
{
    if prepared is Ok {
        assert(plain->Ok_0.advantages@ =~= batch_advantages(input, gamma, gae_lambda));
        assert(plain->Ok_0.returns@ =~= plain_returns(input, gamma, gae_lambda));
        if normalizes && prepared->Ok_0.returns@[place].0 is Some {
            let scale = old(statistics).scale_spec();
            let large = plain->Ok_0.returns@[place];
            assert(prepared->Ok_0.returns@[place] == large.over_spec(scale));
            quotients_undo(large, scale);
            let small = held(large.over_spec(scale));
            let (root, variance) = (held(scale), held(old(statistics).variance));
            assert(root == variance && (root == 0 || root == 1));
            assert(root * root == root) by (nonlinear_arith)
                requires
                    root == 0 || root == 1,
            ;
            assert(small * small * variance == (small * root) * (small * root)) by (nonlinear_arith)
                requires
                    root * root == variance,
            ;
        }
    }
}

} // verus!
