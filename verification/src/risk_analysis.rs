//! Risk statistics of a series of returns.
//!
//! A missing value stands for a missing observation. Reductions skip missing values, while the
//! length of the whole series remains visible in the exponents of the product mode.
use crate::frequency::{Frequency, FrequencyUnit};
use crate::integer::Integer;
use crate::number::{
    all_held, fits, held, held_quantities_are_present, non_nan_count, present_count, present_total, quotients_undo, ticks,
    total, total_squares, Number, Ticks,
};
use crate::text::same_text;
use vstd::arithmetic::power::pow;
use vstd::prelude::*;

verus! {

/// The arithmetic of risk statistics: a [`Number`] with signed zeros, infinities, roots,
/// logarithms and powers.
pub trait Statistic: Number {
    /// The start of a plain sum.
    open spec fn sum_start_spec() -> Self {
        arbitrary()
    }

    open spec fn infinite(self) -> bool {
        arbitrary()
    }

    open spec fn finite(self) -> bool {
        arbitrary()
    }

    /// Whether the sign is negative, also that of a negative zero.
    open spec fn negative(self) -> bool {
        arbitrary()
    }

    /// Whether the value has no fraction.
    open spec fn whole(self) -> bool {
        arbitrary()
    }

    open spec fn greater_spec(self, other: Self) -> Self {
        arbitrary()
    }

    open spec fn lesser_spec(self, other: Self) -> Self {
        arbitrary()
    }

    open spec fn root_spec(self) -> Self {
        arbitrary()
    }

    open spec fn logarithm_spec(self) -> Self {
        arbitrary()
    }

    open spec fn power_spec(self, exponent: Self) -> Self {
        arbitrary()
    }

    /// The nearest value to an integer, where there is one.
    open spec fn of_integer_spec(value: int) -> Option<Self> {
        arbitrary()
    }

    fn sum_start() -> (result: Self)
        ensures
            result == Self::sum_start_spec(),
    ;

    fn is_infinite(self) -> (result: bool)
        ensures
            result == self.infinite(),
    ;

    fn is_finite(self) -> (result: bool)
        ensures
            result == self.finite(),
    ;

    fn is_negative(self) -> (result: bool)
        ensures
            result == self.negative(),
    ;

    fn is_whole(self) -> (result: bool)
        ensures
            result == self.whole(),
    ;

    fn greater(self, other: Self) -> (result: Self)
        ensures
            result == self.greater_spec(other),
    ;

    fn lesser(self, other: Self) -> (result: Self)
        ensures
            result == self.lesser_spec(other),
    ;

    fn root(self) -> (result: Self)
        ensures
            result == self.root_spec(),
    ;

    fn logarithm(self) -> (result: Self)
        ensures
            result == self.logarithm_spec(),
    ;

    fn power(self, exponent: Self) -> (result: Self)
        ensures
            result == self.power_spec(exponent),
    ;

    fn of_integer(value: &Integer) -> (result: Option<Self>)
        ensures
            result == Self::of_integer_spec(value@),
    ;
}

/// Whole quantities have no infinities. Their roots and logarithms are given for zero and one,
/// and their powers for the exponents zero and one.
impl Statistic for Ticks {
    open spec fn sum_start_spec() -> Self {
        Ticks(Some(0))
    }

    open spec fn infinite(self) -> bool {
        false
    }

    open spec fn finite(self) -> bool {
        self.0 is Some
    }

    open spec fn negative(self) -> bool {
        self.0 matches Some(value) && value < 0
    }

    open spec fn whole(self) -> bool {
        self.0 is Some
    }

    open spec fn greater_spec(self, other: Self) -> Self {
        match (self.0, other.0) {
            (Some(a), Some(b)) => if a < b { other } else { self },
            (Some(_), None) => self,
            _ => other,
        }
    }

    open spec fn lesser_spec(self, other: Self) -> Self {
        match (self.0, other.0) {
            (Some(a), Some(b)) => if b < a { other } else { self },
            (Some(_), None) => self,
            _ => other,
        }
    }

    open spec fn root_spec(self) -> Self {
        match self.0 {
            Some(value) => if value == 0 || value == 1 { self } else { Ticks(None) },
            None => Ticks(None),
        }
    }

    open spec fn logarithm_spec(self) -> Self {
        if self.0 == Some(1i64) { Ticks(Some(0)) } else { Ticks(None) }
    }

    open spec fn power_spec(self, exponent: Self) -> Self {
        match exponent.0 {
            Some(value) => if value == 0 {
                Ticks(Some(1))
            } else if value == 1 {
                self
            } else {
                Ticks(None)
            },
            None => Ticks(None),
        }
    }

    open spec fn of_integer_spec(value: int) -> Option<Self> {
        if i64::MIN <= value <= i64::MAX {
            Some(Ticks(Some(value as i64)))
        } else {
            None
        }
    }

    fn sum_start() -> Self {
        Ticks(Some(0))
    }

    fn is_infinite(self) -> bool {
        false
    }

    fn is_finite(self) -> bool {
        self.0.is_some()
    }

    fn is_negative(self) -> bool {
        match self.0 {
            Some(value) => value < 0,
            None => false,
        }
    }

    fn is_whole(self) -> bool {
        self.0.is_some()
    }

    fn greater(self, other: Self) -> Self {
        match (self.0, other.0) {
            (Some(a), Some(b)) => if a < b { other } else { self },
            (Some(_), None) => self,
            _ => other,
        }
    }

    fn lesser(self, other: Self) -> Self {
        match (self.0, other.0) {
            (Some(a), Some(b)) => if b < a { other } else { self },
            (Some(_), None) => self,
            _ => other,
        }
    }

    fn root(self) -> Self {
        match self.0 {
            Some(value) => if value == 0 || value == 1 { self } else { Ticks(None) },
            None => Ticks(None),
        }
    }

    fn logarithm(self) -> Self {
        match self.0 {
            Some(value) => if value == 1 { Ticks(Some(0)) } else { Ticks(None) },
            None => Ticks(None),
        }
    }

    fn power(self, exponent: Self) -> Self {
        match exponent.0 {
            Some(value) => if value == 0 {
                Ticks(Some(1))
            } else if value == 1 {
                self
            } else {
                Ticks(None)
            },
            None => Ticks(None),
        }
    }

    fn of_integer(value: &Integer) -> Option<Self> {
        match value.to_i128() {
            Some(number) => if i64::MIN as i128 <= number && number <= i64::MAX as i128 {
                Some(Ticks(Some(number as i64)))
            } else {
                None
            },
            None => None,
        }
    }
}

/// The names of the statistics in the order in which they are listed.
pub fn risk_analysis_fields() -> (result: [&'static str; 5])
    ensures
        result@[0]@ == "mean"@,
        result@[1]@ == "std"@,
        result@[2]@ == "annualized_return"@,
        result@[3]@ == "information_ratio"@,
        result@[4]@ == "max_drawdown"@,
{
    ["mean", "std", "annualized_return", "information_ratio", "max_drawdown"]
}

/// The five statistics of a series.
#[derive(Clone, Copy, Debug, PartialEq)]
pub struct RiskAnalysisResult<V> {
    /// The arithmetic mean, or the geometric mean of one observation in the product mode.
    pub mean: V,
    /// The sample deviation.
    pub std: V,
    /// The return scaled to the annualization factor.
    pub annualized_return: V,
    /// The mean over the deviation, times the root of the scaler.
    pub information_ratio: V,
    /// The lowest drawdown of the accumulated curve.
    pub max_drawdown: V,
}

impl<V: Statistic> RiskAnalysisResult<V> {
    /// The values in the order of [`risk_analysis_fields`].
    pub fn ordered_values(self) -> (result: [V; 5])
        ensures
            result@ == seq![
                self.mean,
                self.std,
                self.annualized_return,
                self.information_ratio,
                self.max_drawdown,
            ],
    {
        let result = [
            self.mean,
            self.std,
            self.annualized_return,
            self.information_ratio,
            self.max_drawdown,
        ];
        assert(result@ =~= seq![
            self.mean,
            self.std,
            self.annualized_return,
            self.information_ratio,
            self.max_drawdown,
        ]);
        result
    }
}

/// The category of a warning.
#[derive(Clone, Copy, Debug, PartialEq, Eq, Structural)]
pub enum RiskAnalysisWarningCategory {
    /// A warning about the arguments.
    UserWarning,
    /// A warning about special values in the arithmetic.
    RuntimeWarning,
}

/// A warning that came up in the calculation.
#[derive(Clone, Debug, PartialEq, Eq)]
pub struct RiskAnalysisWarning {
    pub category: RiskAnalysisWarningCategory,
    pub message: String,
}

/// What a warning says.
pub type WarningModel = (RiskAnalysisWarningCategory, Seq<char>);

impl View for RiskAnalysisWarning {
    type V = WarningModel;

    open spec fn view(&self) -> WarningModel {
        (self.category, self.message@)
    }
}

/// What a list of warnings says.
pub open spec fn warning_models(warnings: Seq<RiskAnalysisWarning>) -> Seq<WarningModel> {
    warnings.map_values(|warning: RiskAnalysisWarning| warning@)
}

/// The statistics and the warnings in the order in which they came up.
#[derive(Debug)]
pub struct RiskAnalysisOutput<V> {
    pub result: RiskAnalysisResult<V>,
    pub warnings: Vec<RiskAnalysisWarning>,
}

/// Why there are no statistics.
#[derive(Debug)]
pub enum RiskAnalysisError<E> {
    /// Neither a scaler nor a frequency was given.
    MissingAnnualization,
    /// The frequency is not one.
    InvalidFrequency { source: E },
    /// The frequency counts zero units.
    ZeroFrequency,
    /// The product mode was asked of no observations.
    EmptyProduct,
    /// The mode is neither `sum` nor `product`.
    UnsupportedMode { mode: String },
}

impl<E> RiskAnalysisError<E> {
    /// What the failure says.
    pub open spec fn message_spec(self) -> Seq<char> {
        match self {
            RiskAnalysisError::MissingAnnualization => "at least one of `N` and `freq` should exist"@,
            RiskAnalysisError::InvalidFrequency { .. } =>
            "freq format is not supported, the freq should be like (n)month/mon, (n)week/w, (n)day/d, (n)minute/min"@,
            RiskAnalysisError::ZeroFrequency => "division by zero"@,
            RiskAnalysisError::EmptyProduct => "single positional indexer is out-of-bounds"@,
            RiskAnalysisError::UnsupportedMode { mode } => "risk_analysis accumulation mode "@ + mode@
                + " is not supported. Expected `sum` or `product`."@,
        }
    }

    /// What the failure says.
    pub fn message(&self) -> (result: String)
        ensures
            result@ == self.message_spec(),
    {
        match self {
            RiskAnalysisError::MissingAnnualization => "at least one of `N` and `freq` should exist".to_owned(),
            RiskAnalysisError::InvalidFrequency { .. } =>
            "freq format is not supported, the freq should be like (n)month/mon, (n)week/w, (n)day/d, (n)minute/min".to_owned(),
            RiskAnalysisError::ZeroFrequency => "division by zero".to_owned(),
            RiskAnalysisError::EmptyProduct => "single positional indexer is out-of-bounds".to_owned(),
            RiskAnalysisError::UnsupportedMode { mode } => {
                let mut text = "risk_analysis accumulation mode ".to_owned();
                text.append(mode.as_str());
                text.append(" is not supported. Expected `sum` or `product`.");
                text
            },
        }
    }
}

// ---- reductions -------------------------------------------------------------------------------

/// A plain sum from the left.
pub open spec fn plain_sum<V: Statistic>(start: V, values: Seq<V>) -> V
    decreases values.len(),
{
    if values.len() == 0 {
        start
    } else {
        plain_sum(start, values.drop_last()).plus_spec(values.last())
    }
}

/// One of eight interleaved sums: the values at a lane and at every eighth place behind it.
pub open spec fn lane_sum<V: Statistic>(values: Seq<V>, lane: int, blocks: nat) -> V
    decreases blocks,
{
    if blocks == 0 {
        values[lane]
    } else {
        lane_sum(values, lane, (blocks - 1) as nat).plus_spec(values[8 * blocks + lane])
    }
}

/// The eight interleaved sums, added pairwise.
pub open spec fn joined_lanes<V: Statistic>(values: Seq<V>, blocks: nat) -> V {
    let low = lane_sum(values, 0, blocks).plus_spec(lane_sum(values, 1, blocks)).plus_spec(
        lane_sum(values, 2, blocks).plus_spec(lane_sum(values, 3, blocks)),
    );
    let high = lane_sum(values, 4, blocks).plus_spec(lane_sum(values, 5, blocks)).plus_spec(
        lane_sum(values, 6, blocks).plus_spec(lane_sum(values, 7, blocks)),
    );
    low.plus_spec(high)
}

/// The sum of a series: plainly up to seven values, in eight interleaved sums up to 128, and
/// else as the sum of two halves, the first of which is a multiple of eight long.
pub open spec fn pairwise_sum<V: Statistic>(values: Seq<V>) -> V
    decreases values.len(),
{
    let length = values.len() as int;
    if length <= 7 {
        plain_sum(V::sum_start_spec(), values)
    } else if length <= 128 {
        plain_sum(joined_lanes(values, (length / 8 - 1) as nat), values.skip(length / 8 * 8))
    } else {
        let middle = length / 2 - (length / 2) % 8;
        pairwise_sum(values.take(middle)).plus_spec(pairwise_sum(values.skip(middle)))
    }
}

fn add_all<V: Statistic>(start: V, values: &[V], from: usize, to: usize) -> (result: V)
    requires
        from <= to <= values@.len(),
    ensures
        result == plain_sum(start, values@.subrange(from as int, to as int)),
{
    let mut sum: V = start;
    let mut i: usize = from;
    assert(values@.subrange(from as int, from as int) =~= Seq::<V>::empty());
    while i < to
        invariant
            from <= i <= to <= values@.len(),
            sum == plain_sum(start, values@.subrange(from as int, i as int)),
        decreases to - i,
    {
        proof {
            let longer = values@.subrange(from as int, i + 1);
            assert(longer.drop_last() =~= values@.subrange(from as int, i as int));
            assert(longer.last() == values@[i as int]);
        }
        sum = sum.plus(values[i]);
        i += 1;
    }
    sum
}

fn add_lane<V: Statistic>(values: &[V], from: usize, to: usize, lane: usize, blocks: usize) -> (result: V)
    requires
        from <= to <= values@.len(),
        lane < 8,
        8 * blocks + 8 <= to - from,
    ensures
        result == lane_sum(values@.subrange(from as int, to as int), lane as int, blocks as nat),
{
    let ghost part = values@.subrange(from as int, to as int);
    let mut sum: V = values[from + lane];
    let mut block: usize = 0;
    while block < blocks
        invariant
            block <= blocks,
            from <= to <= values@.len(),
            lane < 8,
            8 * blocks + 8 <= to - from,
            part == values@.subrange(from as int, to as int),
            sum == lane_sum(part, lane as int, block as nat),
        decreases blocks - block,
    {
        block += 1;
        assert(part[8 * block + lane] == values@[from + 8 * block + lane]);
        sum = sum.plus(values[from + 8 * block + lane]);
    }
    sum
}

fn sum_range<V: Statistic>(values: &[V], from: usize, to: usize) -> (result: V)
    requires
        from <= to <= values@.len(),
    ensures
        result == pairwise_sum(values@.subrange(from as int, to as int)),
    decreases to - from,
{
    let ghost part = values@.subrange(from as int, to as int);
    let length: usize = to - from;
    if length <= 7 {
        add_all(V::sum_start(), values, from, to)
    } else if length <= 128 {
        let blocks: usize = length / 8 - 1;
        let low = add_lane(values, from, to, 0, blocks).plus(add_lane(values, from, to, 1, blocks)).plus(
            add_lane(values, from, to, 2, blocks).plus(add_lane(values, from, to, 3, blocks)),
        );
        let high = add_lane(values, from, to, 4, blocks).plus(add_lane(values, from, to, 5, blocks)).plus(
            add_lane(values, from, to, 6, blocks).plus(add_lane(values, from, to, 7, blocks)),
        );
        let tail: usize = length / 8 * 8;
        assert(part.skip(tail as int) =~= values@.subrange(from + tail, to as int));
        add_all(low.plus(high), values, from + tail, to)
    } else {
        let half: usize = length / 2;
        let middle: usize = half - half % 8;
        assert(part.take(middle as int) =~= values@.subrange(from as int, from + middle));
        assert(part.skip(middle as int) =~= values@.subrange(from + middle, to as int));
        sum_range(values, from, from + middle).plus(sum_range(values, from + middle, to))
    }
}

/// The sum of a series.
pub fn numpy_pairwise_sum<V: Statistic>(values: &[V]) -> (result: V)
    ensures
        result == pairwise_sum(values@),
{
    assert(values@.subrange(0, values@.len() as int) =~= values@);
    sum_range(values, 0, values.len())
}

/// The series with zeros for what is missing.
pub open spec fn replaced<V: Statistic>(values: Seq<V>) -> Seq<V> {
    Seq::new(
        values.len(),
        |i: int|
            if values[i].missing() {
                V::zero_spec()
            } else {
                values[i]
            },
    )
}

/// The mean of the values that are not missing; missing when there are none.
pub open spec fn series_mean<V: Statistic>(values: Seq<V>) -> V {
    if present_count(values) == 0 {
        V::nothing_spec()
    } else {
        pairwise_sum(replaced(values)).over_spec(V::count_spec(present_count(values)))
    }
}

/// The mean of the values that are not missing.
pub fn pandas_mean<V: Statistic>(values: &[V]) -> (result: V)
    ensures
        result == series_mean(values@),
{
    let mut filled: Vec<V> = Vec::new();
    let mut i: usize = 0;
    while i < values.len()
        invariant
            i <= values@.len(),
            filled@ == replaced(values@).take(i as int),
        decreases values@.len() - i,
    {
        filled.push(
            if values[i].is_missing() {
                V::zero()
            } else {
                values[i]
            },
        );
        i += 1;
        assert(filled@ =~= replaced(values@).take(i as int));
    }
    assert(filled@ =~= replaced(values@));
    let count: usize = non_nan_count(values);
    if count == 0 {
        V::nothing()
    } else {
        numpy_pairwise_sum(filled.as_slice()).over(V::count(count))
    }
}

/// The square of a value's distance from a mean.
pub open spec fn squared_distance<V: Statistic>(value: V, mean: V) -> V {
    value.minus_spec(mean).times_spec(value.minus_spec(mean))
}

/// The squared distances of a series from a mean, zero where a value is missing.
pub open spec fn deviations<V: Statistic>(values: Seq<V>, mean: V) -> Seq<V> {
    Seq::new(
        values.len(),
        |i: int|
            if values[i].missing() {
                V::zero_spec()
            } else {
                squared_distance(values[i], mean)
            },
    )
}

/// The sample deviation of the values that are not missing; missing when there are fewer than two.
pub open spec fn series_deviation<V: Statistic>(values: Seq<V>, mean: V) -> V {
    if present_count(values) <= 1 {
        V::nothing_spec()
    } else {
        pairwise_sum(deviations(values, mean)).over_spec(
            V::count_spec((present_count(values) - 1) as nat),
        ).root_spec()
    }
}

/// The sample deviation of the values that are not missing.
pub fn pandas_sample_std<V: Statistic>(values: &[V], mean: V) -> (result: V)
    ensures
        result == series_deviation(values@, mean),
{
    let mut squares: Vec<V> = Vec::new();
    let mut i: usize = 0;
    while i < values.len()
        invariant
            i <= values@.len(),
            squares@ == deviations(values@, mean).take(i as int),
        decreases values@.len() - i,
    {
        if values[i].is_missing() {
            squares.push(V::zero());
        } else {
            let distance = values[i].minus(mean);
            squares.push(distance.times(distance));
        }
        i += 1;
        assert(squares@ =~= deviations(values@, mean).take(i as int));
    }
    assert(squares@ =~= deviations(values@, mean));
    let count: usize = non_nan_count(values);
    if count <= 1 {
        V::nothing()
    } else {
        numpy_pairwise_sum(squares.as_slice()).over(V::count(count - 1)).root()
    }
}

// ---- curves -----------------------------------------------------------------------------------

/// How returns accumulate.
#[derive(Clone, Copy, Debug, PartialEq, Eq, Structural)]
pub enum Curve {
    Sum,
    Product,
}

impl Curve {
    /// Where the curve begins.
    pub open spec fn start_spec<V: Statistic>(self) -> V {
        match self {
            Curve::Sum => V::zero_spec(),
            Curve::Product => V::one_spec(),
        }
    }

    /// What a return makes of the curve.
    pub open spec fn step_spec<V: Statistic>(self, state: V, value: V) -> V {
        match self {
            Curve::Sum => state.plus_spec(value),
            Curve::Product => state.times_spec(V::one_spec().plus_spec(value)),
        }
    }

    /// How far a value of the curve lies under its peak.
    pub open spec fn drawdown_spec<V: Statistic>(self, value: V, peak: V) -> V {
        match self {
            Curve::Sum => value.minus_spec(peak),
            Curve::Product => value.over_spec(peak).minus_spec(V::one_spec()),
        }
    }

    fn start<V: Statistic>(self) -> (result: V)
        ensures
            result == self.start_spec::<V>(),
    {
        match self {
            Curve::Sum => V::zero(),
            Curve::Product => V::one(),
        }
    }

    fn step<V: Statistic>(self, state: V, value: V) -> (result: V)
        ensures
            result == self.step_spec(state, value),
    {
        match self {
            Curve::Sum => state.plus(value),
            Curve::Product => state.times(V::one().plus(value)),
        }
    }

    fn drawdown<V: Statistic>(self, value: V, peak: V) -> (result: V)
        ensures
            result == self.drawdown_spec(value, peak),
    {
        match self {
            Curve::Sum => value.minus(peak),
            Curve::Product => value.over(peak).minus(V::one()),
        }
    }
}

/// The curve after a series, missing values left out.
pub open spec fn curve_end<V: Statistic>(curve: Curve, values: Seq<V>) -> V
    decreases values.len(),
{
    if values.len() == 0 {
        curve.start_spec()
    } else if values.last().missing() {
        curve_end(curve, values.drop_last())
    } else {
        curve.step_spec(curve_end(curve, values.drop_last()), values.last())
    }
}

/// The curve after each value of a series; missing where the value is.
pub open spec fn curve_values<V: Statistic>(curve: Curve, values: Seq<V>) -> Seq<V> {
    Seq::new(
        values.len(),
        |i: int|
            if values[i].missing() {
                V::nothing_spec()
            } else {
                curve_end(curve, values.take(i + 1))
            },
    )
}

/// The curve after each value of a series.
pub fn cumulative_values<V: Statistic>(values: &[V], curve: Curve) -> (result: Vec<V>)
    ensures
        result@ == curve_values(curve, values@),
{
    let mut result: Vec<V> = Vec::new();
    let mut state: V = curve.start();
    let mut i: usize = 0;
    assert(values@.take(0) =~= Seq::<V>::empty());
    while i < values.len()
        invariant
            i <= values@.len(),
            state == curve_end(curve, values@.take(i as int)),
            result@ == curve_values(curve, values@).take(i as int),
        decreases values@.len() - i,
    {
        proof {
            assert(values@.take(i + 1).drop_last() =~= values@.take(i as int));
            assert(values@.take(i + 1).last() == values@[i as int]);
        }
        if values[i].is_missing() {
            result.push(V::nothing());
        } else {
            state = curve.step(state, values[i]);
            result.push(state);
        }
        i += 1;
        assert(result@ =~= curve_values(curve, values@).take(i as int));
    }
    assert(result@ =~= curve_values(curve, values@));
    result
}

/// The peak of a curve, missing values left out.
pub open spec fn peak_of<V: Statistic>(values: Seq<V>) -> Option<V>
    decreases values.len(),
{
    if values.len() == 0 {
        None
    } else if values.last().missing() {
        peak_of(values.drop_last())
    } else {
        match peak_of(values.drop_last()) {
            Some(peak) => Some(peak.greater_spec(values.last())),
            None => Some(values.last()),
        }
    }
}

/// The lowest drawdown of a curve, each value held against the peak up to it.
pub open spec fn lowest_drawdown<V: Statistic>(curve: Curve, values: Seq<V>) -> Option<V>
    decreases values.len(),
{
    if values.len() == 0 {
        None
    } else {
        let before = lowest_drawdown(curve, values.drop_last());
        if values.last().missing() {
            before
        } else {
            let drawdown = curve.drawdown_spec(values.last(), peak_of(values)->Some_0);
            if drawdown.missing() {
                before
            } else {
                match before {
                    Some(lowest) => Some(lowest.lesser_spec(drawdown)),
                    None => Some(drawdown),
                }
            }
        }
    }
}

/// The lowest drawdown, missing when there is none.
pub open spec fn drawdown_of<V: Statistic>(curve: Curve, values: Seq<V>) -> V {
    match lowest_drawdown(curve, values) {
        Some(lowest) => lowest,
        None => V::nothing_spec(),
    }
}

/// The lowest drawdown of a curve.
pub fn drawdown_min<V: Statistic>(values: &[V], curve: Curve) -> (result: V)
    ensures
        result == drawdown_of(curve, values@),
{
    let mut peak: Option<V> = None;
    let mut minimum: Option<V> = None;
    let mut i: usize = 0;
    while i < values.len()
        invariant
            i <= values@.len(),
            peak == peak_of(values@.take(i as int)),
            minimum == lowest_drawdown(curve, values@.take(i as int)),
        decreases values@.len() - i,
    {
        proof {
            assert(values@.take(i + 1).drop_last() =~= values@.take(i as int));
            assert(values@.take(i + 1).last() == values@[i as int]);
        }
        let value: V = values[i];
        if !value.is_missing() {
            let highest: V = match peak {
                Some(current) => current.greater(value),
                None => value,
            };
            peak = Some(highest);
            let drawdown: V = curve.drawdown(value, highest);
            if !drawdown.is_missing() {
                minimum = match minimum {
                    Some(current) => Some(current.lesser(drawdown)),
                    None => Some(drawdown),
                };
            }
        }
        i += 1;
    }
    assert(values@.take(i as int) =~= values@);
    match minimum {
        Some(lowest) => lowest,
        None => V::nothing(),
    }
}

// ---- warnings ---------------------------------------------------------------------------------

/// A warning about the arithmetic, where its condition holds.
#[verifier::opaque]
pub open spec fn warned_when(condition: bool, message: Seq<char>) -> Seq<WarningModel> {
    if condition {
        seq![(RiskAnalysisWarningCategory::RuntimeWarning, message)]
    } else {
        Seq::empty()
    }
}

fn warn_when(condition: bool, message: &str, warnings: &mut Vec<RiskAnalysisWarning>)
    ensures
        warning_models(final(warnings)@) == warning_models(old(warnings)@) + warned_when(condition, message@),
{
    reveal(warned_when);
    if condition {
        warnings.push(
            RiskAnalysisWarning {
                category: RiskAnalysisWarningCategory::RuntimeWarning,
                message: message.to_owned(),
            },
        );
    }
    assert(warning_models(warnings@) =~= warning_models(old(warnings)@) + warned_when(condition, message@));
}

proof fn warnings_join(first: Seq<WarningModel>, second: Seq<WarningModel>, third: Seq<WarningModel>)
    ensures
        first + second + third == first + (second + third),
{
    assert(first + second + third =~= first + (second + third));
}

/// Whether a series holds infinities of both signs.
pub open spec fn opposite_infinities<V: Statistic>(values: Seq<V>) -> bool {
    (exists|i: int| 0 <= i < values.len() && (#[trigger] values[i]).infinite() && !values[i].negative()) && (exists|
        i: int,
    |
        0 <= i < values.len() && (#[trigger] values[i]).infinite() && values[i].negative())
}

/// Whether a series holds infinities of both signs.
pub fn has_opposite_infinities<V: Statistic>(values: &[V]) -> (result: bool)
    ensures
        result == opposite_infinities(values@),
{
    let mut above = false;
    let mut below = false;
    let mut i: usize = 0;
    while i < values.len()
        invariant
            i <= values@.len(),
            above == exists|j: int| 0 <= j < i && (#[trigger] values@[j]).infinite() && !values@[j].negative(),
            below == exists|j: int| 0 <= j < i && (#[trigger] values@[j]).infinite() && values@[j].negative(),
        decreases values@.len() - i,
    {
        if values[i].is_infinite() {
            if values[i].is_negative() {
                below = true;
            } else {
                above = true;
            }
        }
        i += 1;
    }
    above && below
}

/// Whether a reduction became infinite over values that are not.
pub open spec fn overflowed<V: Statistic>(values: Seq<V>, result: V) -> bool {
    result.infinite() && forall|i: int|
        0 <= i < values.len() ==> (#[trigger] values[i]).finite() || values[i].missing()
}

/// Whether a reduction became infinite over values that are not.
pub fn reduction_overflowed<V: Statistic>(values: &[V], total: V) -> (result: bool)
    ensures
        result == overflowed(values@, total),
{
    if !total.is_infinite() {
        return false;
    }
    let mut i: usize = 0;
    while i < values.len()
        invariant
            i <= values@.len(),
            forall|j: int| 0 <= j < i ==> (#[trigger] values@[j]).finite() || values@[j].missing(),
        decreases values@.len() - i,
    {
        if !values[i].is_finite() && !values[i].is_missing() {
            assert(!values@[i as int].finite() && !values@[i as int].missing());
            return false;
        }
        i += 1;
    }
    true
}

/// The warnings of a deviation.
pub open spec fn deviation_warnings<V: Statistic>(values: Seq<V>, mean: V) -> Seq<WarningModel> {
    if opposite_infinities(values) {
        warned_when(true, "invalid value encountered in reduce"@)
    } else if overflowed(values, mean) {
        warned_when(true, "overflow encountered in reduce"@)
    } else {
        warned_when(mean.infinite(), "invalid value encountered in subtract"@)
    }
}

fn numeric_std_warning<V: Statistic>(values: &[V], mean: V, warnings: &mut Vec<RiskAnalysisWarning>)
    ensures
        warning_models(final(warnings)@) == warning_models(old(warnings)@) + deviation_warnings(values@, mean),
{
    if has_opposite_infinities(values) {
        warn_when(true, "invalid value encountered in reduce", warnings);
    } else if reduction_overflowed(values, mean) {
        warn_when(true, "overflow encountered in reduce", warnings);
    } else {
        warn_when(mean.is_infinite(), "invalid value encountered in subtract", warnings);
    }
}

/// The warnings of an information ratio.
pub open spec fn ratio_warnings<V: Statistic>(mean: V, std: V, scaler: V) -> Seq<WarningModel> {
    let divided = if std.equals_spec(V::zero_spec()) && mean.finite() {
        if mean.equals_spec(V::zero_spec()) {
            warned_when(true, "invalid value encountered in scalar divide"@)
        } else {
            warned_when(true, "divide by zero encountered in scalar divide"@)
        }
    } else {
        warned_when(mean.infinite() && std.infinite(), "invalid value encountered in scalar divide"@)
    };
    divided + warned_when(scaler.negative(), "invalid value encountered in sqrt"@)
}

fn scalar_information_warnings<V: Statistic>(mean: V, std: V, scaler: V, warnings: &mut Vec<RiskAnalysisWarning>)
    ensures
        warning_models(final(warnings)@) == warning_models(old(warnings)@) + ratio_warnings(mean, std, scaler),
{
    let ghost before = warning_models(warnings@);
    if std.equals(V::zero()) && mean.is_finite() {
        if mean.equals(V::zero()) {
            warn_when(true, "invalid value encountered in scalar divide", warnings);
        } else {
            warn_when(true, "divide by zero encountered in scalar divide", warnings);
        }
    } else {
        warn_when(
            mean.is_infinite() && std.is_infinite(),
            "invalid value encountered in scalar divide",
            warnings,
        );
    }
    warn_when(scaler.is_negative(), "invalid value encountered in sqrt", warnings);
    assert(warning_models(warnings@) =~= before + ratio_warnings(mean, std, scaler));
}

/// Whether the sum curve became missing at a value that is not. A curve that is missing once is
/// followed no further.
pub open spec fn sum_became_invalid<V: Statistic>(values: Seq<V>) -> bool {
    exists|i: int|
        0 <= i < values.len() && !(#[trigger] values[i]).missing() && curve_end(
            Curve::Sum,
            values.take(i + 1),
        ).missing()
}

/// Whether the sum curve became infinite by adding a finite value to a finite one.
pub open spec fn sum_overflowed<V: Statistic>(values: Seq<V>) -> bool {
    exists|i: int|
        0 <= i < values.len() && !(#[trigger] values[i]).missing() && curve_end(
            Curve::Sum,
            values.take(i + 1),
        ).infinite() && curve_end(Curve::Sum, values.take(i)).finite() && values[i].finite()
}

/// Whether the sum curve became missing at a value that is not.
pub fn cumulative_invalid<V: Statistic>(values: &[V]) -> (result: bool)
    ensures
        result == sum_became_invalid(values@),
{
    let mut state: V = V::zero();
    let mut i: usize = 0;
    assert(values@.take(0) =~= Seq::<V>::empty());
    while i < values.len()
        invariant
            i <= values@.len(),
            state == curve_end(Curve::Sum, values@.take(i as int)),
            forall|j: int|
                0 <= j < i && !(#[trigger] values@[j]).missing() ==> !curve_end(
                    Curve::Sum,
                    values@.take(j + 1),
                ).missing(),
        decreases values@.len() - i,
    {
        proof {
            assert(values@.take(i + 1).drop_last() =~= values@.take(i as int));
            assert(values@.take(i + 1).last() == values@[i as int]);
        }
        if !values[i].is_missing() {
            let next: V = state.plus(values[i]);
            if next.is_missing() {
                assert(!values@[i as int].missing());
                return true;
            }
            state = next;
        }
        i += 1;
    }
    false
}

/// Whether the sum curve became infinite by adding a finite value to a finite one.
pub fn cumulative_overflow<V: Statistic>(values: &[V]) -> (result: bool)
    ensures
        result == sum_overflowed(values@),
{
    let mut state: V = V::zero();
    let mut i: usize = 0;
    assert(values@.take(0) =~= Seq::<V>::empty());
    while i < values.len()
        invariant
            i <= values@.len(),
            state == curve_end(Curve::Sum, values@.take(i as int)),
            forall|j: int|
                0 <= j < i && !(#[trigger] values@[j]).missing() ==> !(curve_end(
                    Curve::Sum,
                    values@.take(j + 1),
                ).infinite() && curve_end(Curve::Sum, values@.take(j)).finite() && values@[j].finite()),
        decreases values@.len() - i,
    {
        proof {
            assert(values@.take(i + 1).drop_last() =~= values@.take(i as int));
            assert(values@.take(i + 1).last() == values@[i as int]);
        }
        if !values[i].is_missing() {
            let next: V = state.plus(values[i]);
            if next.is_infinite() && state.is_finite() && values[i].is_finite() {
                assert(!values@[i as int].missing());
                return true;
            }
            state = next;
        }
        i += 1;
    }
    false
}

/// Whether the product curve became infinite by multiplying finite values.
pub open spec fn product_overflowed<V: Statistic>(values: Seq<V>) -> bool {
    exists|i: int|
        0 <= i < values.len() && !(#[trigger] values[i]).missing() && curve_end(
            Curve::Product,
            values.take(i + 1),
        ).infinite() && curve_end(Curve::Product, values.take(i)).finite() && V::one_spec().plus_spec(
            values[i],
        ).finite()
}

/// Whether the product curve went from a value to a missing one.
pub open spec fn product_became_invalid<V: Statistic>(values: Seq<V>) -> bool {
    exists|i: int|
        0 <= i < values.len() && !(#[trigger] values[i]).missing() && curve_end(
            Curve::Product,
            values.take(i + 1),
        ).missing() && !curve_end(Curve::Product, values.take(i)).missing()
}

/// The warnings of a product curve.
pub open spec fn product_curve_warnings<V: Statistic>(values: Seq<V>) -> Seq<WarningModel> {
    warned_when(product_overflowed(values), "overflow encountered in accumulate"@) + warned_when(
        product_became_invalid(values),
        "invalid value encountered in accumulate"@,
    )
}

fn numeric_cumulative_product_warning<V: Statistic>(values: &[V], warnings: &mut Vec<RiskAnalysisWarning>)
    ensures
        warning_models(final(warnings)@) == warning_models(old(warnings)@) + product_curve_warnings(values@),
{
    let ghost before = warning_models(warnings@);
    let mut state: V = V::one();
    let mut overflow = false;
    let mut invalid = false;
    let mut i: usize = 0;
    assert(values@.take(0) =~= Seq::<V>::empty());
    while i < values.len()
        invariant
            i <= values@.len(),
            state == curve_end(Curve::Product, values@.take(i as int)),
            overflow == exists|j: int|
                0 <= j < i && !(#[trigger] values@[j]).missing() && curve_end(
                    Curve::Product,
                    values@.take(j + 1),
                ).infinite() && curve_end(Curve::Product, values@.take(j)).finite() && V::one_spec().plus_spec(
                    values@[j],
                ).finite(),
            invalid == exists|j: int|
                0 <= j < i && !(#[trigger] values@[j]).missing() && curve_end(
                    Curve::Product,
                    values@.take(j + 1),
                ).missing() && !curve_end(Curve::Product, values@.take(j)).missing(),
        decreases values@.len() - i,
    {
        proof {
            assert(values@.take(i + 1).drop_last() =~= values@.take(i as int));
            assert(values@.take(i + 1).last() == values@[i as int]);
        }
        if !values[i].is_missing() {
            assert(!values@[i as int].missing());
            let gross: V = V::one().plus(values[i]);
            let next: V = state.times(gross);
            if next.is_infinite() && state.is_finite() && gross.is_finite() {
                overflow = true;
            }
            if next.is_missing() && !state.is_missing() {
                invalid = true;
            }
            state = next;
        }
        i += 1;
    }
    warn_when(overflow, "overflow encountered in accumulate", warnings);
    warn_when(invalid, "invalid value encountered in accumulate", warnings);
    assert(warning_models(warnings@) =~= before + product_curve_warnings(values@));
}

// ---- the two modes ----------------------------------------------------------------------------

/// The statistics of the sum mode.
pub open spec fn sum_statistics<V: Statistic>(values: Seq<V>, scaler: V) -> RiskAnalysisResult<V> {
    let mean = series_mean(values);
    let std = series_deviation(values, mean);
    RiskAnalysisResult {
        mean,
        std,
        annualized_return: mean.times_spec(scaler),
        information_ratio: mean.over_spec(std).times_spec(scaler.root_spec()),
        max_drawdown: drawdown_of(Curve::Sum, curve_values(Curve::Sum, values)),
    }
}

/// The warnings of a mean.
pub open spec fn mean_warnings<V: Statistic>(values: Seq<V>, mean: V) -> Seq<WarningModel> {
    if overflowed(values, mean) {
        warned_when(true, "overflow encountered in reduce"@)
    } else {
        warned_when(opposite_infinities(values), "invalid value encountered in reduce"@)
    }
}

/// The warnings of a sum curve: each comes twice.
pub open spec fn sum_curve_warnings<V: Statistic>(values: Seq<V>) -> Seq<WarningModel> {
    let overflow = warned_when(sum_overflowed(values), "overflow encountered in accumulate"@);
    let invalid = warned_when(sum_became_invalid(values), "invalid value encountered in accumulate"@);
    overflow + overflow + invalid + invalid
}

/// The warnings of the sum mode in order.
pub open spec fn sum_warnings<V: Statistic>(values: Seq<V>, scaler: V) -> Seq<WarningModel> {
    let mean = series_mean(values);
    mean_warnings(values, mean) + deviation_warnings(values, mean) + sum_curve_warnings(values)
        + ratio_warnings(mean, series_deviation(values, mean), scaler)
}

fn sum_curve_warning<V: Statistic>(values: &[V], warnings: &mut Vec<RiskAnalysisWarning>)
    ensures
        warning_models(final(warnings)@) == warning_models(old(warnings)@) + sum_curve_warnings(values@),
{
    let ghost before = warning_models(warnings@);
    let overflow = cumulative_overflow(values);
    warn_when(overflow, "overflow encountered in accumulate", warnings);
    warn_when(overflow, "overflow encountered in accumulate", warnings);
    let invalid = cumulative_invalid(values);
    warn_when(invalid, "invalid value encountered in accumulate", warnings);
    warn_when(invalid, "invalid value encountered in accumulate", warnings);
    assert(warning_models(warnings@) =~= before + sum_curve_warnings(values@));
}

/// The statistics of the sum mode.
pub fn sum_analysis<V: Statistic>(
    values: &[V],
    scaler: V,
    warnings: &mut Vec<RiskAnalysisWarning>,
) -> (result: RiskAnalysisResult<V>)
    ensures
        result == sum_statistics(values@, scaler),
        warning_models(final(warnings)@) == warning_models(old(warnings)@) + sum_warnings(values@, scaler),
{
    let ghost before = warning_models(warnings@);
    let mean: V = pandas_mean(values);
    if reduction_overflowed(values, mean) {
        warn_when(true, "overflow encountered in reduce", warnings);
    } else {
        warn_when(has_opposite_infinities(values), "invalid value encountered in reduce", warnings);
    }
    let ghost of_mean = mean_warnings(values@, mean);
    assert(warning_models(warnings@) == before + of_mean);
    let std: V = pandas_sample_std(values, mean);
    numeric_std_warning(values, mean, warnings);
    let ghost of_deviation = deviation_warnings(values@, mean);
    proof {
        warnings_join(before, of_mean, of_deviation);
    }
    let curve = cumulative_values(values, Curve::Sum);
    let max_drawdown: V = drawdown_min(curve.as_slice(), Curve::Sum);
    sum_curve_warning(values, warnings);
    let ghost of_curve = sum_curve_warnings(values@);
    proof {
        warnings_join(before, of_mean + of_deviation, of_curve);
    }
    scalar_information_warnings(mean, std, scaler, warnings);
    proof {
        warnings_join(before, of_mean + of_deviation + of_curve, ratio_warnings(mean, std, scaler));
    }
    RiskAnalysisResult {
        mean,
        std,
        annualized_return: mean.times(scaler),
        information_ratio: mean.over(std).times(scaler.root()),
        max_drawdown,
    }
}

/// The logarithms of the gross returns.
pub open spec fn log_returns<V: Statistic>(values: Seq<V>) -> Seq<V> {
    Seq::new(values.len(), |i: int| V::one_spec().plus_spec(values[i]).logarithm_spec())
}

/// Whether a gross return is zero.
pub open spec fn zero_gross<V: Statistic>(values: Seq<V>) -> bool {
    exists|i: int|
        0 <= i < values.len() && V::one_spec().plus_spec(#[trigger] values[i]).equals_spec(V::zero_spec())
}

/// Whether a gross return is negative.
pub open spec fn negative_gross<V: Statistic>(values: Seq<V>) -> bool {
    exists|i: int|
        0 <= i < values.len() && V::one_spec().plus_spec(#[trigger] values[i]).below_spec(V::zero_spec())
}

/// The last value of the product curve: missing when the last return is.
pub open spec fn final_value<V: Statistic>(values: Seq<V>) -> V {
    curve_values(Curve::Product, values).last()
}

/// The statistics of the product mode.
pub open spec fn product_statistics<V: Statistic>(values: Seq<V>, scaler: V) -> RiskAnalysisResult<V> {
    let count = V::count_spec(values.len());
    let last = final_value(values);
    let mean = last.power_spec(V::one_spec().over_spec(count)).minus_spec(V::one_spec());
    let logs = log_returns(values);
    let std = series_deviation(logs, series_mean(logs));
    RiskAnalysisResult {
        mean,
        std,
        annualized_return: V::one_spec().plus_spec(last.minus_spec(V::one_spec())).power_spec(
            scaler.over_spec(count),
        ).minus_spec(V::one_spec()),
        information_ratio: mean.over_spec(std).times_spec(scaler.root_spec()),
        max_drawdown: drawdown_of(Curve::Product, curve_values(Curve::Product, values)),
    }
}

/// The warnings of the product mode in order.
pub open spec fn product_warnings<V: Statistic>(values: Seq<V>, scaler: V) -> Seq<WarningModel> {
    let statistics = product_statistics(values, scaler);
    let count = V::count_spec(values.len());
    let last = final_value(values);
    let logs = log_returns(values);
    let annual = scaler.over_spec(count);
    product_curve_warnings(values) + warned_when(
        last.finite() && last.negative() && !V::one_spec().over_spec(count).whole(),
        "invalid value encountered in scalar power"@,
    ) + warned_when(zero_gross(values), "divide by zero encountered in log"@) + warned_when(
        negative_gross(values),
        "invalid value encountered in log"@,
    ) + deviation_warnings(logs, series_mean(logs)) + warned_when(
        last.finite() && last.negative() && annual.finite() && !annual.whole(),
        "invalid value encountered in scalar power"@,
    ) + ratio_warnings(statistics.mean, statistics.std, scaler)
}

/// The logarithms of the gross returns, with whether one of the gross returns is zero and
/// whether one is negative.
fn take_logarithms<V: Statistic>(values: &[V]) -> (result: (Vec<V>, bool, bool))
    ensures
        result.0@ == log_returns(values@),
        result.1 == zero_gross(values@),
        result.2 == negative_gross(values@),
{
    let mut logs: Vec<V> = Vec::new();
    let mut saw_zero = false;
    let mut saw_negative = false;
    let mut i: usize = 0;
    while i < values.len()
        invariant
            i <= values@.len(),
            logs@ == log_returns(values@).take(i as int),
            saw_zero == exists|j: int|
                0 <= j < i && V::one_spec().plus_spec(#[trigger] values@[j]).equals_spec(V::zero_spec()),
            saw_negative == exists|j: int|
                0 <= j < i && V::one_spec().plus_spec(#[trigger] values@[j]).below_spec(V::zero_spec()),
        decreases values@.len() - i,
    {
        let value: V = values[i];
        assert(value == values@[i as int]);
        let gross: V = V::one().plus(value);
        if gross.equals(V::zero()) {
            saw_zero = true;
        }
        if gross.below(V::zero()) {
            saw_negative = true;
        }
        logs.push(gross.logarithm());
        i += 1;
        assert(logs@ =~= log_returns(values@).take(i as int));
    }
    assert(logs@ =~= log_returns(values@));
    (logs, saw_zero, saw_negative)
}

/// The statistics of the product mode; none of no observations.
pub fn product_analysis<V: Statistic>(
    values: &[V],
    scaler: V,
    warnings: &mut Vec<RiskAnalysisWarning>,
) -> (result: Option<RiskAnalysisResult<V>>)
    ensures
        match result {
            Some(statistics) => values@.len() > 0 && statistics == product_statistics(values@, scaler)
                && warning_models(final(warnings)@) == warning_models(old(warnings)@) + product_warnings(
                values@,
                scaler,
            ),
            None => values@.len() == 0 && final(warnings)@ == old(warnings)@,
        },
        match result {
            Some(statistics) => statistics.annualized_return == V::one_spec().plus_spec(
                final_value(values@).minus_spec(V::one_spec()),
            ).power_spec(scaler.over_spec(V::count_spec(values@.len()))).minus_spec(V::one_spec()),
            None => true,
        },
{
    if values.len() == 0 {
        return None;
    }
    let ghost before = warning_models(warnings@);
    let curve = cumulative_values(values, Curve::Product);
    numeric_cumulative_product_warning(values, warnings);
    let ghost first = product_curve_warnings(values@);
    let last: V = curve[curve.len() - 1];
    let count: V = V::count(values.len());
    let mean_exponent: V = V::one().over(count);
    let mean_fails = last.is_finite() && last.is_negative() && !mean_exponent.is_whole();
    warn_when(mean_fails, "invalid value encountered in scalar power", warnings);
    let ghost second = first + warned_when(mean_fails, "invalid value encountered in scalar power"@);
    proof {
        warnings_join(before, first, warned_when(mean_fails, "invalid value encountered in scalar power"@));
    }
    let mean: V = last.power(mean_exponent).minus(V::one());
    let (logs, saw_zero, saw_negative) = take_logarithms(values);
    warn_when(saw_zero, "divide by zero encountered in log", warnings);
    warn_when(saw_negative, "invalid value encountered in log", warnings);
    let ghost third = second + warned_when(saw_zero, "divide by zero encountered in log"@);
    let ghost fourth = third + warned_when(saw_negative, "invalid value encountered in log"@);
    proof {
        warnings_join(before, second, warned_when(saw_zero, "divide by zero encountered in log"@));
        warnings_join(before, third, warned_when(saw_negative, "invalid value encountered in log"@));
    }
    let log_mean: V = pandas_mean(logs.as_slice());
    let std: V = pandas_sample_std(logs.as_slice(), log_mean);
    numeric_std_warning(logs.as_slice(), log_mean, warnings);
    let ghost fifth = fourth + deviation_warnings(logs@, log_mean);
    proof {
        warnings_join(before, fourth, deviation_warnings(logs@, log_mean));
    }
    let annual_exponent: V = scaler.over(count);
    let annual_fails = last.is_finite() && last.is_negative() && annual_exponent.is_finite()
        && !annual_exponent.is_whole();
    warn_when(annual_fails, "invalid value encountered in scalar power", warnings);
    let ghost sixth = fifth + warned_when(annual_fails, "invalid value encountered in scalar power"@);
    proof {
        warnings_join(before, fifth, warned_when(annual_fails, "invalid value encountered in scalar power"@));
    }
    let annual_base: V = V::one().plus(last.minus(V::one()));
    let annualized_return: V = annual_base.power(annual_exponent).minus(V::one());
    let max_drawdown: V = drawdown_min(curve.as_slice(), Curve::Product);
    scalar_information_warnings(mean, std, scaler, warnings);
    proof {
        warnings_join(before, sixth, ratio_warnings(mean, std, scaler));
    }
    Some(
        RiskAnalysisResult {
            mean,
            std,
            annualized_return,
            information_ratio: mean.over(std).times(scaler.root()),
            max_drawdown,
        },
    )
}

// ---- annualization ----------------------------------------------------------------------------

/// How many periods of a unit make a year.
pub open spec fn periods_in_year(unit: FrequencyUnit) -> nat {
    match unit {
        FrequencyUnit::Minute => 240 * 238,
        FrequencyUnit::Day => 238,
        FrequencyUnit::Week => 50,
        FrequencyUnit::Month => 12,
    }
}

/// The scaler of a frequency: none when it counts zero units.
pub open spec fn scaler_of<V: Statistic>(count: int, unit: FrequencyUnit) -> Option<V> {
    if count == 0 {
        None
    } else {
        Some(
            match V::of_integer_spec(count) {
                Some(number) => V::count_spec(periods_in_year(unit)).over_spec(number),
                None => V::zero_spec(),
            },
        )
    }
}

/// The scaler of a frequency.
pub fn annualization_scaler<V: Statistic>(frequency: &Frequency) -> (result: Option<V>)
    ensures
        result == scaler_of::<V>(frequency.count@, frequency.unit),
{
    if frequency.count.is_zero() {
        return None;
    }
    let periods: usize = match frequency.unit {
        FrequencyUnit::Minute => 57120,
        FrequencyUnit::Day => 238,
        FrequencyUnit::Week => 50,
        FrequencyUnit::Month => 12,
    };
    Some(
        match V::of_integer(&frequency.count) {
            Some(number) => V::count(periods).over(number),
            None => V::zero(),
        },
    )
}

/// The scaler of an analysis, or why there is none.
pub open spec fn chosen_scaler<V: Statistic, E>(
    n: Option<V>,
    frequency: Option<Result<Frequency, E>>,
) -> Result<V, RiskAnalysisError<E>> {
    match n {
        Some(scaler) => Ok(scaler),
        None => match frequency {
            None => Err(RiskAnalysisError::MissingAnnualization),
            Some(Err(source)) => Err(RiskAnalysisError::InvalidFrequency { source }),
            Some(Ok(frequency)) => match scaler_of::<V>(frequency.count@, frequency.unit) {
                Some(scaler) => Ok(scaler),
                None => Err(RiskAnalysisError::ZeroFrequency),
            },
        },
    }
}

/// The warning that a frequency beside a scaler brings.
pub open spec fn argument_warnings(ignored: bool) -> Seq<WarningModel> {
    if ignored {
        seq![(RiskAnalysisWarningCategory::UserWarning, "risk_analysis freq will be ignored"@)]
    } else {
        Seq::empty()
    }
}

/// The statistics of a series of returns. The frequency is what reading it gave; it counts only
/// where there is no scaler.
pub fn risk_analysis<V: Statistic, E>(
    series: &[V],
    n: Option<V>,
    frequency: Option<Result<Frequency, E>>,
    mode: &str,
) -> (result: Result<RiskAnalysisOutput<V>, RiskAnalysisError<E>>)
    ensures
        match chosen_scaler(n, frequency) {
            Err(failure) => result == Err::<RiskAnalysisOutput<V>, _>(failure),
            Ok(scaler) => if mode@ == "sum"@ {
                result matches Ok(output) && output.result == sum_statistics(series@, scaler)
                    && warning_models(output.warnings@) == argument_warnings(n is Some && frequency is Some)
                    + sum_warnings(series@, scaler)
            } else if mode@ == "product"@ {
                if series@.len() == 0 {
                    result matches Err(RiskAnalysisError::EmptyProduct)
                } else {
                    result matches Ok(output) && output.result == product_statistics(series@, scaler)
                        && warning_models(output.warnings@) == argument_warnings(n is Some && frequency is Some)
                        + product_warnings(series@, scaler)
                }
            } else {
                result matches Err(RiskAnalysisError::UnsupportedMode { mode: named }) && named@ == mode@
            },
        },
{
    let mut warnings: Vec<RiskAnalysisWarning> = Vec::new();
    let ghost ignored = n is Some && frequency is Some;
    let scaler: V = match n {
        Some(value) => {
            if frequency.is_some() {
                warnings.push(
                    RiskAnalysisWarning {
                        category: RiskAnalysisWarningCategory::UserWarning,
                        message: "risk_analysis freq will be ignored".to_owned(),
                    },
                );
            }
            value
        },
        None => match frequency {
            None => return Err(RiskAnalysisError::MissingAnnualization),
            Some(Err(source)) => return Err(RiskAnalysisError::InvalidFrequency { source }),
            Some(Ok(frequency)) => match annualization_scaler(&frequency) {
                Some(value) => value,
                None => return Err(RiskAnalysisError::ZeroFrequency),
            },
        },
    };
    assert(warning_models(warnings@) =~= argument_warnings(ignored));
    proof {
        reveal_strlit("sum");
        reveal_strlit("product");
        assert("sum"@.len() != "product"@.len());
    }
    if same_text(mode, "sum") {
        let result = sum_analysis(series, scaler, &mut warnings);
        Ok(RiskAnalysisOutput { result, warnings })
    } else if same_text(mode, "product") {
        match product_analysis(series, scaler, &mut warnings) {
            Some(result) => Ok(RiskAnalysisOutput { result, warnings }),
            None => Err(RiskAnalysisError::EmptyProduct),
        }
    } else {
        Err(RiskAnalysisError::UnsupportedMode { mode: mode.to_owned() })
    }
}

/// A missing return at the end moves neither the curve nor its drawdown.
pub proof fn missing_returns_move_no_curve<V: Statistic>(curve: Curve, values: Seq<V>, value: V)
    requires
        value.missing(),
        V::nothing_spec().missing(),
    ensures
        curve_end(curve, values.push(value)) == curve_end(curve, values),
        drawdown_of(curve, curve_values(curve, values.push(value))) == drawdown_of(curve, curve_values(curve, values)),
{
    let longer = values.push(value);
    assert(longer.drop_last() =~= values);
    let after = curve_values(curve, longer);
    assert forall|i: int| 0 <= i < values.len() implies after[i] == curve_values(curve, values)[i] by {
        assert(longer.take(i + 1) =~= values.take(i + 1));
    }
    assert(after.drop_last() =~= curve_values(curve, values));
    assert(after.last() == V::nothing_spec());
}

/// A scaler settles the statistics: a frequency beside it adds one warning and nothing else.
pub proof fn frequency_beside_scaler_is_ignored<V: Statistic, E>(scaler: V, frequency: Option<Result<Frequency, E>>)
    ensures
        chosen_scaler(Some(scaler), frequency) == chosen_scaler::<V, E>(Some(scaler), None),
        argument_warnings(frequency is Some).len() == if frequency is Some { 1nat } else { 0nat },
{
}

/// The peak never falls: each value of the peak is the greater of the one before and the value.
pub proof fn peaks_follow_values<V: Statistic>(values: Seq<V>, value: V)
    requires
        !value.missing(),
    ensures
        peak_of(values.push(value)) == match peak_of(values) {
            Some(peak) => Some(peak.greater_spec(value)),
            None => Some(value),
        },
{
    assert(values.push(value).drop_last() =~= values);
}

// ---- laws -------------------------------------------------------------------------------------

/// The total of a lane: the values at it and at every eighth place behind it.
spec fn lane_total(values: Seq<Ticks>, lane: int, blocks: nat) -> int
    decreases blocks,
{
    if blocks == 0 {
        held(values[lane])
    } else {
        lane_total(values, lane, (blocks - 1) as nat) + held(values[8 * blocks + lane])
    }
}

proof fn lane_sums_are_totals(values: Seq<Ticks>, lane: int, blocks: nat)
    requires
        lane_sum(values, lane, blocks).0 is Some,
    ensures
        held(lane_sum(values, lane, blocks)) == lane_total(values, lane, blocks),
    decreases blocks,
{
    if blocks > 0 {
        lane_sums_are_totals(values, lane, (blocks - 1) as nat);
    }
}

proof fn totals_grow(values: Seq<Ticks>, count: int)
    requires
        0 <= count < values.len(),
    ensures
        total(values.take(count + 1)) == total(values.take(count)) + held(values[count]),
{
    assert(values.take(count + 1).drop_last() =~= values.take(count));
}

proof fn lanes_cover_their_blocks(values: Seq<Ticks>, blocks: nat)
    requires
        8 * blocks + 8 <= values.len(),
    ensures
        lane_total(values, 0, blocks) + lane_total(values, 1, blocks) + lane_total(values, 2, blocks) + lane_total(
            values,
            3,
            blocks,
        ) + lane_total(values, 4, blocks) + lane_total(values, 5, blocks) + lane_total(values, 6, blocks) + lane_total(
            values,
            7,
            blocks,
        ) == total(values.take(8 * blocks as int + 8)),
    decreases blocks,
{
    let start = 8 * blocks as int;
    totals_grow(values, start);
    totals_grow(values, start + 1);
    totals_grow(values, start + 2);
    totals_grow(values, start + 3);
    totals_grow(values, start + 4);
    totals_grow(values, start + 5);
    totals_grow(values, start + 6);
    totals_grow(values, start + 7);
    if blocks == 0 {
        assert(values.take(0) =~= Seq::<Ticks>::empty());
    } else {
        lanes_cover_their_blocks(values, (blocks - 1) as nat);
    }
}

proof fn plain_sums_are_totals(start: Ticks, values: Seq<Ticks>)
    requires
        plain_sum(start, values).0 is Some,
    ensures
        start.0 is Some,
        held(plain_sum(start, values)) == held(start) + total(values),
    decreases values.len(),
{
    if values.len() > 0 {
        plain_sums_are_totals(start, values.drop_last());
    }
}

proof fn totals_join(left: Seq<Ticks>, right: Seq<Ticks>)
    ensures
        total(left + right) == total(left) + total(right),
    decreases right.len(),
{
    if right.len() > 0 {
        assert((left + right).drop_last() =~= left + right.drop_last());
        totals_join(left, right.drop_last());
    } else {
        assert(left + right =~= left);
    }
}

proof fn pairwise_sums_are_totals(values: Seq<Ticks>)
    requires
        pairwise_sum(values).0 is Some,
    ensures
        held(pairwise_sum(values)) == total(values),
    decreases values.len(),
{
    let length = values.len() as int;
    if length <= 7 {
        plain_sums_are_totals(Ticks(Some(0)), values);
    } else if length <= 128 {
        let blocks = (length / 8 - 1) as nat;
        let start = joined_lanes(values, blocks);
        let tail = length / 8 * 8;
        plain_sums_are_totals(start, values.skip(tail));
        lane_sums_are_totals(values, 0, blocks);
        lane_sums_are_totals(values, 1, blocks);
        lane_sums_are_totals(values, 2, blocks);
        lane_sums_are_totals(values, 3, blocks);
        lane_sums_are_totals(values, 4, blocks);
        lane_sums_are_totals(values, 5, blocks);
        lane_sums_are_totals(values, 6, blocks);
        lane_sums_are_totals(values, 7, blocks);
        lanes_cover_their_blocks(values, blocks);
        totals_join(values.take(tail), values.skip(tail));
        assert(values.take(tail) + values.skip(tail) =~= values);
    } else {
        let middle = length / 2 - (length / 2) % 8;
        pairwise_sums_are_totals(values.take(middle));
        pairwise_sums_are_totals(values.skip(middle));
        totals_join(values.take(middle), values.skip(middle));
        assert(values.take(middle) + values.skip(middle) =~= values);
    }
}

/// However a series is cut up to be added, its sum is what its values come to together.
pub proof fn pairwise_sums_lose_nothing(values: &[Ticks], result: Ticks)
    requires
        call_ensures(numpy_pairwise_sum::<Ticks>, (values,), result),
        result.0 is Some,
    ensures
        held(result) == total(values@),
{
    pairwise_sums_are_totals(values@);
}

proof fn replaced_totals(values: Seq<Ticks>)
    ensures
        total(replaced(values)) == present_total(values),
    decreases values.len(),
{
    if values.len() > 0 {
        assert(replaced(values).drop_last() =~= replaced(values.drop_last()));
        replaced_totals(values.drop_last());
    }
}

/// A mean that is there, taken as often as there are present values, is what they come to; without any
/// there is none.
pub proof fn means_balance_their_series(values: &[Ticks], result: Ticks, count: usize)
    requires
        call_ensures(pandas_mean::<Ticks>, (values,), result),
        call_ensures(non_nan_count::<Ticks>, (values,), count),
    ensures
        result.0 is Some ==> count > 0 && held(result) * count == present_total(values@),
        count == 0 ==> result.0 is None,
{
    if result.0 is Some {
        let sum = pairwise_sum(replaced(values@));
        quotients_undo(sum, Ticks::count_spec(present_count(values@)));
        pairwise_sums_are_totals(replaced(values@));
        replaced_totals(values@);
    }
}

proof fn deviation_totals(values: Seq<Ticks>, mean: i64)
    requires
        all_held(values),
        forall|i: int|
            0 <= i < values.len() ==> fits(held(#[trigger] values[i]) - mean) && fits(
                (held(values[i]) - mean) * (held(values[i]) - mean),
            ),
    ensures
        total(deviations(values, Ticks(Some(mean)))) == total_squares(values, mean as int),
    decreases values.len(),
{
    let squares = deviations(values, Ticks(Some(mean)));
    if values.len() > 0 {
        let fewer = values.drop_last();
        assert forall|i: int| 0 <= i < fewer.len() implies (#[trigger] fewer[i]).0 is Some && fits(
            held(fewer[i]) - mean,
        ) && fits((held(fewer[i]) - mean) * (held(fewer[i]) - mean)) by {
            assert(values[i].0 is Some);
        }
        deviation_totals(fewer, mean);
        assert(squares.drop_last() =~= deviations(fewer, Ticks(Some(mean))));
        assert(values[values.len() - 1].0 is Some);
    }
}

/// The square of a deviation that is there, taken once less than there are values, is what the squares
/// of the distances from the mean come to. Fewer than two values have none.
pub proof fn deviations_measure_the_spread(values: &[Ticks], mean: i64, result: Ticks)
    requires
        call_ensures(pandas_sample_std::<Ticks>, (values, Ticks(Some(mean))), result),
        all_held(values@),
        forall|i: int|
            0 <= i < values@.len() ==> fits(held(#[trigger] values@[i]) - mean) && fits(
                (held(values@[i]) - mean) * (held(values@[i]) - mean),
            ),
    ensures
        values@.len() < 2 ==> result.0 is None,
        result.0 is Some ==> held(result) * held(result) * (values@.len() - 1) == total_squares(values@, mean as int),
{
    held_quantities_are_present(values@);
    if result.0 is Some {
        let squares = deviations(values@, Ticks(Some(mean)));
        let sum = pairwise_sum(squares);
        let divisor = Ticks::count_spec((values@.len() - 1) as nat);
        let root = held(result);
        assert(root == 0 || root == 1);
        assert(root * root == root) by (nonlinear_arith)
            requires
                root == 0 || root == 1,
        ;
        quotients_undo(sum, divisor);
        pairwise_sums_are_totals(squares);
        deviation_totals(values@, mean);
    }
}

/// A curve moves by its returns and by nothing else: a sum grows by each of them, and a product by its
/// share. A sum begins at nothing and a product at one.
pub proof fn curves_move_by_their_returns(values: &[Ticks], curve: Curve, result: Vec<Ticks>, place: int)
    requires
        call_ensures(cumulative_values::<Ticks>, (values, curve), result),
        all_held(values@),
        0 <= place < values@.len(),
        result@[place].0 is Some,
    ensures
        result@.len() == values@.len(),
        place > 0 ==> result@[place - 1].0 is Some,
        ({
            let value = held(values@[place]);
            let before = if place > 0 {
                held(result@[place - 1])
            } else if curve == Curve::Sum {
                0
            } else {
                1
            };
            match curve {
                Curve::Sum => held(result@[place]) == before + value,
                Curve::Product => held(result@[place]) == before + before * value,
            }
        }),
        curve == Curve::Sum ==> held(result@[place]) == total(values@.take(place + 1)),
    decreases place,
{
    let part = values@.take(place + 1);
    assert(part.drop_last() =~= values@.take(place));
    assert(values@[place].0 is Some);
    assert(part.last() == values@[place]);
    totals_grow(values@, place);
    if place == 0 {
        assert(values@.take(0) =~= Seq::<Ticks>::empty());
    } else {
        assert(values@[place - 1].0 is Some);
        assert(values@.take(place - 1 + 1) =~= values@.take(place));
        curves_move_by_their_returns(values, curve, result, place - 1);
    }
    let before = held(curve_end(curve, values@.take(place)));
    let value = held(values@[place]);
    assert(before * (1 + value) == before + before * value) by (nonlinear_arith);
}

/// A missing return leaves the curve missing at its place and moves it nowhere else: the next value
/// goes on from the last one.
pub proof fn missing_returns_are_skipped(values: &[Ticks], curve: Curve, result: Vec<Ticks>, place: int)
    requires
        call_ensures(cumulative_values::<Ticks>, (values, curve), result),
        0 <= place < values@.len(),
        values@[place].0 is None,
    ensures
        result@[place].0 is None,
{
}

/// Whether a place is a peak of a curve up to another one.
pub open spec fn is_peak(curve: Seq<Ticks>, place: int, end: int) -> bool {
    &&& 0 <= place <= end < curve.len()
    &&& forall|k: int| 0 <= k <= end ==> held(#[trigger] curve[k]) <= held(curve[place])
}

proof fn peaks_are_peaks(values: Seq<Ticks>) -> (place: int)
    requires
        values.len() > 0,
        all_held(values),
    ensures
        is_peak(values, place, values.len() - 1),
        peak_of(values) == Some(values[place]),
    decreases values.len(),
{
    let fewer = values.drop_last();
    let last = values.len() - 1;
    assert(values[last].0 is Some);
    if fewer.len() == 0 {
        assert(peak_of(fewer) is None);
        0
    } else {
        assert forall|i: int| 0 <= i < fewer.len() implies (#[trigger] fewer[i]).0 is Some by {
            assert(values[i].0 is Some);
        }
        let place = peaks_are_peaks(fewer);
        assert(fewer[place] == values[place] && values[place].0 is Some);
        let found = if held(values[place]) < held(values[last]) {
            last
        } else {
            place
        };
        assert forall|k: int| 0 <= k <= last implies held(#[trigger] values[k]) <= held(values[found]) by {
            if k < last {
                assert(fewer[k] == values[k]);
            }
        }
        found
    }
}

/// Whether a whole number says how far a curve lies under a peak: in values of the curve, or in shares
/// of the peak.
pub open spec fn lies_under(curve: Curve, fall: int, value: int, peak: int) -> bool {
    match curve {
        Curve::Sum => fall == value - peak,
        Curve::Product => 0 <= value && 0 < peak && fall * peak == value - peak,
    }
}

proof fn drawdowns_lie_under(curve: Curve, value: Ticks, peak: Ticks, fall: int)
    requires
        value.0 is Some && peak.0 is Some,
    ensures
        curve.drawdown_spec(value, peak).0 is Some ==> lies_under(
            curve,
            held(curve.drawdown_spec(value, peak)),
            held(value),
            held(peak),
        ),
        fits(fall) && fits(fall + 1) && lies_under(curve, fall, held(value), held(peak)) ==> curve.drawdown_spec(value, peak)
            == ticks(fall),
{
    let (v, p) = (held(value), held(peak));
    if curve == Curve::Product {
        if value.over_spec(peak).0 is Some {
            quotients_undo(value, peak);
            let share = held(value.over_spec(peak));
            assert((share - 1) * p == share * p - p) by (nonlinear_arith);
        }
        if lies_under(curve, fall, v, p) {
            assert((fall + 1) * p == v) by (nonlinear_arith)
                requires
                    fall * p == v - p,
            ;
            assert(fall + 1 >= 0) by (nonlinear_arith)
                requires
                    (fall + 1) * p == v,
                    v >= 0,
                    p > 0,
            ;
            vstd::arithmetic::div_mod::lemma_fundamental_div_mod_converse(v, p, fall + 1, 0);
        }
    }
}

/// The drawdown of a curve is how far it fell under a peak before, at some place, and it fell no
/// further anywhere: it is the least of all falls that are whole numbers.
pub proof fn drawdowns_are_the_deepest_falls(values: &[Ticks], curve: Curve, result: Ticks)
    requires
        call_ensures(drawdown_min::<Ticks>, (values, curve), result),
        all_held(values@),
    ensures
        result.0 is Some ==> exists|end: int, peak: int| #[trigger]
            is_peak(values@, peak, end) && lies_under(curve, held(result), held(values@[end]), held(values@[peak])),
        forall|end: int, peak: int, fall: int| #[trigger]
            is_peak(values@, peak, end) && fits(fall) && fits(fall + 1) && #[trigger] lies_under(
                curve,
                fall,
                held(values@[end]),
                held(values@[peak]),
            ) ==> result.0 is Some && held(result) <= fall,
{
    deepest_falls(values@, curve);
}

proof fn deepest_falls(values: Seq<Ticks>, curve: Curve)
    requires
        all_held(values),
    ensures
        lowest_drawdown(curve, values) is Some ==> lowest_drawdown(curve, values)->Some_0.0 is Some,
        lowest_drawdown(curve, values) is Some ==> exists|end: int, peak: int| #[trigger]
            is_peak(values, peak, end) && lies_under(
                curve,
                held(lowest_drawdown(curve, values)->Some_0),
                held(values[end]),
                held(values[peak]),
            ),
        forall|end: int, peak: int, fall: int| #[trigger]
            is_peak(values, peak, end) && fits(fall) && fits(fall + 1) && #[trigger] lies_under(
                curve,
                fall,
                held(values[end]),
                held(values[peak]),
            ) ==> lowest_drawdown(curve, values) is Some && held(lowest_drawdown(curve, values)->Some_0) <= fall,
    decreases values.len(),
{
    if values.len() > 0 {
        let fewer = values.drop_last();
        let last = values.len() - 1;
        assert(values[last].0 is Some);
        assert forall|i: int| 0 <= i < fewer.len() implies (#[trigger] fewer[i]).0 is Some by {
            assert(values[i].0 is Some);
        }
        deepest_falls(fewer, curve);
        let top = peaks_are_peaks(values);
        assert(values[top].0 is Some);
        let drawdown = curve.drawdown_spec(values.last(), values[top]);
        drawdowns_lie_under(curve, values.last(), values[top], 0);
        let before = lowest_drawdown(curve, fewer);
        let lowest = lowest_drawdown(curve, values);
        if before is Some {
            let (end, peak) = choose|end: int, peak: int| #[trigger]
                is_peak(fewer, peak, end) && lies_under(curve, held(before->Some_0), held(fewer[end]), held(fewer[peak]));
            assert(fewer[end] == values[end] && fewer[peak] == values[peak]);
            assert forall|k: int| 0 <= k <= end implies held(#[trigger] values[k]) <= held(values[peak]) by {
                assert(fewer[k] == values[k]);
            }
            assert(is_peak(values, peak, end));
        }
        assert(is_peak(values, top, last));
        assert forall|end: int, peak: int, fall: int| #[trigger]
            is_peak(values, peak, end) && fits(fall) && fits(fall + 1) && #[trigger] lies_under(
                curve,
                fall,
                held(values[end]),
                held(values[peak]),
            ) implies lowest is Some && held(lowest->Some_0) <= fall by {
            if end < last {
                assert(fewer[end] == values[end] && fewer[peak] == values[peak]);
                assert forall|k: int| 0 <= k <= end implies held(#[trigger] fewer[k]) <= held(fewer[peak]) by {
                    assert(fewer[k] == values[k]);
                }
                assert(is_peak(fewer, peak, end));
                assert(lies_under(curve, fall, held(fewer[end]), held(fewer[peak])));
            } else {
                assert(held(values[top]) <= held(values[peak]) && held(values[peak]) <= held(values[top]));
                drawdowns_lie_under(curve, values.last(), values[top], fall);
            }
        }
    }
}

/// The statistics of the sum mode are the mean and the deviation of the returns and the deepest fall of
/// their sums; a year's return is the mean as often as the scaler says.
pub proof fn sums_are_analysed_as_they_stand<V: Statistic>(
    values: &[V],
    scaler: V,
    warnings: &mut Vec<RiskAnalysisWarning>,
    result: RiskAnalysisResult<V>,
    mean: V,
    std: V,
    curve: Vec<V>,
    points: &[V],
    fall: V,
)
    requires
        call_ensures(sum_analysis::<V>, (values, scaler, warnings), result),
        call_ensures(pandas_mean::<V>, (values,), mean),
        call_ensures(pandas_sample_std::<V>, (values, mean), std),
        call_ensures(cumulative_values::<V>, (values, Curve::Sum), curve),
        points@ == curve@,
        call_ensures(drawdown_min::<V>, (points, Curve::Sum), fall),
    ensures
        result.mean == mean,
        result.std == std,
        result.max_drawdown == fall,
        result.annualized_return == mean.times_spec(scaler),
        result.information_ratio == mean.over_spec(std).times_spec(scaler.root_spec()),
{
}

/// The statistics of the product mode: the last value of the curve is what one became. One observation
/// on average is its root of the number of observations, and a year its power of the scaler over that
/// number, each without the one that it began with. The deviation is that of the logarithms.
pub proof fn products_are_analysed_by_their_growth<V: Statistic>(
    values: &[V],
    scaler: V,
    warnings: &mut Vec<RiskAnalysisWarning>,
    result: Option<RiskAnalysisResult<V>>,
    curve: Vec<V>,
    points: &[V],
    fall: V,
    logs: &[V],
    log_mean: V,
    std: V,
)
    requires
        call_ensures(product_analysis::<V>, (values, scaler, warnings), result),
        call_ensures(cumulative_values::<V>, (values, Curve::Product), curve),
        points@ == curve@,
        call_ensures(drawdown_min::<V>, (points, Curve::Product), fall),
        logs@.len() == values@.len(),
        forall|i: int|
            0 <= i < values@.len() ==> #[trigger] logs@[i] == V::one_spec().plus_spec(values@[i]).logarithm_spec(),
        call_ensures(pandas_mean::<V>, (logs,), log_mean),
        call_ensures(pandas_sample_std::<V>, (logs, log_mean), std),
    ensures
        result is None <==> values@.len() == 0,
        result is Some ==> ({
            let found = result->Some_0;
            let (one, count) = (V::one_spec(), V::count_spec(values@.len()));
            let last = curve@.last();
            &&& found.std == std
            &&& found.max_drawdown == fall
            &&& found.mean == last.power_spec(one.over_spec(count)).minus_spec(one)
            &&& found.annualized_return == one.plus_spec(last.minus_spec(one)).power_spec(
                scaler.over_spec(count),
            ).minus_spec(one)
            &&& found.information_ratio == found.mean.over_spec(std).times_spec(scaler.root_spec())
        }),
{
    assert(logs@ =~= log_returns(values@));
}

/// A year's return in the product mode, with the one that it began with, is the whole growth taken as
/// many times over as the scaler holds the number of observations. Where the scaler is that number, it
/// is the growth itself.
pub proof fn years_repeat_the_whole_growth(
    values: &[Ticks],
    scaler: i64,
    warnings: &mut Vec<RiskAnalysisWarning>,
    result: Option<RiskAnalysisResult<Ticks>>,
    curve: Vec<Ticks>,
    growth: i64,
)
    requires
        call_ensures(product_analysis::<Ticks>, (values, Ticks(Some(scaler)), warnings), result),
        call_ensures(cumulative_values::<Ticks>, (values, Curve::Product), curve),
        0 < values@.len() <= i64::MAX,
        curve@.last() == Ticks(Some(growth)),
        growth > i64::MIN,
    ensures
        result is Some,
        result->Some_0.annualized_return.0 is Some ==> exists|times: nat|
            scaler == times * values@.len() && held(result->Some_0.annualized_return) + 1 == #[trigger] pow(
                growth as int,
                times,
            ),
        scaler == values@.len() ==> result->Some_0.annualized_return == Ticks(Some((growth - 1) as i64)),
        result->Some_0.mean.0 is Some ==> pow(held(result->Some_0.mean) + 1, values@.len()) == growth,
        values@.len() == 1 ==> result->Some_0.mean == Ticks(Some((growth - 1) as i64)),
{
    reveal(pow);
    let count = values@.len();
    let exponent = Ticks(Some(scaler)).over_spec(Ticks::count_spec(count));
    let annual = result->Some_0.annualized_return;
    assert(pow(growth as int, 0) == 1);
    assert(pow(growth as int, 1) == growth) by {
        assert(growth * 1 == growth);
    }
    if annual.0 is Some {
        assert(exponent.0 is Some);
        quotients_undo(Ticks(Some(scaler)), Ticks::count_spec(count));
        let times = held(exponent) as nat;
        assert(times == 0 || times == 1);
        assert(scaler == times * count && held(annual) + 1 == pow(growth as int, times));
    }
    if scaler == count {
        vstd::arithmetic::div_mod::lemma_fundamental_div_mod_converse(scaler as int, count as int, 1, 0);
        assert(exponent == Ticks(Some(1)));
    }
    let share = Ticks(Some(1)).over_spec(Ticks::count_spec(count));
    if share.0 is Some {
        quotients_undo(Ticks(Some(1)), Ticks::count_spec(count));
        let part = held(share);
        assert(count == 1) by (nonlinear_arith)
            requires
                part * count == 1,
                part >= 0,
                count >= 1,
        ;
        let mean = result->Some_0.mean;
        assert(share == Ticks(Some(1)));
        assert(pow(held(mean) + 1, 1) == held(mean) + 1) by {
            assert((held(mean) + 1) * 1 == held(mean) + 1);
        }
    }
    if count == 1 {
        vstd::arithmetic::div_mod::lemma_fundamental_div_mod_converse(1, 1, 1, 0);
    }
}

/// A year's return in the sum mode is the mean as often as the scaler says, and the square of the
/// information ratio times the square of the deviation is the square of the mean as often.
pub proof fn years_repeat_the_mean(
    values: &[Ticks],
    scaler: i64,
    warnings: &mut Vec<RiskAnalysisWarning>,
    result: RiskAnalysisResult<Ticks>,
)
    requires
        call_ensures(sum_analysis::<Ticks>, (values, Ticks(Some(scaler)), warnings), result),
    ensures
        result.annualized_return.0 is Some ==> result.mean.0 is Some && held(result.annualized_return) == held(result.mean)
            * scaler,
        result.information_ratio.0 is Some ==> ({
            let (ratio, std, mean) = (held(result.information_ratio), held(result.std), held(result.mean));
            (ratio * std) * (ratio * std) == (mean * mean) * scaler
        }),
{
    if result.information_ratio.0 is Some {
        let quotient = result.mean.over_spec(result.std);
        quotients_undo(result.mean, result.std);
        let (q, std, mean) = (held(quotient), held(result.std), held(result.mean));
        let root = scaler as int;
        assert(root == 0 || root == 1);
        let ratio = held(result.information_ratio);
        assert(ratio == q * root);
        assert((ratio * std) * (ratio * std) == (mean * mean) * root) by (nonlinear_arith)
            requires
                ratio == q * root,
                q * std == mean,
                root == 0 || root == 1,
        ;
    }
}

/// The scaler of a frequency, as often as the frequency counts, is how many of its units a year has: two
/// hundred and forty minutes to each of two hundred and thirty-eight days, fifty weeks or twelve months.
pub proof fn scalers_divide_the_year(frequency: Frequency, result: Option<Ticks>)
    requires
        call_ensures(annualization_scaler::<Ticks>, (&frequency,), result),
        fits(frequency.count@),
    ensures
        result is None <==> frequency.count@ == 0,
        result is Some && result->Some_0.0 is Some ==> held(result->Some_0) * frequency.count@ == match frequency.unit {
            FrequencyUnit::Minute => 240 * 238,
            FrequencyUnit::Day => 238,
            FrequencyUnit::Week => 50,
            FrequencyUnit::Month => 12,
        },
{
    if result is Some && result->Some_0.0 is Some {
        quotients_undo(Ticks::count_spec(periods_in_year(frequency.unit)), Ticks(Some(frequency.count@ as i64)));
    }
}

/// An analysis goes by its mode: it gives what the analysis of sums or of products gives, with the
/// scaler that was handed in, or else with that of the frequency.
pub proof fn analyses_go_by_their_mode<V: Statistic, E>(
    series: &[V],
    n: Option<V>,
    frequency: Option<Result<Frequency, E>>,
    mode: &str,
    result: Result<RiskAnalysisOutput<V>, RiskAnalysisError<E>>,
    scaler: V,
    of_frequency: Option<V>,
    warnings: &mut Vec<RiskAnalysisWarning>,
    others: &mut Vec<RiskAnalysisWarning>,
    summed: RiskAnalysisResult<V>,
    multiplied: Option<RiskAnalysisResult<V>>,
)
    requires
        call_ensures(risk_analysis::<V, E>, (series, n, frequency, mode), result),
        match (n, frequency) {
            (Some(given), _) => scaler == given,
            (None, Some(Ok(read))) => call_ensures(annualization_scaler::<V>, (&read,), of_frequency) && of_frequency == Some(
                scaler,
            ),
            _ => false,
        },
        call_ensures(sum_analysis::<V>, (series, scaler, warnings), summed),
        call_ensures(product_analysis::<V>, (series, scaler, others), multiplied),
    ensures
        mode@ == "sum"@ ==> result is Ok && result->Ok_0.result == summed,
        mode@ == "product"@ ==> (result is Ok <==> multiplied is Some) && (result is Ok ==> result->Ok_0.result
            == multiplied->Some_0),
        mode@ != "sum"@ && mode@ != "product"@ ==> result is Err,
{
    reveal_strlit("sum");
    reveal_strlit("product");
    assert("sum"@.len() != "product"@.len());
}

/// The statistics are listed under their own names.
pub proof fn statistics_stand_under_their_names<V: Statistic>(
    statistics: RiskAnalysisResult<V>,
    values: [V; 5],
    names: [&'static str; 5],
)
    requires
        call_ensures(RiskAnalysisResult::<V>::ordered_values, (statistics,), values),
        call_ensures(risk_analysis_fields, (), names),
    ensures
        names@[0]@ == "mean"@ && values@[0] == statistics.mean,
        names@[1]@ == "std"@ && values@[1] == statistics.std,
        names@[2]@ == "annualized_return"@ && values@[2] == statistics.annualized_return,
        names@[3]@ == "information_ratio"@ && values@[3] == statistics.information_ratio,
        names@[4]@ == "max_drawdown"@ && values@[4] == statistics.max_drawdown,
{
}

} // verus!
