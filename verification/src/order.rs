//! Orders, their direction and the points in time they refer to.
use vstd::prelude::*;

verus! {

/// The side of an order.
#[derive(Clone, Copy, Debug, PartialEq, Eq, PartialOrd, Ord, Hash, Structural)]
pub enum OrderDir {
    Sell,
    Buy,
}

/// A point in time: whole seconds since the epoch and the fraction of a second in nanoseconds.
#[derive(Clone, Copy, Debug, PartialEq, Eq, PartialOrd, Ord, Hash, Structural)]
pub struct Timestamp {
    pub seconds: i64,
    pub nanos: u32,
}

impl Timestamp {
    /// Whether this point is not after another one.
    pub open spec fn at_or_before(self, other: Timestamp) -> bool {
        self.seconds < other.seconds || self.seconds == other.seconds && self.nanos <= other.nanos
    }

    /// The number of whole days since the epoch, rounded down.
    pub open spec fn day_spec(self) -> int {
        self.seconds as int / 86400
    }

    /// The seconds since the start of the day.
    pub open spec fn second_of_day_spec(self) -> int {
        self.seconds as int % 86400
    }

    pub fn le(self, other: Timestamp) -> (result: bool)
        ensures
            result == self.at_or_before(other),
    {
        self.seconds < other.seconds || (self.seconds == other.seconds && self.nanos <= other.nanos)
    }

    /// The day that the point falls on.
    pub fn day(self) -> (result: i64)
        ensures
            result == self.day_spec(),
    {
        if self.seconds >= 0 {
            self.seconds / 86400
        } else {
            let above: i64 = -(self.seconds + 1);
            assert(self.seconds as int / 86400 == -(above as int / 86400) - 1) by (nonlinear_arith)
                requires
                    above as int == -(self.seconds as int + 1),
                    above >= 0,
            ;
            -(above / 86400) - 1
        }
    }

    /// The time of day, as a point on the first day.
    pub fn time_of_day(self) -> (result: Timestamp)
        ensures
            result.seconds == self.second_of_day_spec(),
            result.nanos == self.nanos,
    {
        let rest: i64 = if self.seconds >= 0 {
            self.seconds % 86400
        } else {
            let above: i64 = -(self.seconds + 1);
            assert(self.seconds as int % 86400 == 86399 - above as int % 86400) by (nonlinear_arith)
                requires
                    above as int == -(self.seconds as int + 1),
                    above >= 0,
            ;
            86399 - above % 86400
        };
        Timestamp { seconds: rest, nanos: self.nanos }
    }
}

/// A point in time is its day and its time of the day: the seconds of the days before it and those
/// since its day began make up its own, and a day has as many as there are in twenty-four hours.
pub proof fn days_and_times_make_up_the_point(point: Timestamp, day: i64, time: Timestamp)
    requires
        call_ensures(Timestamp::day, (point,), day),
        call_ensures(Timestamp::time_of_day, (point,), time),
    ensures
        day * (24 * 60 * 60) + time.seconds == point.seconds,
        0 <= time.seconds < 24 * 60 * 60,
        time.nanos == point.nanos,
{
}

/// Points in time stand in one order: of two of them one is not after the other, both only where they
/// are the same, and what is not after a point is not after any later one.
pub proof fn points_stand_in_one_order(
    first: Timestamp,
    second: Timestamp,
    third: Timestamp,
    onward: bool,
    back: bool,
    further: bool,
    over: bool,
)
    requires
        call_ensures(Timestamp::le, (first, second), onward),
        call_ensures(Timestamp::le, (second, first), back),
        call_ensures(Timestamp::le, (second, third), further),
        call_ensures(Timestamp::le, (first, third), over),
    ensures
        onward || back,
        onward && back <==> first == second,
        onward && further ==> over,
        first.seconds < second.seconds ==> onward,
        first.seconds == second.seconds && first.nanos < second.nanos ==> onward,
{
}

} // verus!
