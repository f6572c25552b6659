//! Sampling frequencies.
use crate::integer::Integer;
use vstd::prelude::*;

verus! {

/// The unit in which a frequency counts.
#[derive(Clone, Copy, Debug, PartialEq, Eq, Structural)]
pub enum FrequencyUnit {
    Month,
    Week,
    Day,
    Minute,
}

/// A number of units.
#[derive(Debug)]
pub struct Frequency {
    pub count: Integer,
    pub unit: FrequencyUnit,
}

} // verus!
