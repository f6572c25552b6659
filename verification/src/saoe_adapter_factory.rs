//! What the adapters of orders are made with.
use crate::frequency::{Frequency, FrequencyUnit};
use crate::integer::Integer;
use crate::saoe::SaoePluginError;
use crate::text::{append_chars, from_chars, to_chars};
use vstd::prelude::*;

verus! {

/// What one adapter is made with.
#[derive(Debug)]
pub struct SaoeAdapterInputs<M, C, D> {
    pub market: M,
    pub context: C,
    pub config: SaoeAdapterConfig<D>,
}

/// The settings of one adapter.
#[derive(Debug)]
pub struct SaoeAdapterConfig<D> {
    pub backtest_data: D,
    pub ticks_per_step: usize,
    pub data_granularity: usize,
    pub start_step: i64,
}

/// A factory of adapters over a provider of their inputs.
#[derive(Debug)]
pub struct ConfiguredSaoeStateAdapterFactory<I> {
    pub inputs: I,
}

impl<I> ConfiguredSaoeStateAdapterFactory<I> {
    pub fn new(inputs: I) -> (result: Self)
        ensures
            result.inputs == inputs,
    {
        ConfiguredSaoeStateAdapterFactory { inputs }
    }
}

/// Whether an error has a message.
pub open spec fn says(error: SaoePluginError, message: Seq<char>) -> bool {
    error.message@ == message
}

/// The minutes of a step: whole ones, of a frequency that does not count in months. The minutes of
/// the frequency are given with it, and the frequency as a text for the message.
pub fn ticks_per_step(frequency: &Frequency, minutes: &Integer, text: &str) -> (result: Result<
    usize,
    SaoePluginError,
>)
    ensures
        if frequency.unit == FrequencyUnit::Month {
            result is Err && says(result->Err_0, "SAOE executor frequency cannot use calendar months"@)
        } else if 0 <= minutes@ <= usize::MAX {
            result matches Ok(ticks) && ticks == minutes@
        } else {
            result is Err && says(result->Err_0, "SAOE executor frequency is too large: "@ + text@)
        },
{
    if frequency.unit == FrequencyUnit::Month {
        return Err(
            SaoePluginError { message: "SAOE executor frequency cannot use calendar months".to_owned() },
        );
    }
    match minutes.to_usize() {
        Some(ticks) => Ok(ticks),
        None => {
            let mut message = to_chars("SAOE executor frequency is too large: ");
            append_chars(&mut message, to_chars(text).as_slice());
            Err(SaoePluginError { message: from_chars(message.as_slice()) })
        },
    }
}

/// The first step of a decision: that of its range, or zero without one.
pub fn start_step(range: Option<(i64, i64)>) -> (result: i64)
    ensures
        result == match range {
            Some(bounds) => bounds.0,
            None => 0,
        },
{
    match range {
        Some(bounds) => bounds.0,
        None => 0,
    }
}

/// What the owner of the plugins does next for the inputs of an adapter.
pub enum InputsStep {
    /// Load the data of the order for the range.
    LoadData,
    /// Read the minutes of a step.
    TicksPerStep,
    /// Read the first step of the decision.
    StartStep,
    Finished,
    Failed(SaoePluginError),
}

/// Inputs under way: the data comes first, then the minutes of a step, then the first step.
pub struct InputsRead<D> {
    data: Option<D>,
    ticks_per_step: Option<usize>,
}

impl<D> InputsRead<D> {
    pub closed spec fn data(&self) -> Option<D> {
        self.data
    }

    pub closed spec fn ticks(&self) -> Option<usize> {
        self.ticks_per_step
    }

    /// Begins: the outer decision must have a range.
    pub fn begin(has_range: bool) -> (result: (Self, InputsStep))
        ensures
            result.0.data() is None,
            result.0.ticks() is None,
            if has_range {
                result.1 is LoadData
            } else {
                result.1 matches InputsStep::Failed(error) && says(
                    error,
                    "SAOE adapter construction requires an outer trade range"@,
                )
            },
    {
        let read = InputsRead { data: None, ticks_per_step: None };
        if has_range {
            (read, InputsStep::LoadData)
        } else {
            (
                read,
                InputsStep::Failed(
                    SaoePluginError {
                        message: "SAOE adapter construction requires an outer trade range".to_owned(),
                    },
                ),
            )
        }
    }

    pub fn data_loaded(&mut self, reply: Result<D, SaoePluginError>) -> (result: InputsStep)
        ensures
            match reply {
                Ok(data) => result is TicksPerStep && final(self).data() == Some(data) && final(self).ticks()
                    == old(self).ticks(),
                Err(error) => result == InputsStep::Failed(error) && *final(self) == *old(self),
            },
    {
        match reply {
            Ok(data) => {
                self.data = Some(data);
                InputsStep::TicksPerStep
            },
            Err(error) => InputsStep::Failed(error),
        }
    }

    pub fn ticks_read(&mut self, reply: Result<usize, SaoePluginError>) -> (result: InputsStep)
        ensures
            match reply {
                Ok(ticks) => result is StartStep && final(self).ticks() == Some(ticks) && final(self).data()
                    == old(self).data(),
                Err(error) => result == InputsStep::Failed(error) && *final(self) == *old(self),
            },
    {
        match reply {
            Ok(ticks) => {
                self.ticks_per_step = Some(ticks);
                InputsStep::StartStep
            },
            Err(error) => InputsStep::Failed(error),
        }
    }

    /// Ends with the settings of the adapter.
    pub fn start_read(self, reply: Result<i64, SaoePluginError>, data_granularity: usize) -> (result: Result<
        SaoeAdapterConfig<D>,
        SaoePluginError,
    >)
        requires
            self.data() is Some,
            self.ticks() is Some,
        ensures
            match reply {
                Ok(start) => result matches Ok(config) && config.backtest_data == self.data()->Some_0
                    && config.ticks_per_step == self.ticks()->Some_0 && config.data_granularity == data_granularity
                    && config.start_step == start,
                Err(error) => result == Err::<SaoeAdapterConfig<D>, _>(error),
            },
    {
        match reply {
            Ok(start_step) => Ok(
                SaoeAdapterConfig {
                    backtest_data: self.data.unwrap(),
                    ticks_per_step: self.ticks_per_step.unwrap(),
                    data_granularity,
                    start_step,
                },
            ),
            Err(error) => Err(error),
        }
    }
}

} // verus!
