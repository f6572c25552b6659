//! Exchange, calendar and account as order execution sees them.
use crate::number::Number;
use crate::ordered::{value_of, OrderedMap};
use crate::saoe::SaoePluginError;
use crate::text::{append_chars, from_chars, to_chars};
use vstd::prelude::*;

verus! {

/// The calendar and the account of a nested executor, with its frequency.
#[derive(Debug)]
pub struct NestedAccountSaoeContext<C, A> {
    pub calendar: C,
    pub account: A,
    pub frequency: String,
}

impl<C, A> NestedAccountSaoeContext<C, A> {
    pub fn new(calendar: C, account: A, frequency: String) -> (result: Self)
        ensures
            result.calendar == calendar,
            result.account == account,
            result.frequency@ == frequency@,
    {
        NestedAccountSaoeContext { calendar, account, frequency }
    }
}

/// What an exchange answers.
#[derive(Debug)]
pub enum MarketDataValue<V> {
    Scalar(V),
    Series(Vec<V>),
}

/// The message about an answer.
pub open spec fn query_message(kind: Seq<char>, said: Seq<char>) -> Seq<char> {
    "SAOE "@ + kind + " query returned "@ + said
}

fn query_error(kind: &str, said: &str) -> (result: SaoePluginError)
    ensures
        result.message@ == query_message(kind@, said@),
{
    let mut message = to_chars("SAOE ");
    append_chars(&mut message, to_chars(kind).as_slice());
    append_chars(&mut message, to_chars(" query returned ").as_slice());
    append_chars(&mut message, to_chars(said).as_slice());
    SaoePluginError { message: from_chars(message.as_slice()) }
}

/// The series that an exchange answered.
pub fn market_array<V>(kind: &str, value: Option<MarketDataValue<V>>) -> (result: Result<Vec<V>, SaoePluginError>)
    ensures
        match value {
            Some(MarketDataValue::Series(values)) => result matches Ok(series) && series@ == values@,
            Some(MarketDataValue::Scalar(_)) => result matches Err(error) && error.message@ == query_message(
                kind@,
                "a scalar instead of a series"@,
            ),
            None => result matches Err(error) && error.message@ == query_message(kind@, "no data"@),
        },
{
    match value {
        Some(MarketDataValue::Series(values)) => Ok(values),
        Some(MarketDataValue::Scalar(_)) => Err(query_error(kind, "a scalar instead of a series")),
        None => Err(query_error(kind, "no data")),
    }
}

/// The current price advantage of an account's summary.
pub fn latest_price_advantage<V: Number>(row: &OrderedMap<V>) -> (result: Result<V, SaoePluginError>)
    ensures
        match value_of(row@, "pa"@) {
            Some(value) => result matches Ok(found) && found == value,
            None => result matches Err(error) && error.message@
                == "SAOE account indicator has no current price advantage"@,
        },
{
    match row.get("pa") {
        Some(value) => Ok(*value),
        None => Err(
            SaoePluginError {
                message: "SAOE account indicator has no current price advantage".to_owned(),
            },
        ),
    }
}

} // verus!
