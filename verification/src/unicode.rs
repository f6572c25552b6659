//! Unicode properties of characters.
use intl::unicode::{age, general_category, numeric_type, numeric_value, Group, NumericType};
use vstd::prelude::*;

verus! {

/// A group of categories of characters.
#[derive(Clone, Copy, Debug, PartialEq, Eq, Structural)]
pub enum CharacterGroup {
    Letter,
    Mark,
    Number,
    Punctuation,
    Symbol,
    Separator,
    /// Controls, formats, private use and what is not assigned.
    Other,
}

/// Whether `intl::unicode::numeric_type` gives a character the type of a decimal digit.
pub uninterp spec fn unicode_is_decimal(ch: char) -> bool;

/// The numerator that `intl::unicode::numeric_value` gives a character.
pub uninterp spec fn unicode_numerator(ch: char) -> Option<i64>;

/// The Unicode version that `intl::unicode::age` gives a character.
pub uninterp spec fn unicode_age(ch: char) -> Option<(u8, u8)>;

/// The group of the category that `intl::unicode::general_category` gives a character.
pub uninterp spec fn unicode_group(ch: char) -> CharacterGroup;

/// `intl::unicode::numeric_type`: whether a character is a decimal digit.
#[verifier::external_body]
fn char_is_decimal(ch: char) -> (result: bool)
    ensures
        result == unicode_is_decimal(ch),
{
    matches!(numeric_type(ch), Some(NumericType::Decimal))
}

/// `intl::unicode::numeric_value`: the numerator of a character's value. A decimal digit has one
/// between zero and nine.
#[verifier::external_body]
fn char_numerator(ch: char) -> (result: Option<i64>)
    ensures
        result == unicode_numerator(ch),
        result is Some && result->Some_0 >= 0 && result->Some_0 <= 9 || !unicode_is_decimal(ch),
{
    numeric_value(ch).map(|value| value.numerator)
}

/// `intl::unicode::age`: the Unicode version in which a character was assigned.
#[verifier::external_body]
fn char_age(ch: char) -> (result: Option<(u8, u8)>)
    ensures
        result == unicode_age(ch),
{
    age(ch)
}

/// `intl::unicode::general_category` and its `group`: the group that a character belongs to.
#[verifier::external_body]
fn char_group(ch: char) -> (result: CharacterGroup)
    ensures
        result == unicode_group(ch),
{
    match general_category(ch).group() {
        Group::Letter => CharacterGroup::Letter,
        Group::Mark => CharacterGroup::Mark,
        Group::Number => CharacterGroup::Number,
        Group::Punctuation => CharacterGroup::Punctuation,
        Group::Symbol => CharacterGroup::Symbol,
        Group::Separator => CharacterGroup::Separator,
        Group::Other => CharacterGroup::Other,
    }
}

/// Whether the characters of a group are not shown: separators and others.
pub open spec fn hides(group: CharacterGroup) -> bool {
    group == CharacterGroup::Separator || group == CharacterGroup::Other
}

/// Whether the characters of a group are not shown.
pub fn is_hidden(group: CharacterGroup) -> (result: bool)
    ensures
        result == hides(group),
{
    match group {
        CharacterGroup::Separator | CharacterGroup::Other => true,
        _ => false,
    }
}

/// Whether a character was assigned by the Unicode version that names are rendered with.
pub open spec fn assigned(version: Option<(u8, u8)>) -> bool {
    version matches Some(number) && (number.0 < 16 || number.0 == 16 && number.1 == 0)
}

/// Whether a version is not later than the one that names are rendered with.
pub fn is_assigned(version: Option<(u8, u8)>) -> (result: bool)
    ensures
        result == assigned(version),
{
    match version {
        Some(number) => number.0 < 16 || (number.0 == 16 && number.1 == 0),
        None => false,
    }
}

/// The value of a decimal digit of any script.
pub open spec fn decimal_value(ch: char) -> Option<int> {
    if unicode_is_decimal(ch) && assigned(unicode_age(ch)) {
        match unicode_numerator(ch) {
            Some(value) => if 0 <= value <= 9 {
                Some(value as int)
            } else {
                None
            },
            None => None,
        }
    } else {
        None
    }
}

/// The value of a decimal digit of any script.
pub fn decimal_digit(ch: char) -> (result: Option<usize>)
    ensures
        match result {
            Some(value) => decimal_value(ch) == Some(value as int) && value <= 9,
            None => decimal_value(ch) is None,
        },
{
    if char_is_decimal(ch) && is_assigned(char_age(ch)) {
        match char_numerator(ch) {
            Some(value) => Some(value as usize),
            None => None,
        }
    } else {
        None
    }
}

/// Whether a character beyond ASCII is shown as it is.
pub open spec fn printable(ch: char) -> bool {
    assigned(unicode_age(ch)) && !hides(unicode_group(ch))
}

/// Whether a character beyond ASCII is shown as it is.
pub fn is_printable(ch: char) -> (result: bool)
    ensures
        result == printable(ch),
{
    is_assigned(char_age(ch)) && !is_hidden(char_group(ch))
}

} // verus!
