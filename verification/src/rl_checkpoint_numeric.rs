//! Unicode numeric fields of format specifications.
use vstd::prelude::*;

use crate::format_spec::{after_char, after_separator, cut_spec, field_limit, separator, zero_end};
use crate::integer::decimal_digits;
use crate::text::{append_chars, decimal_chars, from_chars, sub_chars, to_chars, TextResult, text_result};
use crate::unicode::{decimal_digit, decimal_value};

verus! {

/// The position after a run of decimal digits of any script.
pub open spec fn after_decimals(text: Seq<char>, at: int) -> int
    decreases text.len() - at,
{
    if 0 <= at < text.len() && decimal_value(text[at]) is Some {
        after_decimals(text, at + 1)
    } else {
        at
    }
}

/// The value of a run of decimal digits of any script.
pub open spec fn decimals_value(text: Seq<char>, start: int, end: int) -> int
    decreases end - start,
{
    if end <= start {
        0
    } else {
        decimals_value(text, start, end - 1) * 10 + decimal_value(text[end - 1])->Some_0
    }
}

/// Whether all characters are ASCII.
pub open spec fn is_ascii_text(text: Seq<char>) -> bool {
    forall|i: int| 0 <= i < text.len() ==> (#[trigger] text[i] as int) < 128
}

/// A numeric field in ASCII digits without leading zeros; nothing for an empty field.
pub open spec fn field_text(text: Seq<char>, start: int, end: int) -> Seq<char> {
    if end <= start {
        Seq::empty()
    } else {
        decimal_digits(decimals_value(text, start, end) as nat)
    }
}

/// The position after an optional precision mark.
pub open spec fn after_point(text: Seq<char>, at: int) -> int {
    after_char(text, at, '.')
}

/// A specification with its width and precision in ASCII digits. Fill, flags and what follows the
/// precision stay as they are.
pub open spec fn normalized(text: Seq<char>) -> TextResult {
    if is_ascii_text(text) {
        Ok(text)
    } else {
        let head = zero_end(text);
        let width = after_decimals(text, head);
        let group = after_separator(text, width);
        let point = after_point(text, group);
        let precision = if point > group {
            after_decimals(text, point)
        } else {
            point
        };
        if decimals_value(text, head, width) > field_limit() {
            Err("format numeric field is too large"@)
        } else if decimals_value(text, point, precision) > field_limit() {
            Err("format numeric field is too large"@)
        } else {
            Ok(
                text.take(head) + field_text(text, head, width) + text.subrange(width, point) + field_text(
                    text,
                    point,
                    precision,
                ) + text.skip(precision),
            )
        }
    }
}

fn is_ascii(text: &[char]) -> (result: bool)
    ensures
        result == is_ascii_text(text@),
{
    let mut i: usize = 0;
    while i < text.len()
        invariant
            i <= text@.len(),
            forall|j: int| 0 <= j < i ==> (#[trigger] text@[j] as int) < 128,
        decreases text@.len() - i,
    {
        let ch: char = text[i];
        if ch > '\u{7f}' {
            assert(text@[i as int] as int >= 128);
            return false;
        }
        i += 1;
    }
    true
}

pub proof fn value_grows(text: Seq<char>, start: int, middle: int, end: int)
    requires
        0 <= start <= middle <= end <= text.len(),
        forall|i: int| start <= i < end ==> decimal_value(#[trigger] text[i]) is Some,
    ensures
        0 <= decimals_value(text, start, middle) <= decimals_value(text, start, end),
    decreases end - start,
{
    if start < end {
        assert(decimal_value(text[end - 1]) is Some);
        if middle < end {
            value_grows(text, start, middle, end - 1);
        } else if start < middle {
            value_grows(text, start, end - 1, end - 1);
        }
    }
}

pub proof fn decimals_extend(text: Seq<char>, at: int)
    requires
        0 <= at <= text.len(),
    ensures
        at <= after_decimals(text, at) <= text.len(),
        forall|i: int| at <= i < after_decimals(text, at) ==> decimal_value(#[trigger] text[i]) is Some,
    decreases text.len() - at,
{
    if at < text.len() && decimal_value(text[at]) is Some {
        decimals_extend(text, at + 1);
    }
}

/// Reads a numeric field: the position after it and its value.
fn number(text: &[char], at: usize) -> (result: Result<(usize, usize), String>)
    requires
        at <= text@.len(),
    ensures
        match result {
            Ok(field) => {
                &&& field.0 == after_decimals(text@, at as int)
                &&& at <= field.0 <= text@.len()
                &&& field.1 == decimals_value(text@, at as int, field.0 as int)
                &&& field.1 <= field_limit()
            },
            Err(error) => error@ == "format numeric field is too large"@ && decimals_value(
                text@,
                at as int,
                after_decimals(text@, at as int),
            ) > field_limit(),
        },
{
    let limit: usize = isize::MAX as usize;
    let mut value: usize = 0;
    let mut end: usize = at;
    while end < text.len()
        invariant_except_break
            at <= end <= text@.len(),
        invariant
            at <= end <= text@.len(),
            limit == field_limit(),
            value <= limit,
            value == decimals_value(text@, at as int, end as int),
            after_decimals(text@, at as int) == after_decimals(text@, end as int),
            forall|i: int| at <= i < end ==> decimal_value(#[trigger] text@[i]) is Some,
        ensures
            end == after_decimals(text@, end as int),
        decreases text@.len() - end,
    {
        let d: usize = match decimal_digit(text[end]) {
            Some(d) => d,
            None => break,
        };
        if value > limit / 10 || value * 10 > limit - d {
            proof {
                let last = after_decimals(text@, at as int);
                decimals_extend(text@, end as int);
                decimals_extend(text@, end + 1);
                assert(last >= end + 1);
                assert forall|i: int| at <= i < last implies decimal_value(#[trigger] text@[i]) is Some by {}
                value_grows(text@, at as int, end + 1, last);
                assert(decimals_value(text@, at as int, end + 1) == value * 10 + d);
            }
            return Err("format numeric field is too large".to_owned());
        }
        value = value * 10 + d;
        end += 1;
    }
    Ok((end, value))
}


/// Rewrites the numeric fields of a specification in ASCII digits.
pub fn normalize_numeric_fields(spec: &str) -> (result: Result<String, String>)
    ensures
        text_result(result) == normalized(spec@),
{
    let text = to_chars(spec);
    if is_ascii(text.as_slice()) {
        return Ok(spec.to_owned());
    }
    let cut = cut_spec(text.as_slice());
    let head: usize = cut.zero;
    let (width, width_value) = match number(text.as_slice(), head) {
        Ok(field) => field,
        Err(error) => return Err(error),
    };
    let mut output = sub_chars(text.as_slice(), 0, head);
    if width > head {
        append_chars(&mut output, decimal_chars(width_value).as_slice());
    }
    let group: usize = if width < text.len() && separator(text[width]) {
        width + 1
    } else {
        width
    };
    let point: usize = if group < text.len() && text[group] == '.' {
        group + 1
    } else {
        group
    };
    append_chars(&mut output, sub_chars(text.as_slice(), width, point).as_slice());
    let mut rest: usize = point;
    if point > group {
        let (precision, value) = match number(text.as_slice(), point) {
            Ok(field) => field,
            Err(error) => return Err(error),
        };
        if precision > point {
            append_chars(&mut output, decimal_chars(value).as_slice());
        }
        rest = precision;
    }
    append_chars(&mut output, sub_chars(text.as_slice(), rest, text.len()).as_slice());
    proof {
        assert(text@.subrange(0, head as int) =~= text@.take(head as int));
        assert(text@.subrange(rest as int, text@.len() as int) =~= text@.skip(rest as int));
        let start = text@.take(head as int);
        let first = field_text(text@, head as int, width as int);
        let second = field_text(text@, point as int, rest as int);
        assert(output@ =~= start + first + text@.subrange(width as int, point as int) + second + text@.skip(rest as int));
    }
    Ok(from_chars(output.as_slice()))
}

} // verus!
