//! The fields of a format specification.
use vstd::prelude::*;

use crate::text::{digit, digit_number, digits_value, is_digit};

verus! {

/// Whether a character aligns.
pub open spec fn is_align(ch: char) -> bool {
    ch == '<' || ch == '>' || ch == '=' || ch == '^'
}

/// Whether a character is a sign option.
pub open spec fn is_sign(ch: char) -> bool {
    ch == '+' || ch == '-' || ch == ' '
}

/// Whether a character separates groups.
pub open spec fn is_separator(ch: char) -> bool {
    ch == ',' || ch == '_'
}

/// Whether a character selects a floating-point presentation.
pub open spec fn is_float_kind(ch: char) -> bool {
    ch == 'e' || ch == 'E' || ch == 'f' || ch == 'F' || ch == 'g' || ch == 'G' || ch == '%'
}

/// Whether a character is an ASCII letter.
pub open spec fn is_letter(ch: char) -> bool {
    'a' <= ch <= 'z' || 'A' <= ch <= 'Z'
}

pub fn align(ch: char) -> (result: bool)
    ensures
        result == is_align(ch),
{
    ch == '<' || ch == '>' || ch == '=' || ch == '^'
}

pub fn sign(ch: char) -> (result: bool)
    ensures
        result == is_sign(ch),
{
    ch == '+' || ch == '-' || ch == ' '
}

pub fn separator(ch: char) -> (result: bool)
    ensures
        result == is_separator(ch),
{
    ch == ',' || ch == '_'
}

pub fn float_kind(ch: char) -> (result: bool)
    ensures
        result == is_float_kind(ch),
{
    ch == 'e' || ch == 'E' || ch == 'f' || ch == 'F' || ch == 'g' || ch == 'G' || ch == '%'
}

pub fn letter(ch: char) -> (result: bool)
    ensures
        result == is_letter(ch),
{
    ('a' <= ch && ch <= 'z') || ('A' <= ch && ch <= 'Z')
}

/// The length of the alignment field: a fill character counts only before an alignment.
pub open spec fn layout_end(text: Seq<char>) -> int {
    if text.len() >= 2 && is_align(text[1]) {
        2
    } else if text.len() >= 1 && is_align(text[0]) {
        1
    } else {
        0
    }
}

/// The position after an optional character.
pub open spec fn after_char(text: Seq<char>, at: int, ch: char) -> int {
    if 0 <= at < text.len() && text[at] == ch {
        at + 1
    } else {
        at
    }
}

/// The position after an optional sign.
pub open spec fn after_sign(text: Seq<char>, at: int) -> int {
    if 0 <= at < text.len() && is_sign(text[at]) {
        at + 1
    } else {
        at
    }
}

/// The position after an optional group separator.
pub open spec fn after_separator(text: Seq<char>, at: int) -> int {
    if 0 <= at < text.len() && is_separator(text[at]) {
        at + 1
    } else {
        at
    }
}

/// The position after a run of digits.
pub open spec fn after_digits(text: Seq<char>, at: int) -> int
    decreases text.len() - at,
{
    if 0 <= at < text.len() && is_digit(text[at]) {
        after_digits(text, at + 1)
    } else {
        at
    }
}

/// Where the leading fields of a specification end.
pub struct SpecCut {
    /// The end of fill and alignment.
    pub layout: usize,
    /// The end of sign, zero coercion and alternate form.
    pub flags: usize,
    /// The end of the zero-fill flag.
    pub zero: usize,
    /// The end of the width.
    pub width: usize,
    /// The end of the group separator.
    pub group: usize,
}

/// The end of sign, zero coercion and alternate form.
pub open spec fn flags_end(text: Seq<char>) -> int {
    after_char(text, after_char(text, after_sign(text, layout_end(text)), 'z'), '#')
}

/// The end of the zero-fill flag.
pub open spec fn zero_end(text: Seq<char>) -> int {
    after_char(text, flags_end(text), '0')
}

/// The end of the width.
pub open spec fn width_end(text: Seq<char>) -> int {
    after_digits(text, zero_end(text))
}

/// The end of the group separator.
pub open spec fn group_end(text: Seq<char>) -> int {
    after_separator(text, width_end(text))
}

/// Whether the leading fields of a specification end at the given places.
pub open spec fn is_cut(text: Seq<char>, cut: SpecCut) -> bool {
    &&& cut.layout == layout_end(text)
    &&& cut.flags == flags_end(text)
    &&& cut.zero == zero_end(text)
    &&& cut.width == width_end(text)
    &&& cut.group == group_end(text)
    &&& cut.layout <= cut.flags <= cut.zero <= cut.width <= cut.group <= text.len()
}

pub proof fn digits_advance(text: Seq<char>, at: int)
    requires
        0 <= at <= text.len(),
    ensures
        at <= after_digits(text, at) <= text.len(),
        forall|i: int| at <= i < after_digits(text, at) ==> is_digit(#[trigger] text[i]),
        after_digits(text, at) < text.len() ==> !is_digit(text[after_digits(text, at)]),
    decreases text.len() - at,
{
    if at < text.len() && is_digit(text[at]) {
        digits_advance(text, at + 1);
    }
}

/// Skips a run of digits.
pub fn skip_digits(text: &[char], at: usize) -> (result: usize)
    requires
        at <= text@.len(),
    ensures
        result == after_digits(text@, at as int),
        at <= result <= text@.len(),
        forall|i: int| at <= i < result ==> is_digit(#[trigger] text@[i]),
        result < text@.len() ==> !is_digit(text@[result as int]),
{
    let mut end: usize = at;
    while end < text.len() && digit(text[end])
        invariant
            at <= end <= text@.len(),
            after_digits(text@, at as int) == after_digits(text@, end as int),
            forall|i: int| at <= i < end ==> is_digit(#[trigger] text@[i]),
        decreases text@.len() - end,
    {
        end += 1;
    }
    end
}

fn skip_char(text: &[char], at: usize, ch: char) -> (result: usize)
    requires
        at <= text@.len(),
    ensures
        result == after_char(text@, at as int, ch),
        at <= result <= text@.len(),
{
    if at < text.len() && text[at] == ch {
        at + 1
    } else {
        at
    }
}

/// Finds where the leading fields of a specification end.
pub fn cut_spec(text: &[char]) -> (result: SpecCut)
    ensures
        is_cut(text@, result),
{
    let layout: usize = if text.len() >= 2 && align(text[1]) {
        2
    } else if text.len() >= 1 && align(text[0]) {
        1
    } else {
        0
    };
    let signed: usize = if layout < text.len() && sign(text[layout]) {
        layout + 1
    } else {
        layout
    };
    let coerced: usize = skip_char(text, signed, 'z');
    let flags: usize = skip_char(text, coerced, '#');
    let zero: usize = skip_char(text, flags, '0');
    let width: usize = skip_digits(text, zero);
    let group: usize = if width < text.len() && separator(text[width]) {
        width + 1
    } else {
        width
    };
    SpecCut { layout, flags, zero, width, group }
}

/// The largest number that a numeric field may hold.
pub open spec fn field_limit() -> int {
    isize::MAX as int
}

/// Whether every run of digits stays within a limit.
#[verifier::opaque]
pub open spec fn runs_within(text: Seq<char>, limit: int) -> bool {
    forall|start: int, end: int|
        #![trigger text.subrange(start, end)]
        0 <= start <= end <= text.len() && (forall|i: int| start <= i < end ==> is_digit(#[trigger] text[i]))
            ==> digits_value(text.subrange(start, end)) <= limit
}

/// A run of digits stays within the limit of its text.
pub proof fn run_stays_within(text: Seq<char>, limit: int, start: int, end: int)
    requires
        runs_within(text, limit),
        0 <= start <= end <= text.len(),
        forall|i: int| start <= i < end ==> is_digit(#[trigger] text[i]),
    ensures
        digits_value(text.subrange(start, end)) <= limit,
{
    reveal(runs_within);
}

proof fn value_not_negative(digits: Seq<char>)
    requires
        forall|i: int| 0 <= i < digits.len() ==> is_digit(#[trigger] digits[i]),
    ensures
        digits_value(digits) >= 0,
    decreases digits.len(),
{
    if digits.len() > 0 {
        assert forall|i: int| 0 <= i < digits.drop_last().len() implies is_digit(#[trigger] digits.drop_last()[i]) by {
            assert(digits.drop_last()[i] == digits[i]);
        }
        value_not_negative(digits.drop_last());
        assert(is_digit(digits[digits.len() - 1]));
    }
}

/// A run of digits is worth no less than a part of it.
pub proof fn part_is_worth_less(text: Seq<char>, start: int, end: int, inner_start: int, inner_end: int)
    requires
        0 <= start <= inner_start <= inner_end <= end <= text.len(),
        forall|i: int| start <= i < end ==> is_digit(#[trigger] text[i]),
    ensures
        0 <= digits_value(text.subrange(inner_start, inner_end)) <= digits_value(text.subrange(start, end)),
    decreases end - start,
{
    let inner = text.subrange(inner_start, inner_end);
    assert forall|i: int| 0 <= i < inner.len() implies is_digit(#[trigger] inner[i]) by {
        assert(text[inner_start + i] == inner[i]);
    }
    value_not_negative(inner);
    let whole = text.subrange(start, end);
    if inner_end < end {
        assert(whole.drop_last() =~= text.subrange(start, end - 1));
        part_is_worth_less(text, start, end - 1, inner_start, inner_end);
        assert(is_digit(text[end - 1]));
    } else if start < inner_start {
        suffix_is_worth_less(text, start, end, inner_start);
    } else {
        assert(inner =~= whole);
    }
}

proof fn suffix_is_worth_less(text: Seq<char>, start: int, end: int, inner_start: int)
    requires
        0 <= start <= inner_start <= end <= text.len(),
        forall|i: int| start <= i < end ==> is_digit(#[trigger] text[i]),
    ensures
        digits_value(text.subrange(inner_start, end)) <= digits_value(text.subrange(start, end)),
    decreases end,
{
    let whole = text.subrange(start, end);
    let suffix = text.subrange(inner_start, end);
    if inner_start == end {
        assert forall|i: int| 0 <= i < whole.len() implies is_digit(#[trigger] whole[i]) by {
            assert(text[start + i] == whole[i]);
        }
        value_not_negative(whole);
    } else {
        suffix_is_worth_less(text, start, end - 1, inner_start);
        assert(whole.drop_last() =~= text.subrange(start, end - 1));
        assert(suffix.drop_last() =~= text.subrange(inner_start, end - 1));
    }
}

/// Checks that every run of digits stays within the largest numeric field.
pub fn digit_runs_fit(text: &[char]) -> (result: bool)
    ensures
        result == runs_within(text@, field_limit()),
{
    digit_runs_within(text, isize::MAX as usize)
}

/// Checks that every run of digits stays within a limit.
pub fn digit_runs_within(text: &[char], limit: usize) -> (result: bool)
    requires
        limit >= 9,
    ensures
        result == runs_within(text@, limit as int),
{
    reveal(runs_within);
    let mut start: usize = 0;
    let mut value: usize = 0;
    let mut i: usize = 0;
    assert(text@.subrange(0, 0) =~= Seq::<char>::empty());
    while i < text.len()
        invariant
            start <= i <= text@.len(),
            limit >= 9,
            value <= limit,
            value == digits_value(text@.subrange(start as int, i as int)),
            forall|k: int| start <= k < i ==> is_digit(#[trigger] text@[k]),
            start > 0 ==> !is_digit(text@[start - 1]),
            forall|a: int, b: int|
                #![trigger text@.subrange(a, b)]
                0 <= a <= b <= start && (forall|k: int| a <= k < b ==> is_digit(#[trigger] text@[k])) ==> digits_value(
                    text@.subrange(a, b),
                ) <= limit,
        decreases text@.len() - i,
    {
        if digit(text[i]) {
            let d: usize = digit_number(text[i]);
            proof {
                let wider = text@.subrange(start as int, i + 1);
                assert(wider.drop_last() =~= text@.subrange(start as int, i as int));
                assert(digits_value(wider) == value * 10 + d);
            }
            if value > limit / 10 || value * 10 > limit - d {
                proof {
                    reveal(runs_within);
                    assert(value * 10 + d > limit);
                    assert forall|k: int| start <= k < i + 1 implies is_digit(#[trigger] text@[k]) by {}
                    assert(digits_value(text@.subrange(start as int, i + 1)) > limit);
                }
                return false;
            }
            value = value * 10 + d;
        } else {
            proof {
                assert forall|a: int, b: int|
                    #![trigger text@.subrange(a, b)]
                    0 <= a <= b <= i + 1 && (forall|k: int| a <= k < b ==> is_digit(#[trigger] text@[k])) implies digits_value(
                    text@.subrange(a, b),
                ) <= limit by {
                    run_before(text@, start as int, i as int, a, b, limit as int);
                }
            }
            start = i + 1;
            value = 0;
            assert(text@.subrange(start as int, start as int) =~= Seq::<char>::empty());
        }
        i += 1;
    }
    proof {
        assert forall|a: int, b: int|
            #![trigger text@.subrange(a, b)]
            0 <= a <= b <= text@.len() && (forall|k: int| a <= k < b ==> is_digit(#[trigger] text@[k])) implies digits_value(
            text@.subrange(a, b),
        ) <= limit by {
            run_before(text@, start as int, i as int, a, b, limit as int);
        }
    }
    true
}

/// A run that ends no later than the character after `end` stays within the limit, where the run
/// from `start` to `end` does and every run before it does.
proof fn run_before(text: Seq<char>, start: int, end: int, a: int, b: int, limit: int)
    requires
        0 <= start <= end <= text.len(),
        forall|k: int| start <= k < end ==> is_digit(#[trigger] text[k]),
        start > 0 ==> !is_digit(text[start - 1]),
        end < text.len() ==> !is_digit(text[end]),
        0 <= a <= b <= text.len(),
        b <= end + 1,
        forall|k: int| a <= k < b ==> is_digit(#[trigger] text[k]),
        digits_value(text.subrange(start, end)) <= limit,
        0 <= limit,
        forall|x: int, y: int|
            #![trigger text.subrange(x, y)]
            0 <= x <= y <= start && (forall|k: int| x <= k < y ==> is_digit(#[trigger] text[k])) ==> digits_value(
                text.subrange(x, y),
            ) <= limit,
    ensures
        digits_value(text.subrange(a, b)) <= limit,
{
    if b <= start {
    } else if a >= b {
        assert(text.subrange(a, b) =~= Seq::<char>::empty());
    } else {
        if b == end + 1 && end < text.len() {
            assert(is_digit(text[end]));
        }
        if a < start {
            assert(is_digit(text[start - 1]));
        }
        part_is_worth_less(text, start, end, a, b);
    }
}

} // verus!
