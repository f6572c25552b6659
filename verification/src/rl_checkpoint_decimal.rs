//! Formatting of integers of any size, by an engine that counts characters in 32 bits.
use rustpython_format::FormatSpec;
use vstd::prelude::*;

use crate::format_spec::{
    cut_spec, field_limit, flags_end, group_end, is_float_kind, is_letter, is_separator, layout_end, letter, runs_within,
    width_end, zero_end,
};
use crate::integer::decimal_text;
use crate::rl_checkpoint_format::{digits_number, spec_flags, spec_width};
use crate::text::{append_chars, digits_value, from_chars, is_digit, sub_chars, text_result, to_chars};

verus! {

/// What `rustpython_format::FormatSpec` gives for the number with a decimal text and a
/// specification.
pub uninterp spec fn rustpython_integer(decimal: Seq<char>, spec: Seq<char>) -> Result<Seq<char>, Seq<char>>;

/// `FormatSpec::parse` and `FormatSpec::format_int`: the text, or the failure in debug form, that
/// they give. Character and floating-point presentations can panic there, and so can widths and
/// groups whose characters it cannot count in 32 bits: these are left out.
#[verifier::external_body]
fn engine_decimal(decimal: &str, spec: &str) -> (result: Result<String, String>)
    requires
        exists|value: int| decimal@ == #[trigger] decimal_text(value),
        spec@.len() > 0 ==> spec@.last() != 'c' && !is_float_kind(spec@.last()),
        countable(decimal@, spec@),
    ensures
        text_result(result) == rustpython_integer(decimal@, spec@),
{
    let format = FormatSpec::parse(spec).map_err(|error| format!("{error:?}"))?;
    let number = decimal.parse().expect("a decimal text is a number");
    format.format_int(&number).map_err(|error| format!("{error:?}"))
}

/// The signed number that the low 32 bits of a number hold.
pub open spec fn low_bits(value: int) -> int {
    (value + 0x8000_0000) % 0x1_0000_0000 - 0x8000_0000
}

/// Whether 32 bits hold a signed number.
pub open spec fn in_bits(value: int) -> bool {
    i32::MIN <= value <= i32::MAX
}

/// A quotient, rounded toward zero.
pub open spec fn toward_zero(value: int, by: int) -> int {
    if value >= 0 {
        value / by
    } else {
        -((-value) / by)
    }
}

/// A number, or zero for a negative one.
pub open spec fn at_least_zero(value: int) -> int {
    if value < 0 {
        0
    } else {
        value
    }
}

/// The characters of digits in groups, which fill a width with zeros; none where a count does not fit
/// in 32 bits.
pub open spec fn grouped_length(digits: int, head: int, every: int, width: Option<int>) -> Option<int> {
    let known = low_bits(digits);
    let room = low_bits(
        match width {
            Some(wide) => wide,
            None => digits,
        },
    ) - head;
    let counted = if room > known {
        room
    } else {
        known
    };
    let cells = if counted % (every + 1) == 0 {
        counted + 1
    } else {
        counted
    };
    let separators = toward_zero(cells, every + 1);
    if !in_bits(room) || !in_bits(cells - known) {
        None
    } else if cells > known && cells - known > separators {
        Some(digits + (cells - known - separators) + at_least_zero(separators))
    } else if known == i32::MIN {
        None
    } else {
        Some(digits + at_least_zero(toward_zero(known - 1, every)))
    }
}

/// Whether the characters of a number can be counted in 32 bits: its digits, in groups if there are
/// any, behind its sign and prefix, and the fill up to a width if there is one.
pub open spec fn counts_fit(digits: int, head: int, every: Option<int>, width: Option<int>) -> bool {
    let length = match every {
        Some(count) => grouped_length(digits, head, count, width),
        None => Some(digits),
    };
    match (length, width) {
        (None, _) => false,
        (Some(_), None) => true,
        (Some(shown), Some(wide)) => in_bits(low_bits(wide) - low_bits(shown)) && in_bits(
            low_bits(wide) - low_bits(shown) - head,
        ),
    }
}

/// A specification behind a conversion, which the engine would skip.
pub open spec fn unconverted(spec: Seq<char>) -> Seq<char> {
    if spec.len() >= 2 && spec[0] == '!' && (spec[1] == 's' || spec[1] == 'r' || spec[1] == 'a' || spec[1] == 'b') {
        spec.skip(2)
    } else {
        spec
    }
}

/// What stands behind the leading fields of a specification.
pub open spec fn presentation(spec: Seq<char>) -> Seq<char> {
    spec.skip(group_end(spec))
}

/// Whether at most one letter stands behind the leading fields: the engine shows no integer otherwise.
pub open spec fn is_shown(spec: Seq<char>) -> bool {
    presentation(spec).len() == 0 || presentation(spec).len() == 1 && is_letter(presentation(spec)[0])
}

/// The specification of a number without fill, width and groups.
pub open spec fn alone(spec: Seq<char>) -> Seq<char> {
    spec_flags(spec) + presentation(spec)
}

/// Whether the digits of a presentation have a base of their own.
pub open spec fn is_based(kind: Seq<char>) -> bool {
    kind.len() > 0 && (kind[0] == 'b' || kind[0] == 'o' || kind[0] == 'x' || kind[0] == 'X')
}

/// The characters of the sign and of the prefix of a number.
pub open spec fn head_length(decimal: Seq<char>, spec: Seq<char>) -> int {
    let flags = spec_flags(spec);
    let sign = if decimal.len() > 0 && decimal[0] == '-' || flags.len() > 0 && (flags[0] == '+' || flags[0] == ' ') {
        1int
    } else {
        0
    };
    let prefix = if flags.len() > 0 && flags.last() == '#' && is_based(presentation(spec)) {
        2int
    } else {
        0
    };
    sign + prefix
}

/// The digits of a group, if a specification groups digits.
pub open spec fn group_size(spec: Seq<char>) -> Option<int> {
    if group_end(spec) == width_end(spec) {
        None
    } else if is_based(presentation(spec)) {
        Some(4)
    } else {
        Some(3)
    }
}

/// The width of a specification, if it has one.
pub open spec fn field_width(spec: Seq<char>) -> Option<int> {
    if width_end(spec) == zero_end(spec) {
        None
    } else {
        Some(digits_value(spec_width(spec)))
    }
}

/// Whether the engine can count the characters that a number is shown with.
pub open spec fn countable(decimal: Seq<char>, spec: Seq<char>) -> bool {
    let plain = unconverted(spec);
    let every = group_size(plain);
    let width = field_width(plain);
    !is_shown(plain) || every is None && width is None || match rustpython_integer(decimal, alone(plain)) {
        Err(_) => true,
        Ok(body) => body.len() >= head_length(decimal, plain) && counts_fit(
            body.len() - head_length(decimal, plain),
            head_length(decimal, plain),
            every,
            width,
        ),
    }
}

/// What an integer formats to. A number whose characters cannot be counted is refused.
pub open spec fn decimal_rendered(decimal: Seq<char>, spec: Seq<char>) -> Result<Seq<char>, Seq<char>> {
    if countable(decimal, spec) {
        rustpython_integer(decimal, spec)
    } else {
        Err("format width is too large"@)
    }
}

fn hold_low_bits(value: u128) -> (result: i64)
    ensures
        result == low_bits(value as int),
        i32::MIN <= result <= i32::MAX,
{
    let low: u128 = value % 0x1_0000_0000;
    if low >= 0x8000_0000 {
        low as i64 - 0x1_0000_0000
    } else {
        low as i64
    }
}

fn fits_bits(value: i64) -> (result: bool)
    ensures
        result == in_bits(value as int),
{
    i32::MIN as i64 <= value && value <= i32::MAX as i64
}

fn divide(value: i64, by: u64) -> (result: i64)
    requires
        by > 0,
        -0x1_0000_0000 <= value <= 0x1_0000_0000,
    ensures
        result == toward_zero(value as int, by as int),
        -0x1_0000_0000 <= result <= 0x1_0000_0000,
{
    if value >= 0 {
        let quotient: u64 = value as u64 / by;
        assert(quotient <= value) by (nonlinear_arith)
            requires
                quotient == value as u64 / by,
                by > 0,
                value >= 0,
        ;
        quotient as i64
    } else {
        let positive: u64 = (-value) as u64;
        let quotient: u64 = positive / by;
        assert(quotient <= positive) by (nonlinear_arith)
            requires
                quotient == positive / by,
                by > 0,
        ;
        -(quotient as i64)
    }
}

fn is_multiple(value: i64, by: u64) -> (result: bool)
    requires
        by == 4 || by == 5,
        -0x1_0000_0000 <= value <= 0x1_0000_0000,
    ensures
        result == (value as int % by as int == 0),
{
    let whole: u64 = if value < 0 {
        (-value) as u64
    } else {
        value as u64
    };
    proof {
        if by == 4 {
            assert(value as int % 4 == 0 <==> whole as int % 4 == 0);
        } else {
            assert(value as int % 5 == 0 <==> whole as int % 5 == 0);
        }
    }
    whole % by == 0
}

fn count_grouped(digits: usize, head: usize, every: u64, width: Option<usize>) -> (result: Option<u128>)
    requires
        head <= 3,
        every == 3 || every == 4,
    ensures
        match grouped_length(
            digits as int,
            head as int,
            every as int,
            match width {
                Some(wide) => Some(wide as int),
                None => None,
            },
        ) {
            Some(length) => result == Some(length as u128) && 0 <= length <= u128::MAX,
            None => result is None,
        },
{
    let known: i64 = hold_low_bits(digits as u128);
    let asked: usize = match width {
        Some(wide) => wide,
        None => digits,
    };
    let room: i64 = hold_low_bits(asked as u128) - head as i64;
    let counted: i64 = if room > known {
        room
    } else {
        known
    };
    let cells: i64 = if is_multiple(counted, every + 1) {
        counted + 1
    } else {
        counted
    };
    let separators: i64 = divide(cells, every + 1);
    let padding: i64 = cells - known;
    if !fits_bits(room) || !fits_bits(padding) {
        None
    } else if padding > 0 && padding > separators {
        let zeros: u64 = (padding - separators) as u64;
        let marks: u64 = if separators < 0 {
            0
        } else {
            separators as u64
        };
        Some(digits as u128 + zeros as u128 + marks as u128)
    } else if known == i32::MIN as i64 {
        None
    } else {
        let found: i64 = divide(known - 1, every);
        let marks: u64 = if found < 0 {
            0
        } else {
            found as u64
        };
        Some(digits as u128 + marks as u128)
    }
}

fn check_counts(digits: usize, head: usize, every: Option<u64>, width: Option<usize>) -> (result: bool)
    requires
        head <= 3,
        every matches Some(count) ==> count == 3 || count == 4,
    ensures
        result == counts_fit(
            digits as int,
            head as int,
            match every {
                Some(count) => Some(count as int),
                None => None,
            },
            match width {
                Some(wide) => Some(wide as int),
                None => None,
            },
        ),
{
    let length: u128 = match every {
        Some(count) => match count_grouped(digits, head, count, width) {
            Some(length) => length,
            None => return false,
        },
        None => digits as u128,
    };
    match width {
        Some(wide) => {
            let left: i64 = hold_low_bits(wide as u128) - hold_low_bits(length);
            fits_bits(left) && fits_bits(left - head as i64)
        },
        None => true,
    }
}

proof fn alone_has_no_fields(spec: Seq<char>)
    requires
        is_shown(spec),
        0 <= layout_end(spec) <= flags_end(spec) <= group_end(spec) <= spec.len(),
    ensures
        unconverted(alone(spec)) == alone(spec),
        group_size(alone(spec)) is None,
        field_width(alone(spec)) is None,
{
    let text = alone(spec);
    let flags = spec_flags(spec);
    assert forall|i: int| 0 <= i < text.len() implies (text[i] == '+' || text[i] == '-' || text[i] == ' ' || text[i] == '#'
        || is_letter(#[trigger] text[i])) by {
        if i < flags.len() {
            assert(text[i] == spec[layout_end(spec) + i]);
        } else {
            assert(text[i] == presentation(spec)[i - flags.len()]);
        }
    }
    assert(layout_end(text) == 0);
    let end = flags_end(text);
    assert(0 <= end <= text.len());
    assert(end < text.len() ==> text[end] != '0' && !is_digit(text[end]) && !is_separator(text[end]));
    assert(zero_end(text) == end);
    assert(width_end(text) == end);
}

/// Formats the integer with a decimal text.
pub(crate) fn format_decimal(decimal: &str, spec: &str) -> (result: Result<String, String>)
    requires
        exists|value: int| decimal@ == #[trigger] decimal_text(value),
        runs_within(spec@, field_limit()),
        spec@.len() > 0 ==> spec@.last() != 'c' && !is_float_kind(spec@.last()),
    ensures
        text_result(result) == decimal_rendered(decimal@, spec@),
{
    if can_count(decimal, spec) {
        engine_decimal(decimal, spec)
    } else {
        Err("format width is too large".to_owned())
    }
}

/// The fields of a specification that its characters are counted by.
struct DecimalFields {
    flags: Vec<char>,
    kind: Vec<char>,
    every: Option<u64>,
    width: Option<usize>,
}

/// Whether fields are those of a specification.
spec fn are_fields(spec: Seq<char>, fields: DecimalFields) -> bool {
    &&& fields.flags@ == spec_flags(spec)
    &&& fields.kind@ == presentation(spec)
    &&& fields.every matches Some(count) ==> count == 3 || count == 4
    &&& group_size(spec) == match fields.every {
        Some(count) => Some(count as int),
        None => None,
    }
    &&& field_width(spec) == match fields.width {
        Some(wide) => Some(wide as int),
        None => None,
    }
    &&& 0 <= layout_end(spec) <= flags_end(spec) <= group_end(spec) <= spec.len()
}

fn based(kind: &[char]) -> (result: bool)
    ensures
        result == is_based(kind@),
{
    kind.len() > 0 && (kind[0] == 'b' || kind[0] == 'o' || kind[0] == 'x' || kind[0] == 'X')
}

fn read_fields(plain: &[char], Ghost(spec): Ghost<Seq<char>>, Ghost(skipped): Ghost<int>) -> (result: DecimalFields)
    requires
        0 <= skipped <= spec.len(),
        plain@ == spec.skip(skipped),
        runs_within(spec, field_limit()),
    ensures
        are_fields(plain@, result),
{
    let cut = cut_spec(plain);
    let kind = sub_chars(plain, cut.group, plain.len());
    assert(kind@ =~= presentation(plain@));
    let flags = sub_chars(plain, cut.layout, cut.flags);
    assert(flags@ =~= spec_flags(plain@));
    let every: Option<u64> = if cut.group == cut.width {
        None
    } else if based(kind.as_slice()) {
        Some(4)
    } else {
        Some(3)
    };
    let width: Option<usize> = if cut.width == cut.zero {
        None
    } else {
        let digits = sub_chars(plain, cut.zero, cut.width);
        proof {
            let start = skipped + cut.zero;
            let end = skipped + cut.width;
            crate::format_spec::digits_advance(plain@, zero_end(plain@));
            assert forall|i: int| 0 <= i < digits@.len() implies is_digit(#[trigger] digits@[i]) by {
                assert(plain@[cut.zero + i] == digits@[i]);
            }
            assert forall|i: int| start <= i < end implies is_digit(#[trigger] spec[i]) by {
                assert(plain@[i - skipped] == spec[i]);
            }
            crate::format_spec::run_stays_within(spec, field_limit(), start, end);
            assert(spec.subrange(start, end) =~= digits@);
            assert(digits@ =~= spec_width(plain@));
        }
        Some(digits_number(digits.as_slice()))
    };
    DecimalFields { flags, kind, every, width }
}

fn head_of(decimal: &str, fields: &DecimalFields, Ghost(plain): Ghost<Seq<char>>) -> (result: usize)
    requires
        are_fields(plain, *fields),
    ensures
        result == head_length(decimal@, plain),
        result <= 3,
{
    let flags = &fields.flags;
    let signs = to_chars(decimal);
    let signed = signs.len() > 0 && signs[0] == '-' || flags.len() > 0 && (flags[0] == '+' || flags[0] == ' ');
    let sign: usize = if signed {
        1
    } else {
        0
    };
    let prefix: usize = if flags.len() > 0 && flags[flags.len() - 1] == '#' && based(fields.kind.as_slice()) {
        2
    } else {
        0
    };
    sign + prefix
}

fn format_alone(decimal: &str, fields: &DecimalFields, Ghost(plain): Ghost<Seq<char>>) -> (result: Result<String, String>)
    requires
        exists|value: int| decimal@ == #[trigger] decimal_text(value),
        are_fields(plain, *fields),
        is_shown(plain),
        plain.len() > 0 ==> plain.last() != 'c' && !is_float_kind(plain.last()),
    ensures
        text_result(result) == rustpython_integer(decimal@, alone(plain)),
{
    let mut bare = sub_chars(fields.flags.as_slice(), 0, fields.flags.len());
    append_chars(&mut bare, fields.kind.as_slice());
    assert(bare@ =~= alone(plain));
    proof {
        alone_has_no_fields(plain);
        if fields.kind@.len() > 0 {
            assert(bare@.last() == fields.kind@[0]);
            assert(plain.last() == fields.kind@[0]);
        } else if bare@.len() > 0 {
            assert(bare@.last() == plain[flags_end(plain) - 1]);
        }
    }
    let bare_text = from_chars(bare.as_slice());
    engine_decimal(decimal, bare_text.as_str())
}

fn can_count(decimal: &str, spec: &str) -> (result: bool)
    requires
        exists|value: int| decimal@ == #[trigger] decimal_text(value),
        runs_within(spec@, field_limit()),
        spec@.len() > 0 ==> spec@.last() != 'c' && !is_float_kind(spec@.last()),
    ensures
        result == countable(decimal@, spec@),
{
    let text = to_chars(spec);
    let skipped: usize = if text.len() >= 2 && text[0] == '!' && (text[1] == 's' || text[1] == 'r' || text[1] == 'a'
        || text[1] == 'b') {
        2
    } else {
        0
    };
    let plain = sub_chars(text.as_slice(), skipped, text.len());
    assert(plain@ =~= spec@.skip(skipped as int));
    assert(plain@ =~= unconverted(spec@));
    assert(plain@.len() > 0 ==> plain@.last() == spec@.last());
    let fields = read_fields(plain.as_slice(), Ghost(spec@), Ghost(skipped as int));
    if fields.kind.len() > 1 || fields.kind.len() == 1 && !letter(fields.kind[0]) {
        return true;
    }
    if fields.every.is_none() && fields.width.is_none() {
        return true;
    }
    let body = match format_alone(decimal, &fields, Ghost(plain@)) {
        Ok(body) => body,
        Err(_) => return true,
    };
    let head: usize = head_of(decimal, &fields, Ghost(plain@));
    let length: usize = body.as_str().unicode_len();
    length >= head && check_counts(length - head, head, fields.every, fields.width)
}

} // verus!
