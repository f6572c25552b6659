//! Formatting of single values in checkpoint names.
//!
//! Parsing and rendering of ordinary specifications is left to format engines; what is added here
//! is their selection, large precisions and grouped fractional digits.
use vstd::prelude::*;

use crate::format_spec::{
    after_digits, cut_spec, digit_runs_fit, field_limit, float_kind, group_end, is_align, is_cut, is_float_kind,
    is_letter, is_separator, layout_end, letter, flags_end, runs_within, separator, skip_digits, width_end, zero_end,
    SpecCut,
};
use crate::integer::{decimal_digits, decimal_text, Integer};
use crate::rl_checkpoint_decimal::{decimal_rendered, format_decimal};
use crate::rl_checkpoint_numeric::{normalize_numeric_fields, normalized};
use crate::text::{
    append_chars, append_repeated, decimal_chars, digit_number, digits_value, from_chars, is_digit, repeated,
    sub_chars, text_result, to_chars, TextResult,
};

verus! {

/// What `pyformat_rs::format_str` gives for a text and a specification.
pub uninterp spec fn pyformat_text(value: Seq<char>, spec: Seq<char>) -> Result<Seq<char>, Seq<char>>;

/// What `pyformat_rs::format_int` gives for a number and a specification.
pub uninterp spec fn pyformat_integer(value: i128, spec: Seq<char>) -> Result<Seq<char>, Seq<char>>;

/// `pyformat_rs::format_str`: the text, or the message of the failure, that it gives. Widths and
/// precisions beyond the largest numeric field overflow in it and are left out.
#[verifier::external_body]
fn engine_text(value: &str, spec: &str) -> (result: Result<String, String>)
    requires
        runs_within(spec@, field_limit()),
    ensures
        text_result(result) == pyformat_text(value@, spec@),
{
    pyformat_rs::format_str(value, spec).map_err(|error| error.to_string())
}

/// `pyformat_rs::format_int`: the text, or the message of the failure, that it gives. Widths and
/// precisions beyond the largest numeric field overflow in it and are left out.
#[verifier::external_body]
fn engine_integer(value: i128, spec: &str) -> (result: Result<String, String>)
    requires
        runs_within(spec@, field_limit()),
    ensures
        text_result(result) == pyformat_integer(value, spec@),
{
    pyformat_rs::format_int(value, spec).map_err(|error| error.to_string())
}

/// A floating-point number that can be formatted.
pub trait FloatFormat: Copy {
    /// What formatting gives.
    open spec fn formatted(&self, spec: Seq<char>) -> TextResult {
        arbitrary()
    }

    /// Whether the number is finite.
    open spec fn finite(&self) -> bool {
        arbitrary()
    }

    /// Whether a hundred times the number is finite.
    open spec fn percent_finite(&self) -> bool {
        arbitrary()
    }

    /// Zero.
    open spec fn zero_spec() -> Self {
        arbitrary()
    }

    /// The finite number next to an integer, if there is one.
    open spec fn near(value: int) -> Option<Self> {
        arbitrary()
    }

    /// Formats the number.
    fn format(&self, spec: &str) -> (result: Result<String, String>)
        requires
            runs_within(spec@, field_limit()),
        ensures
            text_result(result) == self.formatted(spec@),
    ;

    fn is_finite(&self) -> (result: bool)
        ensures
            result == self.finite(),
    ;

    fn is_percent_finite(&self) -> (result: bool)
        ensures
            result == self.percent_finite(),
    ;

    fn zero() -> (result: Self)
        ensures
            result == Self::zero_spec(),
    ;

    fn from_integer(value: &Integer) -> (result: Option<Self>)
        ensures
            result == Self::near(value@),
    ;
}

/// Stands for floating-point numbers where none are available: nothing converts to it, and every
/// format is refused.
#[derive(Clone, Copy, Debug, PartialEq, Eq, Structural)]
pub struct NoFloats;

impl FloatFormat for NoFloats {
    open spec fn formatted(&self, spec: Seq<char>) -> TextResult {
        Err("floating-point formats are unavailable"@)
    }

    open spec fn finite(&self) -> bool {
        true
    }

    open spec fn percent_finite(&self) -> bool {
        true
    }

    open spec fn zero_spec() -> Self {
        NoFloats
    }

    open spec fn near(value: int) -> Option<Self> {
        None
    }

    fn format(&self, spec: &str) -> (result: Result<String, String>) {
        Err("floating-point formats are unavailable".to_owned())
    }

    fn is_finite(&self) -> (result: bool) {
        true
    }

    fn is_percent_finite(&self) -> (result: bool) {
        true
    }

    fn zero() -> (result: Self) {
        NoFloats
    }

    fn from_integer(value: &Integer) -> (result: Option<Self>) {
        None
    }
}

/// A value of a metric.
pub enum TrainingMetricScalar<F> {
    Integer(Integer),
    Float(F),
    Text(String),
    Boolean(bool),
    Null,
    /// A value of a model, which only the model can format.
    Custom,
}

/// A value of a metric, by its contents.
pub enum ScalarModel<F> {
    Integer(int),
    Float(F),
    Text(Seq<char>),
    Boolean(bool),
    Null,
    Custom,
}

impl<F> View for TrainingMetricScalar<F> {
    type V = ScalarModel<F>;

    open spec fn view(&self) -> ScalarModel<F> {
        match self {
            TrainingMetricScalar::Integer(number) => ScalarModel::Integer(number@),
            TrainingMetricScalar::Float(number) => ScalarModel::Float(*number),
            TrainingMetricScalar::Text(text) => ScalarModel::Text(text@),
            TrainingMetricScalar::Boolean(flag) => ScalarModel::Boolean(*flag),
            TrainingMetricScalar::Null => ScalarModel::Null,
            TrainingMetricScalar::Custom => ScalarModel::Custom,
        }
    }
}

/// The failure of a numeric field that is too large.
pub open spec fn field_too_large() -> TextResult {
    Err("format numeric field is too large"@)
}

/// A specification handed to an engine, unless a numeric field of it is too large.
pub open spec fn bounded(spec: Seq<char>, rendered: TextResult) -> TextResult {
    if runs_within(spec, field_limit()) {
        rendered
    } else {
        field_too_large()
    }
}

fn fits(spec: &str) -> (result: bool)
    ensures
        result == runs_within(spec@, field_limit()),
{
    let chars = to_chars(spec);
    digit_runs_fit(chars.as_slice())
}

fn too_large() -> (result: Result<String, String>)
    ensures
        text_result(result) == field_too_large(),
{
    Err("format numeric field is too large".to_owned())
}

fn format_bounded<F: FloatFormat>(value: &F, spec: &Vec<char>) -> (result: Result<String, String>)
    ensures
        text_result(result) == bounded(spec@, value.formatted(spec@)),
{
    let text = from_chars(spec.as_slice());
    if fits(text.as_str()) {
        value.format(text.as_str())
    } else {
        too_large()
    }
}

/// Formats a text, unless a numeric field of the specification is too large.
pub fn format_text_bounded(value: &Vec<char>, spec: &Vec<char>) -> (result: Result<String, String>)
    ensures
        text_result(result) == bounded(spec@, pyformat_text(value@, spec@)),
{
    let text = from_chars(value.as_slice());
    let layout = from_chars(spec.as_slice());
    if fits(layout.as_str()) {
        engine_text(text.as_str(), layout.as_str())
    } else {
        too_large()
    }
}

/// The parts of a specification with a precision.
pub open spec fn spec_layout(spec: Seq<char>) -> Seq<char> {
    spec.take(layout_end(spec))
}

pub open spec fn spec_flags(spec: Seq<char>) -> Seq<char> {
    spec.subrange(layout_end(spec), flags_end(spec))
}

pub open spec fn spec_zero(spec: Seq<char>) -> Seq<char> {
    spec.subrange(flags_end(spec), zero_end(spec))
}

pub open spec fn spec_width(spec: Seq<char>) -> Seq<char> {
    spec.subrange(zero_end(spec), width_end(spec))
}

pub open spec fn spec_group(spec: Seq<char>) -> Seq<char> {
    spec.subrange(width_end(spec), group_end(spec))
}

/// The end of the precision digits.
pub open spec fn precision_end(spec: Seq<char>) -> int {
    after_digits(spec, group_end(spec) + 1)
}

/// The precision digits.
pub open spec fn spec_precision(spec: Seq<char>) -> Seq<char> {
    spec.subrange(group_end(spec) + 1, precision_end(spec))
}

/// Whether a specification has a precision mark after its leading fields.
pub open spec fn has_point(spec: Seq<char>) -> bool {
    group_end(spec) < spec.len() && spec[group_end(spec)] == '.'
}

/// Whether a specification consists of leading fields, a precision and at most a floating-point
/// presentation.
pub open spec fn is_precise(spec: Seq<char>) -> bool {
    &&& has_point(spec)
    &&& precision_end(spec) > group_end(spec) + 1
    &&& spec.len() <= precision_end(spec) + 1
    &&& precision_end(spec) < spec.len() ==> is_float_kind(spec[precision_end(spec)])
}

/// The precision that engines are asked for in place of a larger one. Every floating-point number
/// has an exact decimal representation with fewer digits.
pub open spec fn ample() -> Seq<char> {
    ".1100"@
}

/// The padding after a number that is padded to a width.
pub open spec fn trailing_fill(layout: Seq<char>, width: int, body: nat) -> int {
    let padding = if body < width {
        width - body
    } else {
        0
    };
    if layout.len() == 0 {
        0
    } else if layout.last() == '<' {
        padding
    } else if layout.last() == '^' {
        padding - padding / 2
    } else {
        0
    }
}

/// A difference that is never negative.
pub open spec fn reduced(a: int, b: int) -> int {
    if a > b {
        a - b
    } else {
        0
    }
}

/// The first exponent or percent mark.
pub open spec fn mark_position(text: Seq<char>) -> int
    decreases text.len(),
{
    if text.len() == 0 {
        0
    } else if text[0] == 'e' || text[0] == 'E' || text[0] == '%' {
        0
    } else {
        1 + mark_position(text.drop_first())
    }
}

/// The failure of an engine that does not keep its own layout.
pub open spec fn layout_broken() -> TextResult {
    Err("the format engine does not keep its layout"@)
}

/// Inserts zeros before a number's suffix and trailing padding.
pub open spec fn zeros_inserted(output: Seq<char>, trailing: int, suffix: int, extra: int) -> TextResult {
    let place = output.len() - trailing - suffix;
    if place < 0 {
        layout_broken()
    } else {
        Ok(output.take(place) + repeated('0', extra as nat) + output.skip(place))
    }
}

/// Formats a floating-point number with a precision beyond what engines take: the engine renders
/// with an ample precision, and zeros are added.
pub open spec fn amply_formatted<F: FloatFormat>(value: F, spec: Seq<char>) -> TextResult {
    let layout = spec_layout(spec);
    let flags = spec_flags(spec);
    let zero = spec_zero(spec);
    let group = spec_group(spec);
    let kind = spec.skip(precision_end(spec));
    let width = digits_value(spec_width(spec));
    let precision = digits_value(spec_precision(spec));
    let nonfinite = !value.finite() || kind == seq!['%'] && !value.percent_finite();
    let trimmed = (kind.len() == 0 || kind == seq!['g'] || kind == seq!['G']) && !flags.contains('#');
    if nonfinite || trimmed {
        let plain = layout + flags + zero + decimal_digits(width as nat) + group + ample() + kind;
        bounded(plain, value.formatted(plain))
    } else {
        let extra = precision - 1100;
        let narrow = reduced(width, extra);
        let bare = flags + group + ample() + kind;
        let padded = layout + flags + zero + decimal_digits(narrow as nat) + group + ample() + kind;
        match bounded(bare, value.formatted(bare)) {
            Err(error) => Err(error),
            Ok(body) => match bounded(padded, value.formatted(padded)) {
                Err(error) => Err(error),
                Ok(output) => zeros_inserted(
                    output,
                    trailing_fill(layout, narrow, body.len()),
                    body.len() - mark_position(body),
                    extra,
                ),
            },
        }
    }
}

/// What a floating-point number formats to, whatever its precision.
pub open spec fn precisely_formatted<F: FloatFormat>(value: F, spec: Seq<char>) -> TextResult {
    if !runs_within(spec, field_limit()) {
        field_too_large()
    } else if !is_precise(spec) || digits_value(spec_precision(spec)) <= 9999 {
        value.formatted(spec)
    } else if digits_value(spec_precision(spec)) > i32::MAX {
        Err("float precision too large"@)
    } else {
        amply_formatted(value, spec)
    }
}

/// The number that digits stand for.
pub(crate) fn digits_number(digits: &[char]) -> (result: usize)
    requires
        forall|i: int| 0 <= i < digits@.len() ==> is_digit(#[trigger] digits@[i]),
        digits_value(digits@) <= field_limit(),
    ensures
        result == digits_value(digits@),
{
    let mut value: usize = 0;
    let mut i: usize = 0;
    assert(digits@.subrange(0, 0) =~= Seq::<char>::empty());
    assert(digits@.subrange(0, digits@.len() as int) =~= digits@);
    while i < digits.len()
        invariant
            i <= digits@.len(),
            forall|k: int| 0 <= k < digits@.len() ==> is_digit(#[trigger] digits@[k]),
            digits_value(digits@.subrange(0, digits@.len() as int)) <= field_limit(),
            value == digits_value(digits@.subrange(0, i as int)),
        decreases digits@.len() - i,
    {
        proof {
            crate::format_spec::part_is_worth_less(digits@, 0, digits@.len() as int, 0, i + 1);
            assert(digits@.subrange(0, i + 1).drop_last() =~= digits@.subrange(0, i as int));
        }
        value = value * 10 + digit_number(digits[i]);
        i += 1;
    }
    value
}

fn find_mark(text: &[char]) -> (result: usize)
    ensures
        result == mark_position(text@),
        result <= text@.len(),
{
    let mut i: usize = 0;
    assert(text@.skip(0) =~= text@);
    while i < text.len()
        invariant
            i <= text@.len(),
            mark_position(text@) == i + mark_position(text@.skip(i as int)),
        decreases text@.len() - i,
    {
        assert(text@.skip(i as int)[0] == text@[i as int]);
        assert(text@.skip(i as int).drop_first() =~= text@.skip(i + 1));
        if text[i] == 'e' || text[i] == 'E' || text[i] == '%' {
            return i;
        }
        i += 1;
    }
    assert(text@.skip(i as int) =~= Seq::<char>::empty());
    i
}

fn trailing(layout: &[char], width: usize, body: usize) -> (result: usize)
    ensures
        result == trailing_fill(layout@, width as int, body as nat),
{
    let padding: usize = if body < width {
        width - body
    } else {
        0
    };
    if layout.len() == 0 {
        0
    } else if layout[layout.len() - 1] == '<' {
        padding
    } else if layout[layout.len() - 1] == '^' {
        padding - padding / 2
    } else {
        0
    }
}

fn has_char(text: &[char], ch: char) -> (result: bool)
    ensures
        result == text@.contains(ch),
{
    let mut i: usize = 0;
    while i < text.len()
        invariant
            i <= text@.len(),
            forall|j: int| 0 <= j < i ==> text@[j] != ch,
        decreases text@.len() - i,
    {
        if text[i] == ch {
            assert(text@[i as int] == ch);
            return true;
        }
        i += 1;
    }
    false
}


/// The fields of a specification with a precision.
struct PreciseParts {
    layout: Vec<char>,
    flags: Vec<char>,
    zero: Vec<char>,
    width: usize,
    group: Vec<char>,
}

fn leading_parts(spec: &[char], cut: &SpecCut) -> (result: PreciseParts)
    requires
        is_cut(spec@, *cut),
        runs_within(spec@, field_limit()),
    ensures
        result.layout@ == spec_layout(spec@),
        result.flags@ == spec_flags(spec@),
        result.zero@ == spec_zero(spec@),
        result.width == digits_value(spec_width(spec@)),
        result.group@ == spec_group(spec@),
{
    proof {
        crate::format_spec::digits_advance(spec@, zero_end(spec@));
        assert(spec@.subrange(0, cut.layout as int) =~= spec@.take(layout_end(spec@)));
    }
    let digits = sub_chars(spec, cut.zero, cut.width);
    proof {
        assert forall|i: int| 0 <= i < digits@.len() implies is_digit(#[trigger] digits@[i]) by {
            assert(spec@[cut.zero + i] == digits@[i]);
        }
        crate::format_spec::run_stays_within(spec@, field_limit(), cut.zero as int, cut.width as int);
    }
    PreciseParts {
        layout: sub_chars(spec, 0, cut.layout),
        flags: sub_chars(spec, cut.layout, cut.flags),
        zero: sub_chars(spec, cut.flags, cut.zero),
        width: digits_number(digits.as_slice()),
        group: sub_chars(spec, cut.width, cut.group),
    }
}

fn push_ample(target: &mut Vec<char>)
    ensures
        final(target)@ == old(target)@ + ample(),
{
    proof {
        reveal_strlit(".1100");
    }
    target.push('.');
    target.push('1');
    target.push('1');
    target.push('0');
    target.push('0');
    assert(target@ =~= old(target)@ + ample());
}

/// Formats a floating-point number, whatever its precision.
fn floating_engine<F: FloatFormat>(value: &F, spec: &str) -> (result: Result<String, String>)
    ensures
        text_result(result) == precisely_formatted(*value, spec@),
{
    if !fits(spec) {
        return too_large();
    }
    let text = to_chars(spec);
    let cut = cut_spec(text.as_slice());
    let point: usize = cut.group;
    if point >= text.len() || text[point] != '.' {
        return value.format(spec);
    }
    let precision_end: usize = skip_digits(text.as_slice(), point + 1);
    if precision_end == point + 1 || text.len() - precision_end > 1 || (precision_end < text.len() && !float_kind(
        text[precision_end],
    )) {
        return value.format(spec);
    }
    let digits = sub_chars(text.as_slice(), point + 1, precision_end);
    proof {
        assert forall|i: int| 0 <= i < digits@.len() implies is_digit(#[trigger] digits@[i]) by {
            assert(text@[point + 1 + i] == digits@[i]);
        }
        crate::format_spec::run_stays_within(text@, field_limit(), point + 1, precision_end as int);
        assert(digits@ == spec_precision(spec@));
    }
    let precision: usize = digits_number(digits.as_slice());
    if precision <= 9999 {
        return value.format(spec);
    }
    if precision > i32::MAX as usize {
        return Err("float precision too large".to_owned());
    }
    let parts = leading_parts(text.as_slice(), &cut);
    let kind = sub_chars(text.as_slice(), precision_end, text.len());
    let ghost ending = spec@.skip(precision_end as int);
    proof {
        assert(kind@ =~= ending);
        if kind@.len() == 1 {
            assert(kind@ =~= seq![kind@[0]]);
            assert(kind@ == seq!['%'] <==> kind@[0] == '%');
            assert(kind@ == seq!['g'] <==> kind@[0] == 'g') by {
                if kind@ == seq!['g'] {
                    assert(seq!['g'][0] == 'g');
                }
            }
            assert(kind@ == seq!['G'] <==> kind@[0] == 'G') by {
                if kind@ == seq!['G'] {
                    assert(seq!['G'][0] == 'G');
                }
            }
            assert(kind@ == seq!['%'] <==> kind@[0] == '%') by {
                if kind@ == seq!['%'] {
                    assert(seq!['%'][0] == '%');
                }
            }
        } else {
            assert(kind@.len() == 0);
            assert(seq!['%'].len() == 1 && seq!['g'].len() == 1 && seq!['G'].len() == 1);
        }
    }
    let percent = kind.len() == 1 && kind[0] == '%';
    let nonfinite = !value.is_finite() || (percent && !value.is_percent_finite());
    let trimmed = (kind.len() == 0 || kind[0] == 'g' || kind[0] == 'G') && !has_char(parts.flags.as_slice(), '#');
    if nonfinite || trimmed {
        let mut plain: Vec<char> = Vec::new();
        append_chars(&mut plain, parts.layout.as_slice());
        append_chars(&mut plain, parts.flags.as_slice());
        append_chars(&mut plain, parts.zero.as_slice());
        append_chars(&mut plain, decimal_chars(parts.width).as_slice());
        append_chars(&mut plain, parts.group.as_slice());
        push_ample(&mut plain);
        append_chars(&mut plain, kind.as_slice());
        proof {
            assert(plain@ =~= parts.layout@ + parts.flags@ + parts.zero@ + decimal_digits(parts.width as nat)
                + parts.group@ + ample() + kind@);
        }
        return format_bounded(value, &plain);
    }
    let extra: usize = precision - 1100;
    let narrow: usize = if parts.width > extra {
        parts.width - extra
    } else {
        0
    };
    let mut bare: Vec<char> = Vec::new();
    append_chars(&mut bare, parts.flags.as_slice());
    append_chars(&mut bare, parts.group.as_slice());
    push_ample(&mut bare);
    append_chars(&mut bare, kind.as_slice());
    assert(bare@ =~= parts.flags@ + parts.group@ + ample() + kind@);
    let body = match format_bounded(value, &bare) {
        Ok(body) => to_chars(body.as_str()),
        Err(error) => return Err(error),
    };
    let mut padded: Vec<char> = Vec::new();
    append_chars(&mut padded, parts.layout.as_slice());
    append_chars(&mut padded, parts.flags.as_slice());
    append_chars(&mut padded, parts.zero.as_slice());
    append_chars(&mut padded, decimal_chars(narrow).as_slice());
    append_chars(&mut padded, parts.group.as_slice());
    push_ample(&mut padded);
    append_chars(&mut padded, kind.as_slice());
    proof {
        assert(padded@ =~= parts.layout@ + parts.flags@ + parts.zero@ + decimal_digits(narrow as nat) + parts.group@
            + ample() + kind@);
    }
    let output = match format_bounded(value, &padded) {
        Ok(output) => to_chars(output.as_str()),
        Err(error) => return Err(error),
    };
    let after: usize = trailing(parts.layout.as_slice(), narrow, body.len());
    let suffix: usize = body.len() - find_mark(body.as_slice());
    if after > output.len() || suffix > output.len() - after {
        return Err("the format engine does not keep its layout".to_owned());
    }
    let place: usize = output.len() - after - suffix;
    let mut done = sub_chars(output.as_slice(), 0, place);
    append_repeated(&mut done, '0', extra);
    append_chars(&mut done, sub_chars(output.as_slice(), place, output.len()).as_slice());
    proof {
        assert(output@.subrange(0, place as int) =~= output@.take(place as int));
        assert(output@.subrange(place as int, output@.len() as int) =~= output@.skip(place as int));
        assert(done@ =~= output@.take(place as int) + repeated('0', extra as nat) + output@.skip(place as int));
    }
    Ok(from_chars(done.as_slice()))
}

/// A specification without its fill and alignment, where it has both.
pub open spec fn unfilled(spec: Seq<char>) -> Seq<char> {
    if spec.len() >= 2 && is_align(spec[1]) {
        spec.skip(2)
    } else {
        spec
    }
}

/// Whether a text holds a group separator.
pub open spec fn holds_separator(text: Seq<char>) -> bool {
    exists|i: int| 0 <= i < text.len() && is_separator(#[trigger] text[i])
}

/// What a floating-point number formats to. The locale presentation is the general one, without
/// grouping.
pub open spec fn float_rendered<F: FloatFormat>(value: F, spec: Seq<char>) -> TextResult {
    if spec.len() > 0 && spec.last() == 'n' {
        let prefix = spec.drop_last();
        if holds_separator(unfilled(prefix)) {
            Err("cannot specify grouping with 'n'"@)
        } else {
            precisely_formatted(value, prefix.push('g'))
        }
    } else {
        precisely_formatted(value, spec)
    }
}

fn float<F: FloatFormat>(value: &F, spec: &str) -> (result: Result<String, String>)
    ensures
        text_result(result) == float_rendered(*value, spec@),
{
    let text = to_chars(spec);
    if text.len() > 0 && text[text.len() - 1] == 'n' {
        let mut prefix = sub_chars(text.as_slice(), 0, text.len() - 1);
        assert(prefix@ =~= spec@.drop_last());
        let start: usize = if prefix.len() >= 2 && crate::format_spec::align(prefix[1]) {
            2
        } else {
            0
        };
        let ghost body = unfilled(prefix@);
        assert(body =~= prefix@.skip(start as int));
        let mut i: usize = start;
        while i < prefix.len()
            invariant
                start <= i <= prefix@.len(),
                prefix@ == spec@.drop_last(),
                body == prefix@.skip(start as int),
                body == unfilled(prefix@),
                spec@.len() > 0 && spec@.last() == 'n',
                forall|k: int| start <= k < i ==> !is_separator(#[trigger] prefix@[k]),
            decreases prefix@.len() - i,
        {
            if separator(prefix[i]) {
                assert(is_separator(body[i - start]));
                return Err("cannot specify grouping with 'n'".to_owned());
            }
            i += 1;
        }
        proof {
            if holds_separator(body) {
                let k = choose|k: int| 0 <= k < body.len() && is_separator(#[trigger] body[k]);
                assert(is_separator(prefix@[start + k]));
            }
        }
        prefix.push('g');
        let general = from_chars(prefix.as_slice());
        return floating_engine(value, general.as_str());
    }
    floating_engine(value, spec)
}

/// What an integer formats to.
pub open spec fn integer_rendered<F: FloatFormat>(value: int, spec: Seq<char>) -> TextResult {
    if spec.len() > 0 && is_float_kind(spec.last()) {
        match float_rendered(F::zero_spec(), spec) {
            Err(error) => Err(error),
            Ok(_) => match F::near(value) {
                Some(number) => float_rendered(number, spec),
                None => Err("int too large to convert to float"@),
            },
        }
    } else if spec.len() > 0 && spec.last() == 'c' {
        bounded(
            spec,
            pyformat_integer(
                if i128::MIN <= value <= i128::MAX {
                    value as i128
                } else {
                    -1i128
                },
                spec,
            ),
        )
    } else if spec.len() > 0 && spec[0] == '!' && bounded(spec, pyformat_integer(0, spec)) is Err {
        bounded(spec, pyformat_integer(0, spec))
    } else if !runs_within(spec, field_limit()) {
        field_too_large()
    } else {
        decimal_rendered(decimal_text(value), spec)
    }
}

fn integer<F: FloatFormat>(value: &Integer, spec: &str) -> (result: Result<String, String>)
    ensures
        text_result(result) == integer_rendered::<F>(value@, spec@),
{
    let text = to_chars(spec);
    if text.len() > 0 && float_kind(text[text.len() - 1]) {
        match float(&F::zero(), spec) {
            Ok(_) => {},
            Err(error) => return Err(error),
        }
        return match F::from_integer(value) {
            Some(number) => float(&number, spec),
            None => Err("int too large to convert to float".to_owned()),
        };
    }
    if text.len() > 0 && text[text.len() - 1] == 'c' {
        if !fits(spec) {
            return too_large();
        }
        let number: i128 = match value.to_i128() {
            Some(number) => number,
            None => -1,
        };
        return engine_integer(number, spec);
    }
    if text.len() > 0 && text[0] == '!' {
        if !fits(spec) {
            return too_large();
        }
        match engine_integer(0, spec) {
            Ok(_) => {},
            Err(error) => return Err(error),
        }
    }
    if !fits(spec) {
        return too_large();
    }
    let decimal = value.text();
    format_decimal(decimal.as_str(), spec)
}

/// What a value formats to.
pub open spec fn scalar_rendered<F: FloatFormat>(value: ScalarModel<F>, spec: Seq<char>) -> TextResult {
    match value {
        ScalarModel::Integer(number) => integer_rendered::<F>(number, spec),
        ScalarModel::Float(number) => float_rendered(number, spec),
        ScalarModel::Text(text) => bounded(spec, pyformat_text(text, spec)),
        ScalarModel::Boolean(flag) => if spec.len() == 0 {
            Ok(
                if flag {
                    "True"@
                } else {
                    "False"@
                },
            )
        } else {
            integer_rendered::<F>(
                if flag {
                    1
                } else {
                    0
                },
                spec,
            )
        },
        ScalarModel::Null => if spec.len() == 0 {
            Ok("None"@)
        } else {
            Err("unsupported format string passed to NoneType.__format__"@)
        },
        ScalarModel::Custom => Err("custom checkpoint values require a model-aware filename adapter"@),
    }
}

fn scalar_engine<F: FloatFormat>(value: &TrainingMetricScalar<F>, spec: &str) -> (result: Result<String, String>)
    ensures
        text_result(result) == scalar_rendered(value@, spec@),
{
    match value {
        TrainingMetricScalar::Integer(number) => integer::<F>(number, spec),
        TrainingMetricScalar::Float(number) => float(number, spec),
        TrainingMetricScalar::Text(text) => if fits(spec) {
            engine_text(text.as_str(), spec)
        } else {
            too_large()
        },
        TrainingMetricScalar::Boolean(flag) => if spec.unicode_len() == 0 {
            if *flag {
                Ok("True".to_owned())
            } else {
                Ok("False".to_owned())
            }
        } else {
            let number = if *flag {
                Integer::from_usize(1)
            } else {
                Integer::zero()
            };
            integer::<F>(&number, spec)
        },
        TrainingMetricScalar::Null => if spec.unicode_len() == 0 {
            Ok("None".to_owned())
        } else {
            Err("unsupported format string passed to NoneType.__format__".to_owned())
        },
        TrainingMetricScalar::Custom => Err(
            "custom checkpoint values require a model-aware filename adapter".to_owned(),
        ),
    }
}


/// Whether a specification asks for grouped fractional digits: a separator after the optional
/// precision, and at most a presentation after it.
pub open spec fn is_fractional(spec: Seq<char>) -> bool {
    &&& has_point(spec)
    &&& precision_end(spec) < spec.len()
    &&& is_separator(spec[precision_end(spec)])
    &&& spec.len() <= precision_end(spec) + 2
    &&& precision_end(spec) + 1 < spec.len() ==> is_letter(spec[precision_end(spec) + 1]) || spec[precision_end(spec) + 1]
        == '%'
}

/// The precision of a specification with its mark; nothing for an empty precision.
pub open spec fn marked_precision(spec: Seq<char>) -> Seq<char> {
    if spec_precision(spec).len() == 0 {
        Seq::empty()
    } else {
        seq!['.'] + spec_precision(spec)
    }
}

/// The presentation of a specification with grouped fractional digits.
pub open spec fn fractional_kind(spec: Seq<char>) -> Seq<char> {
    spec.skip(precision_end(spec) + 1)
}

/// The width digits; a missing width is zero.
pub open spec fn shown_width(spec: Seq<char>) -> Seq<char> {
    if spec_width(spec).len() == 0 {
        seq!['0']
    } else {
        spec_width(spec)
    }
}

/// The specification without fractional grouping, for a given width.
pub open spec fn ungrouped(spec: Seq<char>, width: Seq<char>) -> Seq<char> {
    spec_layout(spec) + spec_flags(spec) + spec_zero(spec) + width + spec_group(spec) + marked_precision(spec)
        + fractional_kind(spec)
}

/// The specification of the number alone, without padding.
pub open spec fn unpadded(spec: Seq<char>) -> Seq<char> {
    spec_flags(spec) + seq!['0'] + spec_group(spec) + marked_precision(spec) + fractional_kind(spec)
}

/// Whether a value is shown as a floating-point number.
pub open spec fn shown_as_float<F>(value: ScalarModel<F>, kind: Seq<char>) -> bool {
    value is Float || (value is Integer || value is Boolean) && kind.len() > 0 && is_float_kind(kind.last())
}

/// The position after the first decimal point; the end without one.
pub open spec fn fraction_start(text: Seq<char>) -> int
    decreases text.len(),
{
    if text.len() == 0 {
        0
    } else if text[0] == '.' {
        1
    } else {
        1 + fraction_start(text.drop_first())
    }
}

/// Digits in groups of three from the left.
pub open spec fn grouped_fraction(digits: Seq<char>, mark: char) -> Seq<char>
    decreases digits.len(),
{
    if digits.len() <= 3 {
        digits
    } else {
        digits.take(3).push(mark) + grouped_fraction(digits.skip(3), mark)
    }
}

/// Replaces the fractional digits of a padded number by grouped ones.
pub open spec fn fraction_replaced(
    output: Seq<char>,
    trailing: int,
    suffix: int,
    digits: Seq<char>,
    mark: char,
) -> TextResult {
    let end = output.len() - trailing - suffix;
    let start = end - digits.len();
    if start < 0 {
        layout_broken()
    } else {
        Ok(output.take(start) + grouped_fraction(digits, mark) + output.skip(end))
    }
}

/// What a value formats to, with grouped fractional digits where they are asked for.
pub open spec fn fractional_rendered<F: FloatFormat>(value: ScalarModel<F>, spec: Seq<char>) -> TextResult {
    let kind = fractional_kind(spec);
    let plain = ungrouped(spec, shown_width(spec));
    if !is_fractional(spec) {
        scalar_rendered(value, spec)
    } else if kind == seq!['n'] {
        Err("cannot specify fractional grouping with 'n'"@)
    } else if !shown_as_float(value, kind) {
        scalar_rendered(value, plain)
    } else {
        match scalar_rendered(value, unpadded(spec)) {
            Err(error) => Err(error),
            Ok(body) => {
                let start = fraction_start(body);
                let end = after_digits(body, start);
                let digits = body.subrange(start, end);
                let extra = reduced(digits.len() as int, 1) / 3;
                if extra == 0 {
                    scalar_rendered(value, plain)
                } else {
                    let narrow = reduced(digits_value(shown_width(spec)), extra);
                    match scalar_rendered(value, ungrouped(spec, decimal_digits(narrow as nat))) {
                        Err(error) => Err(error),
                        Ok(output) => fraction_replaced(
                            output,
                            trailing_fill(spec_layout(spec), narrow, body.len()),
                            body.len() - end,
                            digits,
                            spec[precision_end(spec)],
                        ),
                    }
                }
            },
        }
    }
}

fn find_fraction(text: &[char]) -> (result: usize)
    ensures
        result == fraction_start(text@),
        result <= text@.len(),
{
    let mut i: usize = 0;
    assert(text@.skip(0) =~= text@);
    while i < text.len()
        invariant
            i <= text@.len(),
            fraction_start(text@) == i + fraction_start(text@.skip(i as int)),
        decreases text@.len() - i,
    {
        assert(text@.skip(i as int)[0] == text@[i as int]);
        assert(text@.skip(i as int).drop_first() =~= text@.skip(i + 1));
        if text[i] == '.' {
            return i + 1;
        }
        i += 1;
    }
    assert(text@.skip(i as int) =~= Seq::<char>::empty());
    i
}

fn group_fraction(digits: &[char], mark: char) -> (result: Vec<char>)
    ensures
        result@ == grouped_fraction(digits@, mark),
{
    let mut output: Vec<char> = Vec::new();
    let mut i: usize = 0;
    assert(digits@.skip(0) =~= digits@);
    assert(output@ + grouped_fraction(digits@, mark) =~= grouped_fraction(digits@, mark));
    while digits.len() - i > 3
        invariant
            i <= digits@.len(),
            output@ + grouped_fraction(digits@.skip(i as int), mark) == grouped_fraction(digits@, mark),
        decreases digits@.len() - i,
    {
        let ghost rest = digits@.skip(i as int);
        let ghost before = output@;
        output.push(digits[i]);
        output.push(digits[i + 1]);
        output.push(digits[i + 2]);
        output.push(mark);
        i += 3;
        proof {
            assert(rest.skip(3) =~= digits@.skip(i as int));
            assert(rest.take(3).push(mark) =~= seq![rest[0], rest[1], rest[2], mark]);
            assert(output@ =~= before + rest.take(3).push(mark));
            assert(output@ + grouped_fraction(rest.skip(3), mark) =~= before + (rest.take(3).push(mark)
                + grouped_fraction(rest.skip(3), mark)));
        }
    }
    let tail = sub_chars(digits, i, digits.len());
    append_chars(&mut output, tail.as_slice());
    proof {
        assert(tail@ =~= digits@.skip(i as int));
    }
    output
}

fn ungrouped_text(parts: &PreciseParts, width: &[char], precision: &[char], kind: &[char]) -> (result: String)
    ensures
        result@ == parts.layout@ + parts.flags@ + parts.zero@ + width@ + parts.group@ + precision@ + kind@,
{
    let mut output: Vec<char> = Vec::new();
    append_chars(&mut output, parts.layout.as_slice());
    append_chars(&mut output, parts.flags.as_slice());
    append_chars(&mut output, parts.zero.as_slice());
    append_chars(&mut output, width);
    append_chars(&mut output, parts.group.as_slice());
    append_chars(&mut output, precision);
    append_chars(&mut output, kind);
    assert(output@ =~= parts.layout@ + parts.flags@ + parts.zero@ + width@ + parts.group@ + precision@ + kind@);
    from_chars(output.as_slice())
}

/// The fields of a specification with grouped fractional digits.
struct FractionalParts {
    leading: PreciseParts,
    width: Vec<char>,
    precision: Vec<char>,
    kind: Vec<char>,
    mark: char,
}

/// Reads the fields of a specification with grouped fractional digits.
fn fractional_parts(text: &[char]) -> (result: Option<FractionalParts>)
    requires
        runs_within(text@, field_limit()),
    ensures
        match result {
            None => !is_fractional(text@),
            Some(parts) => {
                &&& is_fractional(text@)
                &&& parts.leading.layout@ == spec_layout(text@)
                &&& parts.leading.flags@ == spec_flags(text@)
                &&& parts.leading.zero@ == spec_zero(text@)
                &&& parts.leading.group@ == spec_group(text@)
                &&& parts.leading.width == digits_value(shown_width(text@))
                &&& parts.width@ == shown_width(text@)
                &&& parts.precision@ == marked_precision(text@)
                &&& parts.kind@ == fractional_kind(text@)
                &&& parts.kind@.len() <= 1
                &&& parts.mark == text@[precision_end(text@)]
            },
        },
{
    let cut = cut_spec(text);
    let point: usize = cut.group;
    if point >= text.len() || text[point] != '.' {
        return None;
    }
    let end: usize = skip_digits(text, point + 1);
    if end >= text.len() || !separator(text[end]) || text.len() - end > 2 {
        return None;
    }
    if text.len() - end == 2 && !(letter(text[end + 1]) || text[end + 1] == '%') {
        return None;
    }
    let kind = sub_chars(text, end + 1, text.len());
    assert(kind@ =~= fractional_kind(text@));
    let leading = leading_parts(text, &cut);
    let precision = if end > point + 1 {
        let marked = sub_chars(text, point, end);
        assert(marked@ =~= seq!['.'] + spec_precision(text@));
        marked
    } else {
        let none: Vec<char> = Vec::new();
        assert(none@ =~= Seq::<char>::empty());
        none
    };
    let width = if cut.width > cut.zero {
        sub_chars(text, cut.zero, cut.width)
    } else {
        let mut zero: Vec<char> = Vec::new();
        zero.push('0');
        proof {
            assert(zero@ =~= seq!['0']);
            assert(spec_width(text@) =~= Seq::<char>::empty());
            assert(digits_value(seq!['0']) == 0) by {
                reveal_with_fuel(digits_value, 2);
                assert(seq!['0'].drop_last() =~= Seq::<char>::empty());
            }
            assert(digits_value(Seq::<char>::empty()) == 0);
        }
        zero
    };
    Some(FractionalParts { leading, width, precision, kind, mark: text[end] })
}

/// Where the fractional digits of a bare number are.
fn fraction_span(body: &[char]) -> (result: (usize, usize))
    ensures
        result.0 == fraction_start(body@),
        result.1 == after_digits(body@, fraction_start(body@)),
        result.0 <= result.1 <= body@.len(),
{
    let start: usize = find_fraction(body);
    (start, skip_digits(body, start))
}

fn replace_fraction(output: &[char], after: usize, suffix: usize, digits: &[char], mark: char) -> (result: Result<
    String,
    String,
>)
    ensures
        text_result(result) == fraction_replaced(output@, after as int, suffix as int, digits@, mark),
{
    if after > output.len() || suffix > output.len() - after || digits.len() > output.len() - after - suffix {
        return Err("the format engine does not keep its layout".to_owned());
    }
    let stop: usize = output.len() - after - suffix;
    let start: usize = stop - digits.len();
    let grouped = group_fraction(digits, mark);
    let mut done = sub_chars(output, 0, start);
    append_chars(&mut done, grouped.as_slice());
    append_chars(&mut done, sub_chars(output, stop, output.len()).as_slice());
    proof {
        assert(output@.subrange(0, start as int) =~= output@.take(start as int));
        assert(output@.subrange(stop as int, output@.len() as int) =~= output@.skip(stop as int));
    }
    Ok(from_chars(done.as_slice()))
}

/// Formats a value, with grouped fractional digits where they are asked for.
fn fractional_scalar<F: FloatFormat>(value: &TrainingMetricScalar<F>, spec: &str) -> (result: Result<String, String>)
    requires
        runs_within(spec@, field_limit()),
    ensures
        text_result(result) == fractional_rendered(value@, spec@),
{
    let text = to_chars(spec);
    let parts = match fractional_parts(text.as_slice()) {
        Some(parts) => parts,
        None => return scalar_engine(value, spec),
    };
    let kind = &parts.kind;
    proof {
        if kind@.len() == 1 {
            assert(kind@ =~= seq![kind@[0]]);
        }
        assert(seq!['n'].len() == 1 && seq!['n'][0] == 'n');
    }
    if kind.len() == 1 && kind[0] == 'n' {
        return Err("cannot specify fractional grouping with 'n'".to_owned());
    }
    let plain = ungrouped_text(
        &parts.leading,
        parts.width.as_slice(),
        parts.precision.as_slice(),
        kind.as_slice(),
    );
    assert(plain@ == ungrouped(spec@, shown_width(spec@)));
    let floating = match value {
        TrainingMetricScalar::Float(_) => true,
        TrainingMetricScalar::Integer(_) | TrainingMetricScalar::Boolean(_) => kind.len() > 0 && float_kind(
            kind[kind.len() - 1],
        ),
        _ => false,
    };
    assert(floating == shown_as_float(value@, fractional_kind(spec@)));
    if !floating {
        return scalar_engine(value, plain.as_str());
    }
    let mut bare: Vec<char> = Vec::new();
    append_chars(&mut bare, parts.leading.flags.as_slice());
    bare.push('0');
    append_chars(&mut bare, parts.leading.group.as_slice());
    append_chars(&mut bare, parts.precision.as_slice());
    append_chars(&mut bare, kind.as_slice());
    assert(bare@ =~= unpadded(spec@));
    let bare_text = from_chars(bare.as_slice());
    let body = match scalar_engine(value, bare_text.as_str()) {
        Ok(body) => to_chars(body.as_str()),
        Err(error) => return Err(error),
    };
    let (fraction, fraction_end) = fraction_span(body.as_slice());
    let length: usize = fraction_end - fraction;
    let extra: usize = if length > 1 {
        (length - 1) / 3
    } else {
        0
    };
    if extra == 0 {
        return scalar_engine(value, plain.as_str());
    }
    let narrow: usize = if parts.leading.width > extra {
        parts.leading.width - extra
    } else {
        0
    };
    let narrow_digits = decimal_chars(narrow);
    let padded = ungrouped_text(
        &parts.leading,
        narrow_digits.as_slice(),
        parts.precision.as_slice(),
        kind.as_slice(),
    );
    assert(padded@ == ungrouped(spec@, decimal_digits(narrow as nat)));
    let output = match scalar_engine(value, padded.as_str()) {
        Ok(output) => to_chars(output.as_str()),
        Err(error) => return Err(error),
    };
    let after: usize = trailing(parts.leading.layout.as_slice(), narrow, body.len());
    let digits = sub_chars(body.as_slice(), fraction, fraction_end);
    replace_fraction(output.as_slice(), after, body.len() - fraction_end, digits.as_slice(), parts.mark)
}

/// What a value formats to, for any specification.
#[verifier::opaque]
pub open spec fn scalar_formatted<F: FloatFormat>(value: ScalarModel<F>, spec: Seq<char>) -> TextResult {
    match normalized(spec) {
        Err(error) => Err(error),
        Ok(plain) => if runs_within(plain, field_limit()) {
            fractional_rendered(value, plain)
        } else {
            field_too_large()
        },
    }
}

/// Formats a metric value.
///
/// Width and precision may be written in the digits of any script and must not exceed the largest
/// numeric field. Locale presentations use the plain numeric locale.
pub fn format_rl_checkpoint_scalar<F: FloatFormat>(value: &TrainingMetricScalar<F>, spec: &str) -> (result: Result<
    String,
    String,
>)
    ensures
        text_result(result) == scalar_formatted(value@, spec@),
{
    reveal(scalar_formatted);
    let plain = match normalize_numeric_fields(spec) {
        Ok(plain) => plain,
        Err(error) => return Err(error),
    };
    if !fits(plain.as_str()) {
        return too_large();
    }
    fractional_scalar(value, plain.as_str())
}

/// Grouping fractional digits only adds separators: without them the digits are unchanged.
pub proof fn grouping_keeps_digits(digits: Seq<char>, mark: char)
    requires
        !is_digit(mark),
        forall|i: int| 0 <= i < digits.len() ==> is_digit(#[trigger] digits[i]),
    ensures
        grouped_fraction(digits, mark).filter(|ch: char| is_digit(ch)) == digits,
        digits.len() > 0 ==> grouped_fraction(digits, mark).len() == digits.len() + (digits.len() - 1) / 3,
    decreases digits.len(),
{
    let keep = |ch: char| is_digit(ch);
    if digits.len() <= 3 {
        all_kept(digits, keep);
    } else {
        let front = digits.take(3);
        let rest = digits.skip(3);
        assert forall|i: int| 0 <= i < rest.len() implies is_digit(#[trigger] rest[i]) by {
            assert(rest[i] == digits[i + 3]);
        }
        assert forall|i: int| 0 <= i < front.len() implies is_digit(#[trigger] front[i]) by {
            assert(front[i] == digits[i]);
        }
        grouping_keeps_digits(rest, mark);
        Seq::filter_distributes_over_add(front.push(mark), grouped_fraction(rest, mark), keep);
        all_kept(front, keep);
        assert(front.push(mark).filter(keep) == front) by {
            reveal(Seq::filter);
            assert(front.push(mark).drop_last() =~= front);
        }
        assert(front + rest =~= digits);
    }
}

/// Separators of grouped fractional digits stand behind every third digit, before a further one, and
/// nowhere else.
pub proof fn separators_stand_behind_third_digits(digits: Seq<char>, mark: char)
    requires
        !is_digit(mark),
        forall|i: int| 0 <= i < digits.len() ==> is_digit(#[trigger] digits[i]),
    ensures
        forall|i: int|
            0 <= i < grouped_fraction(digits, mark).len() ==> (#[trigger] grouped_fraction(digits, mark)[i] == mark <==> i
                % 4 == 3),
        digits.len() > 0 ==> is_digit(grouped_fraction(digits, mark).last()),
    decreases digits.len(),
{
    let whole = grouped_fraction(digits, mark);
    if digits.len() > 3 {
        let front = digits.take(3).push(mark);
        let rest = digits.skip(3);
        let tail = grouped_fraction(rest, mark);
        assert forall|i: int| 0 <= i < rest.len() implies is_digit(#[trigger] rest[i]) by {
            assert(rest[i] == digits[i + 3]);
        }
        separators_stand_behind_third_digits(rest, mark);
        assert forall|i: int| 0 <= i < whole.len() implies (#[trigger] whole[i] == mark <==> i % 4 == 3) by {
            if i < 4 {
                assert(whole[i] == front[i]);
                if i < 3 {
                    assert(front[i] == digits[i]);
                }
            } else {
                assert(whole[i] == tail[i - 4]);
                assert(i % 4 == (i - 4) % 4);
            }
        }
        grouping_keeps_digits(rest, mark);
        assert(whole.last() == tail.last());
    } else {
        assert forall|i: int| 0 <= i < whole.len() implies (#[trigger] whole[i] == mark <==> i % 4 == 3) by {
            assert(is_digit(digits[i]));
        }
    }
}

proof fn keeps_agree(items: Seq<char>, one: spec_fn(char) -> bool, other: spec_fn(char) -> bool)
    requires
        forall|i: int| 0 <= i < items.len() ==> one(#[trigger] items[i]) == other(items[i]),
    ensures
        items.filter(one) == items.filter(other),
    decreases items.len(),
{
    reveal(Seq::filter);
    if items.len() > 0 {
        let front = items.drop_last();
        assert forall|i: int| 0 <= i < front.len() implies one(#[trigger] front[i]) == other(front[i]) by {
            assert(front[i] == items[i]);
        }
        keeps_agree(front, one, other);
        assert(one(items[items.len() - 1]) == other(items[items.len() - 1]));
    }
}

/// A precision and a presentation, behind a width of zero.
pub open spec fn precision_spec(precision: Seq<char>, kind: char) -> Seq<char> {
    seq!['0', '.'] + precision + seq![kind]
}

/// A precision, a separator for fractional digits and a presentation.
pub open spec fn separated_spec(precision: Seq<char>, mark: char, kind: char) -> Seq<char> {
    seq!['.'] + precision + seq![mark, kind]
}

/// A text with its fractional digits in groups.
pub open spec fn fraction_grouped(body: Seq<char>, mark: char) -> Seq<char> {
    let start = fraction_start(body);
    let end = after_digits(body, start);
    body.take(start) + grouped_fraction(body.subrange(start, end), mark) + body.skip(end)
}

proof fn fraction_lies_within(body: Seq<char>)
    ensures
        0 <= fraction_start(body) <= body.len(),
    decreases body.len(),
{
    if body.len() > 0 && body[0] != '.' {
        fraction_lies_within(body.drop_first());
    }
}

/// A floating-point number with grouped fractional digits is the number as it is formatted without
/// them, with its fractional digits in groups of three from the point. Deleting the separators gives
/// it back, and there is one for every three digits before the last.
pub proof fn separators_only_group_the_fraction<F: FloatFormat>(
    value: ScalarModel<F>,
    precision: Seq<char>,
    mark: char,
    kind: char,
)
    requires
        value is Float,
        precision.len() > 0,
        forall|i: int| 0 <= i < precision.len() ==> is_digit(#[trigger] precision[i]),
        is_separator(mark),
        is_float_kind(kind),
    ensures
        match scalar_rendered(value, precision_spec(precision, kind)) {
            Err(error) => fractional_rendered(value, separated_spec(precision, mark, kind)) == Err::<Seq<char>, _>(error),
            Ok(body) => {
                let digits = after_digits(body, fraction_start(body)) - fraction_start(body);
                let text = fraction_grouped(body, mark);
                &&& fractional_rendered(value, separated_spec(precision, mark, kind)) == Ok::<Seq<char>, Seq<char>>(text)
                &&& text.len() == body.len() + reduced(digits, 1) / 3
                &&& !body.contains(mark) ==> text.filter(|ch: char| ch != mark) == body
                &&& !body.contains(mark) ==> forall|i: int|
                    0 <= i < text.len() && #[trigger] text[i] == mark ==> fraction_start(body) <= i < text.len() - (body.len()
                        - after_digits(body, fraction_start(body))) && (i - fraction_start(body)) % 4 == 3
            },
        },
{
    let spec = separated_spec(precision, mark, kind);
    let plain = precision_spec(precision, kind);
    let n = precision.len() as int;
    assert(spec[0] == '.' && spec[1] == precision[0] && spec[n + 1] == mark && spec[n + 2] == kind);
    assert(layout_end(spec) == 0 && flags_end(spec) == 0 && zero_end(spec) == 0);
    assert(width_end(spec) == 0 && group_end(spec) == 0);
    assert(precision_end(spec) == n + 1) by {
        crate::format_spec::digits_advance(spec, 1);
        let end = after_digits(spec, 1);
        if end < n + 1 {
            assert(spec[end] == precision[end - 1]);
        }
        if end > n + 1 {
            assert(is_digit(spec[n + 1]));
        }
    }
    assert(is_fractional(spec));
    assert(spec_precision(spec) =~= precision);
    assert(spec_width(spec) =~= Seq::<char>::empty());
    assert(spec_layout(spec) =~= Seq::<char>::empty());
    assert(spec_flags(spec) =~= Seq::<char>::empty());
    assert(spec_zero(spec) =~= Seq::<char>::empty());
    assert(spec_group(spec) =~= Seq::<char>::empty());
    assert(fractional_kind(spec) =~= seq![kind]);
    assert(seq![kind][0] != seq!['n'][0]);
    assert(seq![kind].last() == kind);
    assert(unpadded(spec) =~= plain);
    assert(shown_width(spec) == seq!['0']);
    assert(ungrouped(spec, seq!['0']) =~= plain);
    assert(digits_value(seq!['0']) == 0) by {
        reveal_with_fuel(digits_value, 2);
        assert(seq!['0'].drop_last() =~= Seq::<char>::empty());
    }
    assert(decimal_digits(0) =~= seq!['0']) by {
        reveal_with_fuel(decimal_digits, 2);
    }
    match scalar_rendered(value, plain) {
        Err(_) => {},
        Ok(body) => {
            fraction_lies_within(body);
            let start = fraction_start(body);
            crate::format_spec::digits_advance(body, start);
            let end = after_digits(body, start);
            let digits = body.subrange(start, end);
            let grouped = grouped_fraction(digits, mark);
            let text = fraction_grouped(body, mark);
            assert forall|i: int| 0 <= i < digits.len() implies is_digit(#[trigger] digits[i]) by {
                assert(digits[i] == body[start + i]);
            }
            grouping_keeps_digits(digits, mark);
            separators_stand_behind_third_digits(digits, mark);
            if digits.len() <= 3 {
                assert(text =~= body);
            }
            if !body.contains(mark) {
                let keep = |ch: char| ch != mark;
                let numeric = |ch: char| is_digit(ch);
                assert forall|i: int| 0 <= i < grouped.len() implies keep(#[trigger] grouped[i]) == numeric(grouped[i]) by {
                    grouped_holds_digits(digits, mark, i);
                }
                keeps_agree(grouped, keep, numeric);
                assert forall|i: int| 0 <= i < body.take(start).len() implies keep(#[trigger] body.take(start)[i]) by {
                    assert(body.contains(body[i]));
                }
                assert forall|i: int| 0 <= i < body.skip(end).len() implies keep(#[trigger] body.skip(end)[i]) by {
                    assert(body.contains(body[end + i]));
                }
                all_kept(body.take(start), keep);
                all_kept(body.skip(end), keep);
                Seq::filter_distributes_over_add(body.take(start), grouped, keep);
                Seq::filter_distributes_over_add(body.take(start) + grouped, body.skip(end), keep);
                assert(body.take(start) + digits + body.skip(end) =~= body);
                assert forall|i: int| 0 <= i < text.len() && #[trigger] text[i] == mark implies start <= i < text.len()
                    - (body.len() - end) && (i - start) % 4 == 3 by {
                    if i < start {
                        assert(body.contains(body[i]));
                    } else if i < start + grouped.len() {
                        assert(text[i] == grouped[i - start]);
                    } else {
                        let from = i - start - grouped.len() + end;
                        assert(text[i] == body[from]);
                        assert(body.contains(body[from]));
                    }
                }
            }
        },
    }
}

/// A precision and a presentation.
pub open spec fn plain_spec(precision: Seq<char>, kind: char) -> Seq<char> {
    seq!['.'] + precision + seq![kind]
}

/// Where a width of zero makes no difference to a floating-point number, its text with grouped
/// fractional digits differs from the one without a separator only in the separators: deleting them
/// gives it back, each stands in the fraction between two digits and behind a multiple of three of
/// them, and a fraction of as many digits as the precision says gets one for every three digits before
/// its last.
pub proof fn separators_only_group_the_plain_text<F: FloatFormat>(
    value: ScalarModel<F>,
    precision: Seq<char>,
    mark: char,
    kind: char,
)
    requires
        value is Float,
        precision.len() > 0,
        forall|i: int| 0 <= i < precision.len() ==> is_digit(#[trigger] precision[i]),
        is_separator(mark),
        is_float_kind(kind),
        scalar_rendered(value, precision_spec(precision, kind)) == scalar_rendered(value, plain_spec(precision, kind)),
    ensures
        match fractional_rendered(value, plain_spec(precision, kind)) {
            Err(error) => fractional_rendered(value, separated_spec(precision, mark, kind)) == Err::<Seq<char>, _>(error),
            Ok(body) => fractional_rendered(value, separated_spec(precision, mark, kind)) is Ok && ({
                let text = fractional_rendered(value, separated_spec(precision, mark, kind))->Ok_0;
                let start = fraction_start(body);
                let digits = after_digits(body, start) - start;
                let added = reduced(digits, 1) / 3;
                &&& text == fraction_grouped(body, mark)
                &&& text.len() == body.len() + added
                &&& !body.contains(mark) ==> text.filter(|ch: char| ch != mark) == body
                &&& !body.contains(mark) ==> text.filter(|ch: char| ch == mark).len() == added
                &&& !body.contains(mark) ==> forall|i: int|
                    0 <= i < text.len() ==> (#[trigger] text[i] == mark <==> start <= i < start + digits + added && (i
                        - start) % 4 == 3)
                &&& !body.contains(mark) ==> forall|i: int|
                    0 <= i < text.len() && #[trigger] text[i] == mark ==> is_digit(text[i - 1]) && is_digit(text[i + 1])
                &&& digits == digits_value(precision) ==> added == reduced(digits_value(precision), 1) / 3
            }),
        },
{
    let spec = plain_spec(precision, kind);
    let n = precision.len() as int;
    assert(spec[0] == '.' && spec[1] == precision[0] && spec[n + 1] == kind);
    assert(layout_end(spec) == 0 && flags_end(spec) == 0 && zero_end(spec) == 0);
    assert(width_end(spec) == 0 && group_end(spec) == 0);
    assert(precision_end(spec) == n + 1) by {
        crate::format_spec::digits_advance(spec, 1);
        let end = after_digits(spec, 1);
        if end < n + 1 {
            assert(spec[end] == precision[end - 1]);
        }
        if end > n + 1 {
            assert(is_digit(spec[n + 1]));
        }
    }
    assert(!is_fractional(spec));
    separators_only_group_the_fraction(value, precision, mark, kind);
    match scalar_rendered(value, spec) {
        Err(_) => {},
        Ok(body) => {
            if !body.contains(mark) {
                marks_stand_between_digits(body, mark);
                kept_and_left_out(fraction_grouped(body, mark), |ch: char| ch != mark, |ch: char| ch == mark);
            }
        },
    }
}

/// The separators of a text with its fractional digits in groups stand between two digits.
#[verifier::spinoff_prover]
proof fn marks_stand_between_digits(body: Seq<char>, mark: char)
    requires
        is_separator(mark),
        !body.contains(mark),
    ensures
        ({
            let text = fraction_grouped(body, mark);
            let start = fraction_start(body);
            let digits = after_digits(body, start) - start;
            &&& text.len() == body.len() + reduced(digits, 1) / 3
            &&& forall|i: int|
                0 <= i < text.len() ==> (#[trigger] text[i] == mark <==> start <= i < start + digits + reduced(digits, 1) / 3
                    && (i - start) % 4 == 3)
            &&& forall|i: int|
                0 <= i < text.len() && #[trigger] text[i] == mark ==> is_digit(text[i - 1]) && is_digit(text[i + 1])
        }),
{
    let text = fraction_grouped(body, mark);
    fraction_lies_within(body);
    let start = fraction_start(body);
    crate::format_spec::digits_advance(body, start);
    let end = after_digits(body, start);
    let digits = body.subrange(start, end);
    let grouped = grouped_fraction(digits, mark);
    assert forall|i: int| 0 <= i < digits.len() implies is_digit(#[trigger] digits[i]) by {
        assert(digits[i] == body[start + i]);
    }
    grouping_keeps_digits(digits, mark);
    separators_stand_behind_third_digits(digits, mark);
    assert(digits.len() == 0 ==> grouped.len() == 0);
    assert forall|i: int| 0 <= i < text.len() implies (#[trigger] text[i] == mark <==> start <= i < start + grouped.len() && (
    i - start) % 4 == 3) by {
        if i < start {
            assert(body.contains(body[i]));
        } else if i < start + grouped.len() {
            assert(text[i] == grouped[i - start]);
        } else {
            let from = i - start - grouped.len() + end;
            assert(text[i] == body[from]);
            assert(body.contains(body[from]));
        }
    }
    assert forall|i: int| 0 <= i < text.len() && #[trigger] text[i] == mark implies is_digit(text[i - 1]) && is_digit(
        text[i + 1],
    ) by {
        let at = i - start;
        assert(text[i] == grouped[at]);
        assert(text[i - 1] == grouped[at - 1]);
        grouped_holds_digits(digits, mark, at - 1);
        assert((at - 1) % 4 == 2);
        assert(at < grouped.len() - 1);
        assert(text[i + 1] == grouped[at + 1]);
        grouped_holds_digits(digits, mark, at + 1);
        assert((at + 1) % 4 == 0);
    }
}

proof fn kept_and_left_out(items: Seq<char>, keep: spec_fn(char) -> bool, leave: spec_fn(char) -> bool)
    requires
        forall|ch: char| #[trigger] keep(ch) == !leave(ch),
    ensures
        items.filter(keep).len() + items.filter(leave).len() == items.len(),
    decreases items.len(),
{
    reveal(Seq::filter);
    if items.len() > 0 {
        kept_and_left_out(items.drop_last(), keep, leave);
        assert(keep(items.last()) == !leave(items.last()));
    }
}

proof fn grouped_holds_digits(digits: Seq<char>, mark: char, i: int)
    requires
        forall|i: int| 0 <= i < digits.len() ==> is_digit(#[trigger] digits[i]),
        0 <= i < grouped_fraction(digits, mark).len(),
    ensures
        is_digit(grouped_fraction(digits, mark)[i]) || grouped_fraction(digits, mark)[i] == mark,
    decreases digits.len(),
{
    if digits.len() > 3 {
        let rest = digits.skip(3);
        assert forall|i: int| 0 <= i < rest.len() implies is_digit(#[trigger] rest[i]) by {
            assert(rest[i] == digits[i + 3]);
        }
        if i >= 4 {
            grouped_holds_digits(rest, mark, i - 4);
        } else if i < 3 {
            assert(grouped_fraction(digits, mark)[i] == digits[i]);
        }
    }
}

proof fn all_kept(items: Seq<char>, keep: spec_fn(char) -> bool)
    requires
        forall|i: int| 0 <= i < items.len() ==> keep(#[trigger] items[i]),
    ensures
        items.filter(keep) == items,
    decreases items.len(),
{
    reveal(Seq::filter);
    if items.len() > 0 {
        let front = items.drop_last();
        assert forall|i: int| 0 <= i < front.len() implies keep(#[trigger] front[i]) by {
            assert(front[i] == items[i]);
        }
        all_kept(front, keep);
        assert(keep(items[items.len() - 1]));
        assert(front.push(items.last()) =~= items);
    } else {
        assert(items.filter(keep) =~= items);
    }
}

/// Padding stands where the alignment puts it: all of it behind the number where that is moved to the
/// left, none of it where it is moved to the right, and half of it on either side of a number in the
/// middle, the larger half behind it.
pub proof fn padding_follows_the_alignment(layout: Seq<char>, width: int, body: nat)
    requires
        layout.len() > 0,
    ensures
        body >= width ==> trailing_fill(layout, width, body) == 0,
        body < width && layout.last() == '<' ==> body + trailing_fill(layout, width, body) == width,
        body < width && layout.last() == '>' ==> trailing_fill(layout, width, body) == 0,
        body < width && layout.last() == '^' ==> ({
            let behind = trailing_fill(layout, width, body);
            let before = width - body - behind;
            0 <= before <= behind <= before + 1
        }),
{
}

} // verus!
