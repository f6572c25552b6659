//! Numbers in a numeric locale.
use thousands::{digits, Separable, SeparatorPolicy};
use vstd::prelude::*;

use crate::format_spec::{
    after_digits, align, cut_spec, digit_runs_fit, field_limit, is_sign, runs_within, sign, skip_digits, width_end,
    zero_end,
};
use crate::integer::decimal_digits;
use crate::rl_checkpoint_format::{
    bounded, field_too_large, format_rl_checkpoint_scalar, format_text_bounded, pyformat_text, reduced,
    scalar_formatted, spec_flags, spec_layout, spec_width, spec_zero, FloatFormat, ScalarModel, TrainingMetricScalar,
};
use crate::rl_checkpoint_numeric::{normalize_numeric_fields, normalized};
use crate::text::{
    append_chars, append_repeated, decimal_chars, digits_value, from_chars, is_digit, repeated, sub_chars,
    text_result, to_chars, TextResult,
};

verus! {

/// The sizes before a terminator: zero repeats the last size, 127 ends grouping.
pub open spec fn group_sizes(grouping: Seq<u8>) -> Seq<u8>
    decreases grouping.len(),
{
    if grouping.len() == 0 || grouping[0] == 0 || grouping[0] == 127 {
        Seq::empty()
    } else {
        seq![grouping[0]] + group_sizes(grouping.drop_first())
    }
}

/// Whether grouping ends after the given sizes.
pub open spec fn group_stops(grouping: Seq<u8>) -> bool
    decreases grouping.len(),
{
    if grouping.len() == 0 || grouping[0] == 0 {
        false
    } else if grouping[0] == 127 {
        true
    } else {
        group_stops(grouping.drop_first())
    }
}

/// Whether sizes can be group sizes.
pub open spec fn valid_sizes(sizes: Seq<u8>) -> bool {
    forall|i: int| 0 <= i < sizes.len() ==> 1 <= #[trigger] sizes[i] <= 126
}

/// Digits with a separator between groups, counted from the right; the last size repeats.
pub open spec fn separated(text: Seq<char>, mark: Seq<char>, sizes: Seq<u8>) -> Seq<char>
    decreases text.len(),
{
    if sizes.len() == 0 || sizes[0] == 0 || text.len() <= sizes[0] {
        text
    } else {
        let cut = text.len() - sizes[0];
        let next = if sizes.len() > 1 {
            sizes.drop_first()
        } else {
            sizes
        };
        separated(text.take(cut), mark, next) + mark + text.skip(cut)
    }
}

/// `Separable::separate_by_policy` of `thousands`, for ASCII decimal digits: a separator between
/// groups counted from the right, the last size repeating. Sizes of zero divide by zero in it and
/// are left out.
#[verifier::external_body]
fn separate_digits(text: &str, mark: &str, sizes: &Vec<u8>) -> (result: String)
    requires
        forall|i: int| 0 <= i < text@.len() ==> is_digit(#[trigger] text@[i]),
        valid_sizes(sizes@),
    ensures
        result@ == separated(text@, mark@, sizes@),
{
    text.separate_by_policy(SeparatorPolicy { separator: mark, groups: sizes, digits: digits::ASCII_DECIMAL })
}

/// The sum of group sizes.
pub open spec fn total_size(sizes: Seq<u8>) -> int
    decreases sizes.len(),
{
    if sizes.len() == 0 {
        0
    } else {
        total_size(sizes.drop_last()) + sizes.last()
    }
}

/// The numeric fields of a locale.
#[verifier::ext_equal]
pub struct LocaleFields {
    /// The decimal mark.
    pub decimal: Seq<char>,
    /// The group separator.
    pub separator: Seq<char>,
    /// The group sizes, from the right.
    pub groups: Seq<u8>,
    /// Whether grouping ends after the last size.
    pub stop: bool,
}

/// Digits grouped as a locale asks for.
pub open spec fn locale_grouped(locale: LocaleFields, text: Seq<char>) -> Seq<char> {
    let tail = total_size(locale.groups);
    if locale.stop && locale.groups.len() > 0 && text.len() > tail {
        let start = text.len() - tail;
        text.take(start) + locale.separator + separated(text.skip(start), locale.separator, locale.groups)
    } else {
        separated(text, locale.separator, locale.groups)
    }
}

/// Digits with leading zeros up to a length.
pub open spec fn zero_extended(text: Seq<char>, length: int) -> Seq<char> {
    repeated('0', (length - text.len()) as nat) + text
}

/// The least number of digits, leading zeros included, that fill a width once they are grouped.
pub open spec fn fill_length(locale: LocaleFields, length: int, width: int) -> int
    decreases width - length,
{
    if length >= width || grouped_length(locale, length) >= width {
        length
    } else {
        fill_length(locale, length + 1, width)
    }
}

/// The length of grouped digits.
pub open spec fn separated_length(length: int, mark: int, sizes: Seq<u8>) -> int
    decreases length,
{
    if sizes.len() == 0 || sizes[0] == 0 || length <= sizes[0] {
        length
    } else {
        separated_length(
            length - sizes[0],
            mark,
            if sizes.len() > 1 {
                sizes.drop_first()
            } else {
                sizes
            },
        ) + mark + sizes[0]
    }
}

proof fn separated_has_length(text: Seq<char>, mark: Seq<char>, sizes: Seq<u8>)
    ensures
        separated(text, mark, sizes).len() == separated_length(text.len() as int, mark.len() as int, sizes),
    decreases text.len(),
{
    if !(sizes.len() == 0 || sizes[0] == 0 || text.len() <= sizes[0]) {
        let next = if sizes.len() > 1 {
            sizes.drop_first()
        } else {
            sizes
        };
        separated_has_length(text.take(text.len() - sizes[0]), mark, next);
    }
}

proof fn separated_length_grows(length: int, mark: int, sizes: Seq<u8>)
    requires
        0 <= length,
        0 <= mark,
    ensures
        separated_length(length, mark, sizes) >= length,
        separated_length(length + 1, mark, sizes) > separated_length(length, mark, sizes),
    decreases length,
{
    let next = if sizes.len() > 1 {
        sizes.drop_first()
    } else {
        sizes
    };
    if sizes.len() == 0 || sizes[0] == 0 {
    } else if length < sizes[0] {
    } else if length == sizes[0] {
        assert(separated_length(1, mark, next) >= 1) by {
            if !(next.len() == 0 || next[0] == 0) {
                assert(next[0] >= 1);
            }
        }
    } else {
        separated_length_grows(length - sizes[0], mark, next);
    }
}

/// The length of digits grouped as a locale asks for.
pub open spec fn grouped_length(locale: LocaleFields, length: int) -> int {
    let tail = total_size(locale.groups);
    let mark = locale.separator.len() as int;
    if locale.stop && locale.groups.len() > 0 && length > tail {
        length - tail + mark + separated_length(tail, mark, locale.groups)
    } else {
        separated_length(length, mark, locale.groups)
    }
}

proof fn total_size_not_negative(sizes: Seq<u8>)
    ensures
        total_size(sizes) >= 0,
    decreases sizes.len(),
{
    if sizes.len() > 0 {
        total_size_not_negative(sizes.drop_last());
    }
}

proof fn grouped_has_length(locale: LocaleFields, text: Seq<char>)
    ensures
        locale_grouped(locale, text).len() == grouped_length(locale, text.len() as int),
{
    total_size_not_negative(locale.groups);
    separated_has_length(text, locale.separator, locale.groups);
    let tail = total_size(locale.groups);
    if locale.stop && locale.groups.len() > 0 && text.len() > tail {
        separated_has_length(text.skip(text.len() - tail), locale.separator, locale.groups);
    }
}

/// The more digits, the longer they are once grouped.
pub proof fn grouped_length_grows(locale: LocaleFields, length: int, longer: int)
    requires
        0 <= length <= longer,
    ensures
        grouped_length(locale, length) >= length,
        grouped_length(locale, longer) >= grouped_length(locale, length),
    decreases longer - length,
{
    let mark = locale.separator.len() as int;
    let tail = total_size(locale.groups);
    total_size_not_negative(locale.groups);
    separated_length_grows(length, mark, locale.groups);
    separated_length_grows(tail, mark, locale.groups);
    if length < longer {
        grouped_length_grows(locale, length + 1, longer);
    }
}

/// A snapshot of a numeric locale.
#[derive(Debug)]
pub struct RlCheckpointNumericLocale {
    decimal: String,
    separator: String,
    groups: Vec<u8>,
    stop: bool,
}

impl View for RlCheckpointNumericLocale {
    type V = LocaleFields;

    closed spec fn view(&self) -> LocaleFields {
        LocaleFields {
            decimal: self.decimal@,
            separator: self.separator@,
            groups: self.groups@,
            stop: self.stop,
        }
    }
}

impl Default for RlCheckpointNumericLocale {
    fn default() -> (result: Self)
        ensures
            result@ == (LocaleFields {
                decimal: "."@,
                separator: Seq::empty(),
                groups: Seq::empty(),
                stop: false,
            }),
    {
        proof {
            reveal_strlit(".");
        }
        let result = RlCheckpointNumericLocale {
            decimal: ".".to_owned(),
            separator: String::new(),
            groups: Vec::new(),
            stop: false,
        };
        assert(result@ =~= (LocaleFields {
            decimal: "."@,
            separator: Seq::empty(),
            groups: Seq::empty(),
            stop: false,
        }));
        result
    }
}

/// Whether an entry before any terminator exceeds the largest size.
pub open spec fn has_bad_size(grouping: Seq<u8>) -> bool
    decreases grouping.len(),
{
    if grouping.len() == 0 || grouping[0] == 0 || grouping[0] == 127 {
        false
    } else {
        grouping[0] > 127 || has_bad_size(grouping.drop_first())
    }
}

impl RlCheckpointNumericLocale {
    #[verifier::type_invariant]
    closed spec fn valid(&self) -> bool {
        &&& self.decimal@.len() > 0
        &&& valid_sizes(self.groups@)
    }

    /// Takes decoded locale data. Entries after a terminator are ignored.
    pub fn new(decimal: String, separator: String, grouping: &[u8]) -> (result: Result<Self, String>)
        ensures
            match result {
                Ok(locale) => decimal@.len() > 0 && !has_bad_size(grouping@) && locale@ == (LocaleFields {
                    decimal: decimal@,
                    separator: separator@,
                    groups: group_sizes(grouping@),
                    stop: group_stops(grouping@),
                }),
                Err(error) => if decimal@.len() == 0 {
                    error@ == "locale decimal mark must not be empty"@
                } else {
                    has_bad_size(grouping@) && error@ == "locale grouping size exceeds CHAR_MAX"@
                },
            },
    {
        if decimal.as_str().unicode_len() == 0 {
            return Err("locale decimal mark must not be empty".to_owned());
        }
        let mut groups: Vec<u8> = Vec::new();
        let mut stop = false;
        let mut i: usize = 0;
        assert(grouping@.skip(0) =~= grouping@);
        assert(groups@ + group_sizes(grouping@) =~= group_sizes(grouping@));
        while i < grouping.len()
            invariant_except_break
                i <= grouping@.len(),
                !stop,
                decimal@.len() > 0,
                valid_sizes(groups@),
                groups@ + group_sizes(grouping@.skip(i as int)) == group_sizes(grouping@),
                group_stops(grouping@.skip(i as int)) == group_stops(grouping@),
                has_bad_size(grouping@.skip(i as int)) == has_bad_size(grouping@),
            ensures
                valid_sizes(groups@),
                groups@ == group_sizes(grouping@),
                stop == group_stops(grouping@),
                !has_bad_size(grouping@),
            decreases grouping@.len() - i,
        {
            let size: u8 = grouping[i];
            assert(grouping@.skip(i as int)[0] == size);
            assert(grouping@.skip(i as int).drop_first() =~= grouping@.skip(i + 1));
            if size == 0 {
                assert(groups@ + Seq::<u8>::empty() =~= groups@);
                break;
            }
            if size == 127 {
                stop = true;
                assert(groups@ + Seq::<u8>::empty() =~= groups@);
                break;
            }
            if size > 127 {
                return Err("locale grouping size exceeds CHAR_MAX".to_owned());
            }
            let ghost before = groups@;
            groups.push(size);
            i += 1;
            proof {
                assert(groups@ + group_sizes(grouping@.skip(i as int)) =~= before + (seq![size] + group_sizes(
                    grouping@.skip(i as int),
                )));
                if i == grouping@.len() {
                    assert(grouping@.skip(i as int) =~= Seq::<u8>::empty());
                    assert(groups@ + Seq::<u8>::empty() =~= groups@);
                }
            }
        }
        Ok(RlCheckpointNumericLocale { decimal, separator, groups, stop })
    }

    /// Groups digits.
    pub fn grouped(&self, value: &[char]) -> (result: Vec<char>)
        requires
            forall|i: int| 0 <= i < value@.len() ==> is_digit(#[trigger] value@[i]),
        ensures
            result@ == locale_grouped(self@, value@),
    {
        proof {
            use_type_invariant(self);
        }
        if self.stop && self.groups.len() > 0 {
            let mut tail: usize = 0;
            let mut i: usize = 0;
            assert(self.groups@.take(0) =~= Seq::<u8>::empty());
            while i < self.groups.len()
                invariant
                    i <= self.groups@.len(),
                    self.stop,
                    self.groups@.len() > 0,
                    valid_sizes(self.groups@),
                    forall|k: int| 0 <= k < value@.len() ==> is_digit(#[trigger] value@[k]),
                    tail == total_size(self.groups@.take(i as int)),
                    tail <= value@.len(),
                decreases self.groups@.len() - i,
            {
                proof {
                    assert(self.groups@.take(i + 1).drop_last() =~= self.groups@.take(i as int));
                }
                if value.len() - tail < self.groups[i] as usize {
                    proof {
                        total_size_grows(self.groups@, i + 1, self.groups@.len() as int);
                        assert(self.groups@.take(self.groups@.len() as int) =~= self.groups@);
                    }
                    return self.separate(value);
                }
                tail = tail + self.groups[i] as usize;
                i += 1;
            }
            assert(self.groups@.take(i as int) =~= self.groups@);
            if value.len() > tail {
                let start: usize = value.len() - tail;
                let rest = sub_chars(value, start, value.len());
                proof {
                    assert(rest@ =~= value@.skip(start as int));
                    assert forall|k: int| 0 <= k < rest@.len() implies is_digit(#[trigger] rest@[k]) by {
                        assert(rest@[k] == value@[start + k]);
                    }
                }
                let mut output = sub_chars(value, 0, start);
                let mark = to_chars(self.separator.as_str());
                append_chars(&mut output, mark.as_slice());
                append_chars(&mut output, self.separate(rest.as_slice()).as_slice());
                assert(value@.subrange(0, start as int) =~= value@.take(start as int));
                return output;
            }
        }
        self.separate(value)
    }

    fn separate(&self, value: &[char]) -> (result: Vec<char>)
        requires
            forall|i: int| 0 <= i < value@.len() ==> is_digit(#[trigger] value@[i]),
        ensures
            result@ == separated(value@, self@.separator, self@.groups),
    {
        proof {
            use_type_invariant(self);
        }
        let text = from_chars(value);
        let grouped = separate_digits(text.as_str(), self.separator.as_str(), &self.groups);
        to_chars(grouped.as_str())
    }

    /// Groups digits with as many leading zeros as it takes to fill a width.
    pub fn zero_grouped(&self, value: &[char], width: usize) -> (result: Vec<char>)
        requires
            forall|i: int| 0 <= i < value@.len() ==> is_digit(#[trigger] value@[i]),
        ensures
            result@ == locale_grouped(
                self@,
                zero_extended(value@, fill_length(self@, value@.len() as int, width as int)),
            ),
    {
        let mut lower: usize = value.len();
        let mut upper: usize = if width > lower {
            width
        } else {
            lower
        };
        while lower < upper
            invariant
                value@.len() <= lower <= upper,
                forall|i: int| 0 <= i < value@.len() ==> is_digit(#[trigger] value@[i]),
                upper >= width || grouped_length(self@, upper as int) >= width,
                forall|shorter: int|
                    value@.len() <= shorter < lower ==> #[trigger] grouped_length(self@, shorter) < width,
            decreases upper - lower,
        {
            let middle: usize = lower + (upper - lower) / 2;
            let candidate = extend_with_zeros(value, middle);
            if self.grouped(candidate.as_slice()).len() < width {
                proof {
                    grouped_has_length(self@, zero_extended(value@, middle as int));
                    assert forall|shorter: int| value@.len() <= shorter < middle + 1 implies #[trigger] grouped_length(
                        self@,
                        shorter,
                    ) < width by {
                        grouped_length_grows(self@, shorter, middle as int);
                    }
                }
                lower = middle + 1;
            } else {
                proof {
                    grouped_has_length(self@, zero_extended(value@, middle as int));
                }
                upper = middle;
            }
        }
        let extended = extend_with_zeros(value, lower);
        proof {
            fill_length_is(self@, value@.len() as int, width as int, lower as int);
        }
        self.grouped(extended.as_slice())
    }

    /// The same locale.
    pub fn copied(&self) -> (result: Self)
        ensures
            result@ == self@,
    {
        proof {
            use_type_invariant(self);
        }
        let groups = self.groups.clone();
        assert(groups@ =~= self.groups@);
        RlCheckpointNumericLocale {
            decimal: self.decimal.clone(),
            separator: self.separator.clone(),
            groups,
            stop: self.stop,
        }
    }
}

proof fn fill_length_is(locale: LocaleFields, length: int, width: int, found: int)
    requires
        0 <= length <= found,
        found >= width || grouped_length(locale, found) >= width,
        forall|shorter: int| length <= shorter < found ==> #[trigger] grouped_length(locale, shorter) < width,
    ensures
        fill_length(locale, length, width) == found,
    decreases found - length,
{
    if length < found {
        grouped_length_grows(locale, length, length);
        assert(grouped_length(locale, length) < width);
        fill_length_is(locale, length + 1, width, found);
    }
}

proof fn total_size_grows(sizes: Seq<u8>, count: int, more: int)
    requires
        0 <= count <= more <= sizes.len(),
    ensures
        total_size(sizes.take(count)) <= total_size(sizes.take(more)),
    decreases more - count,
{
    if count < more {
        assert(sizes.take(more).drop_last() =~= sizes.take(more - 1));
        total_size_grows(sizes, count, more - 1);
    }
}

fn extend_with_zeros(value: &[char], length: usize) -> (result: Vec<char>)
    requires
        value@.len() <= length,
        forall|i: int| 0 <= i < value@.len() ==> is_digit(#[trigger] value@[i]),
    ensures
        result@ == zero_extended(value@, length as int),
        forall|i: int| 0 <= i < result@.len() ==> is_digit(#[trigger] result@[i]),
{
    let mut output: Vec<char> = Vec::new();
    append_repeated(&mut output, '0', length - value.len());
    append_chars(&mut output, value);
    proof {
        assert(output@ =~= zero_extended(value@, length as int));
        assert forall|i: int| 0 <= i < output@.len() implies is_digit(#[trigger] output@[i]) by {
            if i >= length - value@.len() {
                assert(output@[i] == value@[i - (length - value@.len())]);
            }
        }
    }
    output
}


/// What a provider of a numeric locale answers.
pub type Answer = Result<LocaleFields, Seq<char>>;

/// What a provider answered, by its contents.
pub open spec fn answer_of(result: Result<RlCheckpointNumericLocale, String>) -> Answer {
    match result {
        Ok(locale) => Ok(locale@),
        Err(error) => Err(error@),
    }
}

/// Where the numeric locale comes from. It is asked for at the position of a numeric field, not
/// when a name is set up, so that two fields of one name may see two answers.
pub trait RlCheckpointLocaleProvider {
    /// Whether the provider may answer this when it is asked.
    open spec fn may_answer(&self, answer: Answer) -> bool {
        arbitrary()
    }

    /// The current numeric locale.
    fn numeric_locale(&self) -> (result: Result<RlCheckpointNumericLocale, String>)
        ensures
            self.may_answer(answer_of(result)),
    ;
}

impl RlCheckpointLocaleProvider for RlCheckpointNumericLocale {
    open spec fn may_answer(&self, answer: Answer) -> bool {
        answer == Ok::<LocaleFields, Seq<char>>(self@)
    }

    fn numeric_locale(&self) -> (result: Result<RlCheckpointNumericLocale, String>) {
        Ok(self.copied())
    }
}

/// Whether an answer can come from a provider. Where the provider has none to give, it is not asked,
/// and any answer may stand for the missing one.
pub open spec fn answers<P: RlCheckpointLocaleProvider>(provider: P, answer: Answer) -> bool {
    provider.may_answer(answer) || forall|other: Answer| !#[trigger] provider.may_answer(other)
}

/// An answer that can come from a provider.
pub open spec fn some_answer<P: RlCheckpointLocaleProvider>(provider: P) -> Answer {
    choose|answer: Answer| #[trigger] answers(provider, answer)
}

pub(crate) proof fn providers_answer<P: RlCheckpointLocaleProvider>(provider: P)
    ensures
        answers(provider, some_answer(provider)),
{
    let open: Answer = arbitrary();
    if !answers(provider, open) {
        let other = choose|other: Answer| #[trigger] provider.may_answer(other);
        assert(answers(provider, other));
    }
}

/// A fixed numeric locale gives itself as its only answer.
pub proof fn fixed_locales_answer_themselves(locale: RlCheckpointNumericLocale, answer: Answer)
    ensures
        answers(locale, answer) <==> answer == Ok::<LocaleFields, Seq<char>>(locale@),
{
    assert(locale.may_answer(Ok::<LocaleFields, Seq<char>>(locale@)));
}

/// The end of an optional precision after the width.
pub open spec fn local_precision_end(spec: Seq<char>) -> int {
    let width = width_end(spec);
    if width < spec.len() && spec[width] == '.' && after_digits(spec, width + 1) > width + 1 {
        after_digits(spec, width + 1)
    } else {
        width
    }
}

/// Whether a specification consists of leading fields without grouping, an optional precision and
/// the locale presentation.
pub open spec fn is_local(spec: Seq<char>) -> bool {
    local_precision_end(spec) == spec.len() - 1 && spec.last() == 'n'
}

/// The specification of the number alone, without padding.
pub open spec fn local_bare(spec: Seq<char>) -> Seq<char> {
    spec_flags(spec) + seq!['0'] + spec.subrange(width_end(spec), local_precision_end(spec)) + seq!['n']
}

/// What comes of formatting a value before the locale is known.
pub enum LocaleStage {
    /// The locale makes no difference.
    Done(TextResult),
    /// The locale is needed for a number: the specification in ASCII digits, and the number
    /// without padding.
    Number(Seq<char>, Seq<char>),
}

/// What comes of formatting a value before the locale is known.
pub open spec fn locale_stage<F: FloatFormat>(value: ScalarModel<F>, spec: Seq<char>) -> LocaleStage {
    if spec.len() == 0 || spec.last() != 'n' {
        LocaleStage::Done(scalar_formatted(value, spec))
    } else {
        match normalized(spec) {
            Err(error) => LocaleStage::Done(Err(error)),
            Ok(plain) => if !runs_within(plain, field_limit()) {
                LocaleStage::Done(field_too_large())
            } else if !is_local(plain) {
                LocaleStage::Done(scalar_formatted(value, plain))
            } else {
                match scalar_formatted(value, local_bare(plain)) {
                    Err(error) => LocaleStage::Done(Err(error)),
                    Ok(body) => LocaleStage::Number(plain, body),
                }
            },
        }
    }
}

/// The length of a leading sign.
pub open spec fn sign_length(body: Seq<char>) -> int {
    if body.len() > 0 && is_sign(body[0]) {
        1
    } else {
        0
    }
}

/// The first decimal point replaced by a decimal mark.
pub open spec fn remarked(text: Seq<char>, mark: Seq<char>) -> Seq<char>
    decreases text.len(),
{
    if text.len() == 0 {
        text
    } else if text[0] == '.' {
        mark + text.drop_first()
    } else {
        seq![text[0]] + remarked(text.drop_first(), mark)
    }
}

/// The fill character of a specification.
pub open spec fn fill_of(spec: Seq<char>) -> char {
    if spec_layout(spec).len() >= 2 {
        spec[0]
    } else if spec_zero(spec).len() > 0 {
        '0'
    } else {
        ' '
    }
}

/// The alignment of a specification for a number.
pub open spec fn align_of(spec: Seq<char>) -> char {
    if spec_layout(spec).len() > 0 {
        spec_layout(spec).last()
    } else if spec_zero(spec).len() > 0 {
        '='
    } else {
        '>'
    }
}

/// A signed number padded to a width. With the alignment after the sign, padding goes between the
/// sign and the number.
pub open spec fn padded_local(mark: Seq<char>, number: Seq<char>, fill: char, align: char, width: int) -> TextResult {
    if align == '=' {
        let layout = seq![fill, '>'] + decimal_digits(reduced(width, mark.len() as int) as nat);
        match bounded(layout, pyformat_text(number, layout)) {
            Ok(padded) => Ok(mark + padded),
            Err(error) => Err(error),
        }
    } else {
        let layout = seq![fill, align] + decimal_digits(width as nat);
        bounded(layout, pyformat_text(mark + number, layout))
    }
}

/// The whole part of a number in a locale, filled with zeros to a width where that is asked for.
pub open spec fn whole_grouped(locale: LocaleFields, whole: Seq<char>, width: int, zeros: bool) -> Seq<char> {
    if zeros {
        locale_grouped(locale, zero_extended(whole, fill_length(locale, whole.len() as int, width)))
    } else {
        locale_grouped(locale, whole)
    }
}

/// A number in a locale, padded to its width. What is not a number of digits is not localized.
pub open spec fn localized<F: FloatFormat>(
    value: ScalarModel<F>,
    plain: Seq<char>,
    body: Seq<char>,
    locale: LocaleFields,
) -> TextResult {
    let start = sign_length(body);
    let end = after_digits(body, start);
    let rest = remarked(body.skip(end), locale.decimal);
    let width = digits_value(spec_width(plain));
    let fill = fill_of(plain);
    if end == start {
        scalar_formatted(value, plain)
    } else {
        let grouped = whole_grouped(
            locale,
            body.subrange(start, end),
            reduced(width, start + rest.len()),
            align_of(plain) == '=' && fill == '0',
        );
        padded_local(body.take(start), grouped + rest, fill, align_of(plain), width)
    }
}

/// What a value formats to, given what the locale provider answers.
pub open spec fn scalar_localized<F: FloatFormat>(
    value: ScalarModel<F>,
    spec: Seq<char>,
    answer: Result<LocaleFields, Seq<char>>,
) -> TextResult {
    match locale_stage(value, spec) {
        LocaleStage::Done(result) => result,
        LocaleStage::Number(plain, body) => match answer {
            Ok(locale) => localized(value, plain, body, locale),
            Err(error) => Err(error),
        },
    }
}

fn remark(text: &[char], mark: &[char]) -> (result: Vec<char>)
    ensures
        result@ == remarked(text@, mark@),
{
    let mut output: Vec<char> = Vec::new();
    let mut i: usize = 0;
    assert(text@.skip(0) =~= text@);
    assert(output@ + remarked(text@, mark@) =~= remarked(text@, mark@));
    while i < text.len()
        invariant
            i <= text@.len(),
            output@ + remarked(text@.skip(i as int), mark@) == remarked(text@, mark@),
        decreases text@.len() - i,
    {
        let ghost rest = text@.skip(i as int);
        assert(rest[0] == text@[i as int]);
        assert(rest.drop_first() =~= text@.skip(i + 1));
        if text[i] == '.' {
            append_chars(&mut output, mark);
            append_chars(&mut output, sub_chars(text, i + 1, text.len()).as_slice());
            assert(text@.subrange(i + 1, text@.len() as int) =~= rest.drop_first());
            assert(output@ =~= remarked(text@, mark@));
            return output;
        }
        let ghost before = output@;
        output.push(text[i]);
        i += 1;
        assert(output@ + remarked(text@.skip(i as int), mark@) =~= before + (seq![rest[0]] + remarked(
            text@.skip(i as int),
            mark@,
        )));
    }
    assert(text@.skip(i as int) =~= Seq::<char>::empty());
    assert(output@ + Seq::<char>::empty() =~= output@);
    output
}

/// A number that waits for its locale.
pub struct LocalNumber {
    plain: Vec<char>,
    body: Vec<char>,
}

impl LocalNumber {
    /// The specification in ASCII digits.
    pub closed spec fn spec(&self) -> Seq<char> {
        self.plain@
    }

    /// The number without padding.
    pub closed spec fn number(&self) -> Seq<char> {
        self.body@
    }
}

/// What comes of formatting a value before the locale is known.
pub enum LocalOutcome {
    Done(Result<String, String>),
    Number(LocalNumber),
}

/// Formats a value as far as that is possible without the locale.
pub fn begin_local_format<F: FloatFormat>(value: &TrainingMetricScalar<F>, spec: &str) -> (result: LocalOutcome)
    ensures
        match (result, locale_stage(value@, spec@)) {
            (LocalOutcome::Done(outcome), LocaleStage::Done(expected)) => text_result(outcome) == expected,
            (LocalOutcome::Number(number), LocaleStage::Number(plain, body)) => number.spec() == plain
                && number.number() == body && runs_within(plain, field_limit()),
            _ => false,
        },
{
    let text = to_chars(spec);
    if text.len() == 0 || text[text.len() - 1] != 'n' {
        return LocalOutcome::Done(format_rl_checkpoint_scalar(value, spec));
    }
    let plain = match normalize_numeric_fields(spec) {
        Ok(plain) => plain,
        Err(error) => return LocalOutcome::Done(Err(error)),
    };
    let chars = to_chars(plain.as_str());
    if !digit_runs_fit(chars.as_slice()) {
        return LocalOutcome::Done(Err("format numeric field is too large".to_owned()));
    }
    let cut = cut_spec(chars.as_slice());
    let mut end: usize = cut.width;
    if cut.width < chars.len() && chars[cut.width] == '.' {
        let precision: usize = skip_digits(chars.as_slice(), cut.width + 1);
        if precision > cut.width + 1 {
            end = precision;
        }
    }
    assert(end == local_precision_end(chars@));
    if end >= chars.len() || end != chars.len() - 1 || chars[chars.len() - 1] != 'n' {
        return LocalOutcome::Done(format_rl_checkpoint_scalar(value, plain.as_str()));
    }
    let mut bare = sub_chars(chars.as_slice(), cut.layout, cut.flags);
    bare.push('0');
    append_chars(&mut bare, sub_chars(chars.as_slice(), cut.width, end).as_slice());
    bare.push('n');
    assert(bare@ =~= local_bare(chars@));
    let bare_text = from_chars(bare.as_slice());
    match format_rl_checkpoint_scalar(value, bare_text.as_str()) {
        Ok(body) => LocalOutcome::Number(LocalNumber { plain: chars, body: to_chars(body.as_str()) }),
        Err(error) => LocalOutcome::Done(Err(error)),
    }
}

/// Puts a number into a locale and pads it.
pub fn finish_local_format<F: FloatFormat>(
    value: &TrainingMetricScalar<F>,
    number: LocalNumber,
    locale: &RlCheckpointNumericLocale,
) -> (result: Result<String, String>)
    requires
        runs_within(number.spec(), field_limit()),
    ensures
        text_result(result) == localized(value@, number.spec(), number.number(), locale@),
{
    let ghost asked = number.spec();
    let ghost shown_number = number.number();
    let body = number.body;
    let plain = number.plain;
    assert(asked == plain@ && shown_number == body@);
    let start: usize = if body.len() > 0 && sign(body[0]) {
        1
    } else {
        0
    };
    let end: usize = skip_digits(body.as_slice(), start);
    if end == start {
        let text = from_chars(plain.as_slice());
        let result = format_rl_checkpoint_scalar(value, text.as_str());
        return result;
    }
    let whole = sub_chars(body.as_slice(), start, end);
    proof {
        assert forall|i: int| 0 <= i < whole@.len() implies is_digit(#[trigger] whole@[i]) by {
            assert(whole@[i] == body@[start + i]);
        }
    }
    let tail = sub_chars(body.as_slice(), end, body.len());
    assert(tail@ =~= body@.skip(end as int));
    let mark = to_chars(locale.decimal.as_str());
    let rest = remark(tail.as_slice(), mark.as_slice());
    let cut = cut_spec(plain.as_slice());
    let width: usize = width_number(plain.as_slice(), cut.zero, cut.width);
    let zero = cut.zero > cut.flags;
    let fill: char = if cut.layout == 2 {
        plain[0]
    } else if zero {
        '0'
    } else {
        ' '
    };
    let aligned: char = if cut.layout > 0 {
        plain[cut.layout - 1]
    } else if zero {
        '='
    } else {
        '>'
    };
    assert(fill == fill_of(plain@) && aligned == align_of(plain@));
    let used: usize = if rest.len() >= width {
        width
    } else if width - rest.len() <= start {
        width
    } else {
        rest.len() + start
    };
    let grouped = group_whole(whole.as_slice(), width - used, aligned == '=' && fill == '0', locale);
    let ghost groups = grouped@;
    let mut shown = grouped;
    append_chars(&mut shown, rest.as_slice());
    let mark = sub_chars(body.as_slice(), 0, start);
    assert(mark@ =~= body@.take(start as int));
    let result = pad_local(mark.as_slice(), shown.as_slice(), fill, aligned, width);
    result
}

fn group_whole(whole: &[char], width: usize, zeros: bool, locale: &RlCheckpointNumericLocale) -> (result: Vec<char>)
    requires
        forall|i: int| 0 <= i < whole@.len() ==> is_digit(#[trigger] whole@[i]),
    ensures
        result@ == whole_grouped(locale@, whole@, width as int, zeros),
{
    if zeros {
        locale.zero_grouped(whole, width)
    } else {
        locale.grouped(whole)
    }
}

fn pad_local(mark: &[char], number: &[char], fill: char, aligned: char, width: usize) -> (result: Result<String, String>)
    ensures
        text_result(result) == padded_local(mark@, number@, fill, aligned, width as int),
{
    let mut layout: Vec<char> = Vec::new();
    layout.push(fill);
    if aligned == '=' {
        layout.push('>');
        let inner: usize = if width > mark.len() {
            width - mark.len()
        } else {
            0
        };
        append_chars(&mut layout, decimal_chars(inner).as_slice());
        assert(layout@ =~= seq![fill, '>'] + decimal_digits(inner as nat));
        let shown = sub_chars(number, 0, number.len());
        assert(shown@ =~= number@);
        match format_text_bounded(&shown, &layout) {
            Ok(padded) => {
                let mut output = sub_chars(mark, 0, mark.len());
                append_chars(&mut output, to_chars(padded.as_str()).as_slice());
                assert(output@ =~= mark@ + padded@);
                Ok(from_chars(output.as_slice()))
            },
            Err(error) => Err(error),
        }
    } else {
        layout.push(aligned);
        append_chars(&mut layout, decimal_chars(width).as_slice());
        assert(layout@ =~= seq![fill, aligned] + decimal_digits(width as nat));
        let mut shown = sub_chars(mark, 0, mark.len());
        append_chars(&mut shown, number);
        assert(shown@ =~= mark@ + number@);
        format_text_bounded(&shown, &layout)
    }
}

fn width_number(spec: &[char], start: usize, end: usize) -> (result: usize)
    requires
        start == zero_end(spec@),
        end == width_end(spec@),
        start <= end <= spec@.len(),
        runs_within(spec@, field_limit()),
    ensures
        result == digits_value(spec_width(spec@)),
{
    let width = sub_chars(spec, start, end);
    proof {
        crate::format_spec::digits_advance(spec@, start as int);
        assert forall|i: int| 0 <= i < width@.len() implies is_digit(#[trigger] width@[i]) by {
            assert(width@[i] == spec@[start + i]);
        }
        crate::format_spec::run_stays_within(spec@, field_limit(), start as int, end as int);
    }
    crate::rl_checkpoint_format::digits_number(width.as_slice())
}

/// Formats a value in the numeric locale of a provider. The provider is asked only for a number
/// with the locale presentation, after the number itself was rendered.
pub fn format_rl_checkpoint_scalar_with_locale<F: FloatFormat, P: RlCheckpointLocaleProvider>(
    value: &TrainingMetricScalar<F>,
    spec: &str,
    provider: &P,
) -> (result: Result<String, String>)
    ensures
        exists|answer: Answer| #[trigger]
            answers(*provider, answer) && text_result(result) == scalar_localized(value@, spec@, answer),
{
    proof {
        providers_answer(*provider);
    }
    match begin_local_format(value, spec) {
        LocalOutcome::Done(result) => result,
        LocalOutcome::Number(number) => {
            let said = provider.numeric_locale();
            assert(answers(*provider, answer_of(said)));
            match said {
                Ok(locale) => finish_local_format(value, number, &locale),
                Err(error) => Err(error),
            }
        },
    }
}

/// The numeric conventions of a running system.
#[derive(Debug)]
pub struct NumericSnapshot {
    pub decimal: String,
    pub separator: String,
    pub grouping: Vec<u8>,
}

/// Takes the numeric conventions of a running system over, if they could be read.
pub fn convert_snapshot(snapshot: Result<NumericSnapshot, String>) -> (result: Result<RlCheckpointNumericLocale, String>)
    ensures
        match snapshot {
            Err(error) => result == Err::<RlCheckpointNumericLocale, String>(error),
            Ok(read) => match result {
                Ok(locale) => read.decimal@.len() > 0 && !has_bad_size(read.grouping@) && locale@ == (LocaleFields {
                    decimal: read.decimal@,
                    separator: read.separator@,
                    groups: group_sizes(read.grouping@),
                    stop: group_stops(read.grouping@),
                }),
                Err(error) => if read.decimal@.len() == 0 {
                    error@ == "locale decimal mark must not be empty"@
                } else {
                    has_bad_size(read.grouping@) && error@ == "locale grouping size exceeds CHAR_MAX"@
                },
            },
        },
{
    match snapshot {
        Err(error) => Err(error),
        Ok(read) => RlCheckpointNumericLocale::new(read.decimal, read.separator, read.grouping.as_slice()),
    }
}

/// Digits are filled up with the fewest zeros that make the grouped digits as long as the width: one
/// zero fewer would leave them shorter.
pub proof fn fills_take_the_fewest_zeros(locale: LocaleFields, length: int, width: int)
    requires
        valid_sizes(locale.groups),
        length >= 0,
    ensures
        fill_length(locale, length, width) >= length,
        fill_length(locale, length, width) >= width || grouped_length(locale, fill_length(locale, length, width)) >= width,
        fill_length(locale, length, width) > length ==> fill_length(locale, length, width) - 1 < width && grouped_length(
            locale,
            fill_length(locale, length, width) - 1,
        ) < width,
    decreases width - length,
{
    if !(length >= width || grouped_length(locale, length) >= width) {
        fills_take_the_fewest_zeros(locale, length + 1, width);
    }
}

/// Grouping adds separators and nothing else: without them the digits are what they were.
pub proof fn groups_keep_their_digits(locale: LocaleFields, text: Seq<char>, mark: char)
    requires
        locale.separator == seq![mark],
        valid_sizes(locale.groups),
        !text.contains(mark),
    ensures
        locale_grouped(locale, text).filter(|ch: char| ch != mark) == text,
{
    let plain = |ch: char| ch != mark;
    let tail = total_size(locale.groups);
    total_size_not_negative(locale.groups);
    if locale.stop && locale.groups.len() > 0 && text.len() > tail {
        let start = text.len() - tail;
        let (front, back) = (text.take(start), text.skip(start));
        assert forall|i: int| 0 <= i < front.len() implies #[trigger] front[i] != mark by {
            assert(text.contains(text[i]));
        }
        assert forall|i: int| 0 <= i < back.len() implies #[trigger] back[i] != mark by {
            assert(text.contains(text[start + i]));
        }
        let grouped = separated(back, locale.separator, locale.groups);
        unmarked_texts_stay(front, mark);
        parts_keep_their_digits(back, mark, locale.groups);
        filters_join(front, locale.separator, mark);
        filters_join(front + locale.separator, grouped, mark);
        marks_are_dropped(mark);
        assert(front + back =~= text);
        assert(front.filter(plain) + locale.separator.filter(plain) =~= front);
    } else {
        assert forall|i: int| 0 <= i < text.len() implies #[trigger] text[i] != mark by {
            assert(text.contains(text[i]));
        }
        parts_keep_their_digits(text, mark, locale.groups);
    }
}

proof fn marks_are_dropped(mark: char)
    ensures
        seq![mark].filter(|ch: char| ch != mark) == Seq::<char>::empty(),
{
    reveal(Seq::filter);
    assert(seq![mark].drop_last() =~= Seq::<char>::empty());
    assert(seq![mark].last() == mark);
    assert(Seq::<char>::empty().filter(|ch: char| ch != mark) =~= Seq::<char>::empty());
}

proof fn unmarked_texts_stay(text: Seq<char>, mark: char)
    requires
        forall|i: int| 0 <= i < text.len() ==> #[trigger] text[i] != mark,
    ensures
        text.filter(|ch: char| ch != mark) == text,
    decreases text.len(),
{
    reveal(Seq::filter);
    if text.len() > 0 {
        let fewer = text.drop_last();
        assert forall|i: int| 0 <= i < fewer.len() implies #[trigger] fewer[i] != mark by {
            assert(text[i] != mark);
        }
        unmarked_texts_stay(fewer, mark);
        assert(text[text.len() - 1] != mark);
        assert(fewer.push(text.last()) =~= text);
    } else {
        assert(text.filter(|ch: char| ch != mark) =~= text);
    }
}

proof fn filters_join(left: Seq<char>, right: Seq<char>, mark: char)
    ensures
        (left + right).filter(|ch: char| ch != mark) == left.filter(|ch: char| ch != mark) + right.filter(
            |ch: char| ch != mark,
        ),
    decreases right.len(),
{
    let plain = |ch: char| ch != mark;
    reveal(Seq::filter);
    if right.len() == 0 {
        assert(left + right =~= left);
        assert(left.filter(plain) + right.filter(plain) =~= left.filter(plain));
    } else {
        filters_join(left, right.drop_last(), mark);
        assert((left + right).drop_last() =~= left + right.drop_last());
        assert((left + right).last() == right.last());
        assert((left + right).filter(plain) =~= left.filter(plain) + right.filter(plain));
    }
}

proof fn parts_keep_their_digits(text: Seq<char>, mark: char, sizes: Seq<u8>)
    requires
        forall|i: int| 0 <= i < text.len() ==> #[trigger] text[i] != mark,
    ensures
        separated(text, seq![mark], sizes).filter(|ch: char| ch != mark) == text,
    decreases text.len(),
{
    let plain = |ch: char| ch != mark;
    if sizes.len() == 0 || sizes[0] == 0 || text.len() <= sizes[0] {
        unmarked_texts_stay(text, mark);
    } else {
        let cut = text.len() - sizes[0];
        let next = if sizes.len() > 1 {
            sizes.drop_first()
        } else {
            sizes
        };
        let (front, back) = (text.take(cut), text.skip(cut));
        assert forall|i: int| 0 <= i < front.len() implies #[trigger] front[i] != mark by {
            assert(text[i] != mark);
        }
        assert forall|i: int| 0 <= i < back.len() implies #[trigger] back[i] != mark by {
            assert(text[cut + i] != mark);
        }
        parts_keep_their_digits(front, mark, next);
        unmarked_texts_stay(back, mark);
        let grouped = separated(front, seq![mark], next);
        filters_join(grouped, seq![mark], mark);
        filters_join(grouped + seq![mark], back, mark);
        marks_are_dropped(mark);
        assert(front + Seq::<char>::empty() =~= front);
        assert(front + back =~= text);
    }
}

} // verus!
