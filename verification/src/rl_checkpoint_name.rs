//! Rendering of checkpoint names from templates.
use rustpython_literal::escape::{Escape, Quote, UnicodeEscape};
use vstd::prelude::*;

use crate::integer::{decimal_digits, Integer};
use crate::ordered::{value_of, OrderedMap};
use crate::rl_checkpoint_format::{FloatFormat, ScalarModel, TrainingMetricScalar};
use crate::rl_checkpoint_locale::{
    answers, fixed_locales_answer_themselves, format_rl_checkpoint_scalar_with_locale, providers_answer, scalar_localized,
    some_answer, Answer, LocaleFields, RlCheckpointLocaleProvider,
    RlCheckpointNumericLocale,
};
use crate::rl_checkpoint_template::{
    attribute_end, field, field_cut, index_of, integer_index, part, part_cut, skip_attribute, FieldCut,
};
use crate::text::{
    append_chars, code_point, decimal_chars, from_chars, same_text, sub_chars, text_result, to_chars, TextResult,
};
use crate::unicode::{is_printable, printable};

verus! {

/// `char::from_u32`: the character with a code point, which surrogates and values beyond the last
/// code point do not have.
pub assume_specification[ char::from_u32 ](point: u32) -> (result: Option<char>)
    ensures
        match result {
            Some(ch) => ch as u32 == point && !(0xd800 <= point <= 0xdfff) && point <= 0x10ffff,
            None => 0xd800 <= point <= 0xdfff || point > 0x10ffff,
        },
;

/// The quotation marks of a representation.
#[derive(Clone, Copy, Debug, PartialEq, Eq, Structural)]
pub enum QuoteMark {
    Single,
    Double,
}

/// The character of a quotation mark.
pub open spec fn quote_char(quote: QuoteMark) -> char {
    match quote {
        QuoteMark::Single => '\'',
        QuoteMark::Double => '"',
    }
}

/// A hexadecimal digit.
pub open spec fn hex_char(digit: int) -> char {
    if digit < 10 {
        (48 + digit) as char
    } else {
        (87 + digit) as char
    }
}

/// A number in a fixed number of hexadecimal digits.
pub open spec fn hex_text(value: int, width: nat) -> Seq<char>
    decreases width,
{
    if width == 0 {
        Seq::empty()
    } else {
        hex_text(value / 16, (width - 1) as nat).push(hex_char(value % 16))
    }
}

/// An ASCII character inside quotation marks.
pub open spec fn ascii_quoted(ch: char, quote: QuoteMark) -> Seq<char> {
    if ch == '\n' {
        seq!['\\', 'n']
    } else if ch == '\t' {
        seq!['\\', 't']
    } else if ch == '\r' {
        seq!['\\', 'r']
    } else if ' ' <= ch <= '~' {
        if ch == quote_char(quote) || ch == '\\' {
            seq!['\\', ch]
        } else {
            seq![ch]
        }
    } else {
        seq!['\\', 'x'] + hex_text(ch as int, 2)
    }
}

/// `UnicodeEscape::with_forced_quote` and `Escape::write_body` of `rustpython_literal`, for one
/// ASCII character: line feed, tabulator and carriage return by name, other controls in two
/// hexadecimal digits, the quotation mark and the backslash after a backslash, and everything else
/// as it is.
#[verifier::external_body]
fn escape_ascii(ch: char, quote: QuoteMark) -> (result: String)
    requires
        ch as int <= 127,
    ensures
        result@ == ascii_quoted(ch, quote),
{
    let forced = match quote {
        QuoteMark::Single => Quote::Single,
        QuoteMark::Double => Quote::Double,
    };
    let mut output = String::new();
    UnicodeEscape::with_forced_quote(&ch.to_string(), forced).write_body(&mut output).expect("a string can be written");
    output
}

/// What `Debug` shows of a text.
pub uninterp spec fn debug_quoted(text: Seq<char>) -> Seq<char>;

/// `Debug::fmt` of `str`: the text in quotation marks, escaped.
#[verifier::external_body]
fn debug_text(text: &str) -> (result: String)
    ensures
        result@ == debug_quoted(text@),
{
    format!("{text:?}")
}

fn hex_digit(digit: u32) -> (result: char)
    requires
        digit < 16,
    ensures
        result == hex_char(digit as int),
{
    if digit == 0 {
        '0'
    } else if digit == 1 {
        '1'
    } else if digit == 2 {
        '2'
    } else if digit == 3 {
        '3'
    } else if digit == 4 {
        '4'
    } else if digit == 5 {
        '5'
    } else if digit == 6 {
        '6'
    } else if digit == 7 {
        '7'
    } else if digit == 8 {
        '8'
    } else if digit == 9 {
        '9'
    } else if digit == 10 {
        'a'
    } else if digit == 11 {
        'b'
    } else if digit == 12 {
        'c'
    } else if digit == 13 {
        'd'
    } else if digit == 14 {
        'e'
    } else {
        'f'
    }
}

pub fn append_hex(target: &mut Vec<char>, value: u32, width: usize)
    ensures
        final(target)@ == old(target)@ + hex_text(value as int, width as nat),
    decreases width,
{
    if width == 0 {
        assert(target@ =~= old(target)@ + hex_text(value as int, 0));
        return;
    }
    append_hex(target, value / 16, width - 1);
    target.push(hex_digit(value % 16));
    assert(target@ =~= old(target)@ + hex_text(value as int, width as nat));
}

/// A code point beyond ASCII as an escape sequence, as short as it can be.
pub open spec fn escaped_point(point: int) -> Seq<char> {
    if point <= 0xff {
        seq!['\\', 'x'] + hex_text(point, 2)
    } else if point <= 0xffff {
        seq!['\\', 'u'] + hex_text(point, 4)
    } else {
        seq!['\\', 'U'] + hex_text(point, 8)
    }
}

pub fn append_escaped(target: &mut Vec<char>, point: u32)
    ensures
        final(target)@ == old(target)@ + escaped_point(point as int),
{
    target.push('\\');
    if point <= 0xff {
        target.push('x');
        append_hex(target, point, 2);
    } else if point <= 0xffff {
        target.push('u');
        append_hex(target, point, 4);
    } else {
        target.push('U');
        append_hex(target, point, 8);
    }
    assert(target@ =~= old(target)@ + escaped_point(point as int));
}

/// A text with everything beyond ASCII escaped.
pub open spec fn ascii_escaped(text: Seq<char>) -> Seq<char>
    decreases text.len(),
{
    if text.len() == 0 {
        Seq::empty()
    } else {
        ascii_escaped(text.drop_last()) + if text.last() as int <= 127 {
            seq![text.last()]
        } else {
            escaped_point(text.last() as int)
        }
    }
}

/// Escapes everything beyond ASCII and leaves ASCII alone.
pub fn ascii_repr(text: &[char]) -> (result: Vec<char>)
    ensures
        result@ == ascii_escaped(text@),
{
    let mut output: Vec<char> = Vec::new();
    let mut i: usize = 0;
    assert(output@ =~= ascii_escaped(text@.take(0)));
    while i < text.len()
        invariant
            i <= text@.len(),
            output@ == ascii_escaped(text@.take(i as int)),
        decreases text@.len() - i,
    {
        let ch: char = text[i];
        let ghost before = output@;
        assert(text@.take(i + 1).drop_last() =~= text@.take(i as int));
        if ch <= '\u{7f}' {
            output.push(ch);
            assert(output@ =~= before + seq![ch]);
        } else {
            append_escaped(&mut output, code_point(ch));
        }
        i += 1;
    }
    assert(text@.take(i as int) =~= text@);
    output
}

/// Whether a code point has a character.
pub open spec fn is_scalar(point: u32) -> bool {
    point <= 0x10ffff && !(0xd800 <= point <= 0xdfff)
}

/// A code point inside quotation marks: ASCII as in [`ascii_quoted`], a surrogate in four digits,
/// and any other character as it is where it is printable and escaped where it is not.
pub open spec fn point_quoted(point: u32, quote: QuoteMark) -> Seq<char> {
    if !is_scalar(point) {
        seq!['\\', 'u'] + hex_text(point as int, 4)
    } else if point <= 127 {
        ascii_quoted(point as char, quote)
    } else if printable(point as char) {
        seq![point as char]
    } else {
        escaped_point(point as int)
    }
}

/// Code points inside quotation marks, without the marks.
pub open spec fn points_quoted(points: Seq<u32>, quote: QuoteMark) -> Seq<char>
    decreases points.len(),
{
    if points.len() == 0 {
        Seq::empty()
    } else {
        points_quoted(points.drop_last(), quote) + point_quoted(points.last(), quote)
    }
}

/// The quotation marks of a text: double ones only around single ones, where it holds no double
/// ones.
pub open spec fn quote_of(points: Seq<u32>) -> QuoteMark {
    if points.contains(39) && !points.contains(34) {
        QuoteMark::Double
    } else {
        QuoteMark::Single
    }
}

/// The representation of a text.
pub open spec fn represented(points: Seq<u32>) -> Seq<char> {
    let quote = quote_of(points);
    seq![quote_char(quote)] + points_quoted(points, quote) + seq![quote_char(quote)]
}

fn has_point(points: &[u32], point: u32) -> (result: bool)
    ensures
        result == points@.contains(point),
{
    let mut i: usize = 0;
    while i < points.len()
        invariant
            i <= points@.len(),
            forall|j: int| 0 <= j < i ==> points@[j] != point,
        decreases points@.len() - i,
    {
        if points[i] == point {
            assert(points@[i as int] == point);
            return true;
        }
        i += 1;
    }
    false
}

/// The representation of code points, among which surrogates may occur.
pub fn python_code_points_repr(points: &[u32]) -> (result: Vec<char>)
    ensures
        result@ == represented(points@),
{
    let quote = if has_point(points, 39) && !has_point(points, 34) {
        QuoteMark::Double
    } else {
        QuoteMark::Single
    };
    let mark: char = match quote {
        QuoteMark::Single => '\'',
        QuoteMark::Double => '"',
    };
    let mut output: Vec<char> = Vec::new();
    output.push(mark);
    let mut i: usize = 0;
    assert(output@ =~= seq![mark] + points_quoted(points@.take(0), quote));
    while i < points.len()
        invariant
            i <= points@.len(),
            quote == quote_of(points@),
            mark == quote_char(quote),
            output@ == seq![mark] + points_quoted(points@.take(i as int), quote),
        decreases points@.len() - i,
    {
        let point: u32 = points[i];
        let ghost before = output@;
        assert(points@.take(i + 1).drop_last() =~= points@.take(i as int));
        match char::from_u32(point) {
            None => {
                output.push('\\');
                output.push('u');
                append_hex(&mut output, point, 4);
                assert(output@ =~= before + (seq!['\\', 'u'] + hex_text(point as int, 4)));
            },
            Some(ch) => {
                proof {
                    vstd::utf8::char_is_scalar(ch);
                    vstd::utf8::char_u32_cast(ch, point);
                }
                if ch <= '\u{7f}' {
                    let escaped = escape_ascii(ch, quote);
                    append_chars(&mut output, to_chars(escaped.as_str()).as_slice());
                } else if is_printable(ch) {
                    output.push(ch);
                    assert(output@ =~= before + seq![ch]);
                } else {
                    append_escaped(&mut output, point);
                }
            },
        }
        assert(output@ =~= before + point_quoted(point, quote));
        assert(output@ =~= seq![mark] + points_quoted(points@.take(i + 1), quote));
        i += 1;
    }
    assert(points@.take(i as int) =~= points@);
    output.push(mark);
    assert(output@ =~= represented(points@));
    output
}

/// The code points of a text.
pub open spec fn points_of(text: Seq<char>) -> Seq<u32> {
    text.map_values(|ch: char| ch as u32)
}

/// The code points of characters.
pub fn to_points(text: &[char]) -> (result: Vec<u32>)
    ensures
        result@ == points_of(text@),
{
    let mut points: Vec<u32> = Vec::new();
    let mut i: usize = 0;
    while i < text.len()
        invariant
            i <= text@.len(),
            points@ == points_of(text@.take(i as int)),
        decreases text@.len() - i,
    {
        let ch: char = text[i];
        points.push(code_point(ch));
        i += 1;
        assert(points@ =~= points_of(text@.take(i as int)));
    }
    assert(text@.take(i as int) =~= text@);
    points
}

/// The representation of a text.
pub fn python_string_repr(text: &str) -> (result: String)
    ensures
        result@ == represented(points_of(text@)),
{
    let chars = to_chars(text);
    let points = to_points(chars.as_slice());
    let shown = python_code_points_repr(points.as_slice());
    from_chars(shown.as_slice())
}


/// A subscript: a decimal integer, or any other text.
pub enum FieldKey {
    Integer(int),
    Key(Seq<char>),
}

/// A subscript: a decimal integer, or any other text.
#[derive(Debug, PartialEq, Eq)]
pub enum RlCheckpointFieldIndex {
    Integer(usize),
    Key(String),
}

impl View for RlCheckpointFieldIndex {
    type V = FieldKey;

    open spec fn view(&self) -> FieldKey {
        match self {
            RlCheckpointFieldIndex::Integer(index) => FieldKey::Integer(*index as int),
            RlCheckpointFieldIndex::Key(text) => FieldKey::Key(text@),
        }
    }
}

/// What a provider answers at the fields of a template, by the places of their opening braces.
pub type FieldAnswers = spec_fn(int) -> Answer;

/// Whether the answers at all fields can come from a provider.
pub open spec fn all_answer<P: RlCheckpointLocaleProvider>(provider: P, given: FieldAnswers) -> bool {
    forall|place: int| answers(provider, #[trigger] given(place))
}

/// One answer at all fields.
pub open spec fn always(answer: Answer) -> FieldAnswers {
    |place: int| answer
}

/// A value inside a template, by its contents: one of a model, or a plain one.
pub enum NameModel<T, F> {
    Metric(T),
    Scalar(ScalarModel<F>),
}

/// A value inside a template: one of a model, or a plain one.
pub enum NameValue<M, F> {
    Metric(M),
    Scalar(TrainingMetricScalar<F>),
}

/// The contents of a value inside a template.
pub open spec fn name_model<M: RlCheckpointFormatValue<F>, F: FloatFormat>(value: NameValue<M, F>) -> NameModel<
    M::Model,
    F,
> {
    match value {
        NameValue::Metric(metric) => NameModel::Metric(metric.model()),
        NameValue::Scalar(scalar) => NameModel::Scalar(scalar@),
    }
}

/// The outcome of a lookup, by its contents.
pub open spec fn lookup_model<M: RlCheckpointFormatValue<F>, F: FloatFormat>(
    result: Result<NameValue<M, F>, String>,
) -> Result<NameModel<M::Model, F>, Seq<char>> {
    match result {
        Ok(value) => Ok(name_model(value)),
        Err(error) => Err(error@),
    }
}

/// What a model's values do inside a template.
pub trait RlCheckpointFormatValue<F: FloatFormat>: Sized {
    /// The contents of a value.
    type Model;

    open spec fn model(&self) -> Self::Model {
        arbitrary()
    }

    open spec fn format_of(model: Self::Model, spec: Seq<char>, answer: Answer) -> TextResult {
        arbitrary()
    }

    open spec fn text_of(model: Self::Model, repr: bool) -> TextResult {
        arbitrary()
    }

    open spec fn attribute_of(model: Self::Model, name: Seq<char>) -> Result<NameModel<Self::Model, F>, Seq<char>> {
        arbitrary()
    }

    open spec fn item_of(model: Self::Model, key: FieldKey) -> Result<NameModel<Self::Model, F>, Seq<char>> {
        arbitrary()
    }

    /// Formats the value; the locale provider is asked where the specification needs it.
    fn format_with_locale<P: RlCheckpointLocaleProvider>(&self, spec: &str, locale: &P) -> (result: Result<
        String,
        String,
    >)
        ensures
            exists|answer: Answer| #[trigger]
                answers(*locale, answer) && text_result(result) == Self::format_of(self.model(), spec@, answer),
    ;

    /// The plain text of the value, or its representation.
    fn representation(&self, repr: bool) -> (result: Result<String, String>)
        ensures
            text_result(result) == Self::text_of(self.model(), repr),
    ;

    fn attribute(&self, name: &str) -> (result: Result<NameValue<Self, F>, String>)
        ensures
            match result {
                Ok(NameValue::Metric(metric)) => Self::attribute_of(self.model(), name@) == Ok::<
                    NameModel<Self::Model, F>,
                    Seq<char>,
                >(NameModel::Metric(metric.model())),
                Ok(NameValue::Scalar(scalar)) => Self::attribute_of(self.model(), name@) == Ok::<
                    NameModel<Self::Model, F>,
                    Seq<char>,
                >(NameModel::Scalar(scalar@)),
                Err(error) => Self::attribute_of(self.model(), name@) == Err::<NameModel<Self::Model, F>, Seq<char>>(error@),
            },
    ;

    fn item(&self, key: RlCheckpointFieldIndex) -> (result: Result<NameValue<Self, F>, String>)
        ensures
            match result {
                Ok(NameValue::Metric(metric)) => Self::item_of(self.model(), key@) == Ok::<
                    NameModel<Self::Model, F>,
                    Seq<char>,
                >(NameModel::Metric(metric.model())),
                Ok(NameValue::Scalar(scalar)) => Self::item_of(self.model(), key@) == Ok::<
                    NameModel<Self::Model, F>,
                    Seq<char>,
                >(NameModel::Scalar(scalar@)),
                Err(error) => Self::item_of(self.model(), key@) == Err::<NameModel<Self::Model, F>, Seq<char>>(error@),
            },
    ;
}

/// The attribute of a plain value.
pub open spec fn scalar_attribute<F: FloatFormat>(value: ScalarModel<F>, name: Seq<char>) -> Result<
    ScalarModel<F>,
    Seq<char>,
> {
    let whole = value is Integer || value is Boolean;
    if name == "real"@ && (value is Integer || value is Float) || name == "numerator"@ && value is Integer {
        Ok(value)
    } else if name == "imag"@ && whole {
        Ok(ScalarModel::Integer(0))
    } else if name == "imag"@ && value is Float {
        Ok(ScalarModel::Float(F::zero_spec()))
    } else if name == "denominator"@ && whole {
        Ok(ScalarModel::Integer(1))
    } else if (name == "real"@ || name == "numerator"@) && value is Boolean {
        Ok(
            ScalarModel::Integer(
                if value->Boolean_0 {
                    1
                } else {
                    0
                },
            ),
        )
    } else {
        Err("unsupported checkpoint attribute "@ + name)
    }
}

/// What `Debug` shows of a subscript.
pub open spec fn key_text(key: FieldKey) -> Seq<char> {
    match key {
        FieldKey::Integer(index) => "Integer("@ + decimal_digits(index as nat) + ")"@,
        FieldKey::Key(text) => "Key("@ + debug_quoted(text) + ")"@,
    }
}

/// The item of a plain value: a character of a text.
pub open spec fn scalar_item<F: FloatFormat>(value: ScalarModel<F>, key: FieldKey) -> Result<ScalarModel<F>, Seq<char>> {
    match (value, key) {
        (ScalarModel::Text(text), FieldKey::Integer(index)) => if index < text.len() {
            Ok(ScalarModel::Text(seq![text[index]]))
        } else {
            Err("checkpoint string index out of range"@)
        },
        _ => Err("unsupported checkpoint item "@ + key_text(key)),
    }
}

/// The plain text of a plain value, or its representation.
pub open spec fn scalar_text<F: FloatFormat>(value: ScalarModel<F>, repr: bool) -> TextResult {
    match value {
        ScalarModel::Text(text) => Ok(
            if repr {
                represented(points_of(text))
            } else {
                text
            },
        ),
        _ => crate::rl_checkpoint_format::scalar_formatted(value, Seq::empty()),
    }
}

/// A plain value as the outcome of a lookup.
pub open spec fn plain_value<F: FloatFormat, T>(result: Result<ScalarModel<F>, Seq<char>>) -> Result<
    NameModel<T, F>,
    Seq<char>,
> {
    match result {
        Ok(value) => Ok(NameModel::Scalar(value)),
        Err(error) => Err(error),
    }
}

/// A text made of a fixed start and a variable end.
pub(crate) fn join(start: &str, end: &str) -> (result: String)
    ensures
        result@ == start@ + end@,
{
    let mut output = to_chars(start);
    append_chars(&mut output, to_chars(end).as_slice());
    from_chars(output.as_slice())
}

fn shown_key(key: &RlCheckpointFieldIndex) -> (result: String)
    ensures
        result@ == key_text(key@),
{
    let (start, middle) = match key {
        RlCheckpointFieldIndex::Integer(index) => ("Integer(", from_chars(decimal_chars(*index).as_slice())),
        RlCheckpointFieldIndex::Key(text) => ("Key(", debug_text(text.as_str())),
    };
    let head = join(start, middle.as_str());
    join(head.as_str(), ")")
}

impl<F: FloatFormat> TrainingMetricScalar<F> {
    /// The same value.
    pub fn copied(&self) -> (result: Self)
        ensures
            result@ == self@,
    {
        match self {
            TrainingMetricScalar::Integer(number) => TrainingMetricScalar::Integer(number.copied()),
            TrainingMetricScalar::Float(number) => TrainingMetricScalar::Float(*number),
            TrainingMetricScalar::Text(text) => TrainingMetricScalar::Text(text.clone()),
            TrainingMetricScalar::Boolean(flag) => TrainingMetricScalar::Boolean(*flag),
            TrainingMetricScalar::Null => TrainingMetricScalar::Null,
            TrainingMetricScalar::Custom => TrainingMetricScalar::Custom,
        }
    }

    /// An attribute of the value.
    pub fn plain_attribute(&self, name: &str) -> (result: Result<TrainingMetricScalar<F>, String>)
        ensures
            match result {
                Ok(value) => scalar_attribute(self@, name@) == Ok::<ScalarModel<F>, Seq<char>>(value@),
                Err(error) => scalar_attribute(self@, name@) == Err::<ScalarModel<F>, Seq<char>>(error@),
            },
    {
        let real_part = same_text(name, "real");
        let imag = same_text(name, "imag");
        let numerator = same_text(name, "numerator");
        let denominator = same_text(name, "denominator");
        proof {
            reveal_strlit("real");
            reveal_strlit("imag");
            reveal_strlit("numerator");
            reveal_strlit("denominator");
            assert("real"@[0] != "imag"@[0]);
            assert("real"@.len() != "numerator"@.len() && "real"@.len() != "denominator"@.len());
            assert("numerator"@.len() != "denominator"@.len());
        }
        match self {
            TrainingMetricScalar::Integer(_) => if real_part || numerator {
                return Ok(self.copied());
            } else if imag {
                return Ok(TrainingMetricScalar::Integer(Integer::zero()));
            } else if denominator {
                return Ok(TrainingMetricScalar::Integer(Integer::from_usize(1)));
            },
            TrainingMetricScalar::Float(_) => if real_part {
                return Ok(self.copied());
            } else if imag {
                return Ok(TrainingMetricScalar::Float(F::zero()));
            },
            TrainingMetricScalar::Boolean(flag) => if imag {
                return Ok(TrainingMetricScalar::Integer(Integer::zero()));
            } else if denominator {
                return Ok(TrainingMetricScalar::Integer(Integer::from_usize(1)));
            } else if real_part || numerator {
                let number: usize = if *flag {
                    1
                } else {
                    0
                };
                return Ok(TrainingMetricScalar::Integer(Integer::from_usize(number)));
            },
            _ => {},
        }
        Err(join("unsupported checkpoint attribute ", name))
    }

    /// An item of the value.
    pub fn plain_item(&self, key: RlCheckpointFieldIndex) -> (result: Result<TrainingMetricScalar<F>, String>)
        ensures
            match result {
                Ok(value) => scalar_item(self@, key@) == Ok::<ScalarModel<F>, Seq<char>>(value@),
                Err(error) => scalar_item(self@, key@) == Err::<ScalarModel<F>, Seq<char>>(error@),
            },
    {
        match (self, &key) {
            (TrainingMetricScalar::Text(text), RlCheckpointFieldIndex::Integer(index)) => {
                let chars = to_chars(text.as_str());
                if *index < chars.len() {
                    let item = sub_chars(chars.as_slice(), *index, *index + 1);
                    assert(item@ =~= seq![text@[*index as int]]);
                    return Ok(TrainingMetricScalar::Text(from_chars(item.as_slice())));
                }
                return Err("checkpoint string index out of range".to_owned());
            },
            _ => {},
        }
        let shown = shown_key(&key);
        Err(join("unsupported checkpoint item ", shown.as_str()))
    }

    /// The plain text of the value, or its representation.
    pub fn plain_text(&self, repr: bool) -> (result: Result<String, String>)
        ensures
            text_result(result) == scalar_text(self@, repr),
    {
        match self {
            TrainingMetricScalar::Text(text) => if repr {
                Ok(python_string_repr(text.as_str()))
            } else {
                Ok(text.clone())
            },
            _ => {
                proof {
                    reveal_strlit("");
                    assert(""@ =~= Seq::<char>::empty());
                }
                crate::rl_checkpoint_format::format_rl_checkpoint_scalar(self, "")
            },
        }
    }
}

impl<F: FloatFormat> RlCheckpointFormatValue<F> for TrainingMetricScalar<F> {
    type Model = ScalarModel<F>;

    open spec fn model(&self) -> ScalarModel<F> {
        self@
    }

    open spec fn format_of(model: ScalarModel<F>, spec: Seq<char>, answer: Answer) -> TextResult {
        scalar_localized(model, spec, answer)
    }

    open spec fn text_of(model: ScalarModel<F>, repr: bool) -> TextResult {
        scalar_text(model, repr)
    }

    open spec fn attribute_of(model: ScalarModel<F>, name: Seq<char>) -> Result<
        NameModel<ScalarModel<F>, F>,
        Seq<char>,
    > {
        plain_value(scalar_attribute(model, name))
    }

    open spec fn item_of(model: ScalarModel<F>, key: FieldKey) -> Result<NameModel<ScalarModel<F>, F>, Seq<char>> {
        plain_value(scalar_item(model, key))
    }

    fn format_with_locale<P: RlCheckpointLocaleProvider>(&self, spec: &str, locale: &P) -> (result: Result<
        String,
        String,
    >) {
        format_rl_checkpoint_scalar_with_locale(self, spec, locale)
    }

    fn representation(&self, repr: bool) -> (result: Result<String, String>) {
        self.plain_text(repr)
    }

    fn attribute(&self, name: &str) -> (result: Result<NameValue<Self, F>, String>) {
        match self.plain_attribute(name) {
            Ok(value) => Ok(NameValue::Scalar(value)),
            Err(error) => Err(error),
        }
    }

    fn item(&self, key: RlCheckpointFieldIndex) -> (result: Result<NameValue<Self, F>, String>) {
        match self.plain_item(key) {
            Ok(value) => Ok(NameValue::Scalar(value)),
            Err(error) => Err(error),
        }
    }
}


/// What a value formats to.
pub open spec fn value_format<M: RlCheckpointFormatValue<F>, F: FloatFormat>(
    value: NameModel<M::Model, F>,
    spec: Seq<char>,
    answer: Answer,
) -> TextResult {
    match value {
        NameModel::Metric(model) => M::format_of(model, spec, answer),
        NameModel::Scalar(scalar) => scalar_localized(scalar, spec, answer),
    }
}

/// The plain text of a value, or its representation.
pub open spec fn value_text<M: RlCheckpointFormatValue<F>, F: FloatFormat>(
    value: NameModel<M::Model, F>,
    repr: bool,
) -> TextResult {
    match value {
        NameModel::Metric(model) => M::text_of(model, repr),
        NameModel::Scalar(scalar) => scalar_text(scalar, repr),
    }
}

/// The subscript that a text stands for.
pub open spec fn key_of(text: Seq<char>) -> Result<FieldKey, Seq<char>> {
    match index_of(text) {
        Err(error) => Err(error),
        Ok(Some(index)) => Ok(FieldKey::Integer(index)),
        Ok(None) => Ok(FieldKey::Key(text)),
    }
}

/// One access to a value.
pub open spec fn value_access<M: RlCheckpointFormatValue<F>, F: FloatFormat>(
    value: NameModel<M::Model, F>,
    attribute: bool,
    name: Seq<char>,
) -> Result<NameModel<M::Model, F>, Seq<char>> {
    if attribute {
        match value {
            NameModel::Metric(model) => M::attribute_of(model, name),
            NameModel::Scalar(scalar) => plain_value(scalar_attribute(scalar, name)),
        }
    } else {
        match key_of(name) {
            Err(error) => Err(error),
            Ok(key) => match value {
                NameModel::Metric(model) => M::item_of(model, key),
                NameModel::Scalar(scalar) => plain_value(scalar_item(scalar, key)),
            },
        }
    }
}

/// The value at the end of a path, access by access.
pub open spec fn path_value<M: RlCheckpointFormatValue<F>, F: FloatFormat>(
    value: NameModel<M::Model, F>,
    path: Seq<char>,
    at: int,
) -> Result<NameModel<M::Model, F>, Seq<char>>
    decreases path.len() - at,
{
    if at < 0 || at >= path.len() {
        Ok(value)
    } else {
        match part_cut(path, at) {
            Err(error) => Err(error),
            Ok(cut) => match value_access::<M, F>(value, cut.attribute, path.subrange(cut.start, cut.end)) {
                Err(error) => Err(error),
                Ok(next) => if cut.next <= at || cut.next > path.len() {
                    Ok(next)
                } else {
                    path_value::<M, F>(next, path, cut.next)
                },
            },
        }
    }
}

/// What a template can refer to.
pub struct KeywordModel<T> {
    pub iteration: int,
    pub time: Seq<char>,
    pub metrics: Seq<(Seq<char>, T)>,
}

/// The value of a keyword.
pub open spec fn keyword_value<M: RlCheckpointFormatValue<F>, F: FloatFormat>(
    keywords: KeywordModel<M>,
    name: Seq<char>,
) -> Result<NameModel<M::Model, F>, Seq<char>> {
    if name == "iter"@ {
        Ok(NameModel::Scalar(ScalarModel::Integer(keywords.iteration)))
    } else if name == "time"@ {
        Ok(NameModel::Scalar(ScalarModel::Text(keywords.time)))
    } else {
        match value_of(keywords.metrics, name) {
            Some(metric) => Ok(NameModel::Metric(metric.model())),
            None => Err("missing checkpoint keyword "@ + name),
        }
    }
}

/// The value that a field's name refers to.
pub open spec fn resolved<M: RlCheckpointFormatValue<F>, F: FloatFormat>(
    keywords: KeywordModel<M>,
    name: Seq<char>,
) -> Result<NameModel<M::Model, F>, Seq<char>> {
    let end = attribute_end(name, 0);
    let first = name.take(end);
    let positional: Result<NameModel<M::Model, F>, Seq<char>> = Err(
        "checkpoint format has no positional arguments"@,
    );
    if first.len() == 0 {
        positional
    } else {
        match index_of(first) {
            Err(error) => Err(error),
            Ok(Some(_)) => positional,
            Ok(None) => match keyword_value::<M, F>(keywords, first) {
                Err(error) => Err(error),
                Ok(value) => path_value::<M, F>(value, name, end),
            },
        }
    }
}

/// A value after the conversion of its field.
pub open spec fn converted<M: RlCheckpointFormatValue<F>, F: FloatFormat>(
    value: NameModel<M::Model, F>,
    conversion: Option<char>,
) -> Result<NameModel<M::Model, F>, Seq<char>> {
    match conversion {
        None => Ok(value),
        Some(ch) => if ch == '\0' {
            Ok(value)
        } else if ch == 's' || ch == 'r' || ch == 'a' {
            match value_text::<M, F>(value, ch != 's') {
                Err(error) => Err(error),
                Ok(text) => Ok(
                    NameModel::Scalar(
                        ScalarModel::Text(
                            if ch == 'a' {
                                ascii_escaped(text)
                            } else {
                                text
                            },
                        ),
                    ),
                ),
            }
        } else {
            Err("unknown checkpoint conversion "@.push(ch))
        },
    }
}

/// Puts a text before a rendering.
pub open spec fn before_text(text: Seq<char>, rest: TextResult) -> TextResult {
    match rest {
        Ok(tail) => Ok(text + tail),
        Err(error) => Err(error),
    }
}

/// What a field renders to, given what its specification renders to.
pub open spec fn field_rendered<M: RlCheckpointFormatValue<F>, F: FloatFormat>(
    keywords: KeywordModel<M>,
    name: Seq<char>,
    conversion: Option<char>,
    spec: TextResult,
    answer: Answer,
) -> TextResult {
    match resolved::<M, F>(keywords, name) {
        Err(error) => Err(error),
        Ok(value) => match converted::<M, F>(value, conversion) {
            Err(error) => Err(error),
            Ok(shown) => match spec {
                Err(error) => Err(error),
                Ok(layout) => value_format::<M, F>(shown, layout, answer),
            },
        },
    }
}

/// What a template renders to from a position on. Doubled braces stand for themselves; a
/// specification may hold fields of its own, one level deep. The template itself begins at a place of
/// the whole text, by which the answers are found.
pub open spec fn rendered_from<M: RlCheckpointFormatValue<F>, F: FloatFormat>(
    keywords: KeywordModel<M>,
    template: Seq<char>,
    at: int,
    depth: nat,
    place: int,
    given: FieldAnswers,
) -> TextResult
    decreases depth, template.len() - at,
{
    if depth == 0 {
        Err("checkpoint format recursion exceeded"@)
    } else if at < 0 || at >= template.len() {
        Ok(Seq::empty())
    } else if template[at] != '{' && template[at] != '}' {
        before_text(seq![template[at]], rendered_from::<M, F>(keywords, template, at + 1, depth, place, given))
    } else if at + 1 < template.len() && template[at + 1] == template[at] {
        before_text(seq![template[at]], rendered_from::<M, F>(keywords, template, at + 2, depth, place, given))
    } else if template[at] == '}' {
        Err("single '}' in checkpoint format"@)
    } else {
        match field_cut(template, at + 1) {
            Err(error) => Err(error),
            Ok(cut) => {
                let layout = template.subrange(cut.spec_start, cut.spec_end);
                let spec = if layout.contains('{') {
                    rendered_from::<M, F>(keywords, layout, 0, (depth - 1) as nat, place + cut.spec_start, given)
                } else {
                    Ok(layout)
                };
                let name = template.subrange(at + 1, cut.name_end);
                match field_rendered::<M, F>(keywords, name, cut.conversion, spec, given(place + at)) {
                    Err(error) => Err(error),
                    Ok(text) => if cut.next <= at || cut.next > template.len() {
                        Ok(text)
                    } else {
                        before_text(text, rendered_from::<M, F>(keywords, template, cut.next, depth, place, given))
                    },
                }
            },
        }
    }
}

/// What a template can refer to.
pub struct Keywords<'a, M> {
    pub iteration: &'a Integer,
    pub time: &'a str,
    pub metrics: &'a OrderedMap<M>,
}

impl<'a, M> View for Keywords<'a, M> {
    type V = KeywordModel<M>;

    open spec fn view(&self) -> KeywordModel<M> {
        KeywordModel { iteration: self.iteration@, time: self.time@, metrics: self.metrics@ }
    }
}

enum Held<'a, M, F> {
    Borrowed(&'a M),
    Owned(NameValue<M, F>),
}

spec fn held_model<M: RlCheckpointFormatValue<F>, F: FloatFormat>(held: Held<M, F>) -> NameModel<M::Model, F> {
    match held {
        Held::Borrowed(metric) => NameModel::Metric(metric.model()),
        Held::Owned(value) => name_model(value),
    }
}

fn access<'a, M: RlCheckpointFormatValue<F>, F: FloatFormat>(held: &Held<'a, M, F>, attribute: bool, name: &[char]) -> (result: Result<
    NameValue<M, F>,
    String,
>)
    ensures
        lookup_model(result) == value_access::<M, F>(held_model(*held), attribute, name@),
{
    if attribute {
        let text = from_chars(name);
        match held {
            Held::Borrowed(metric) => metric.attribute(text.as_str()),
            Held::Owned(NameValue::Metric(metric)) => metric.attribute(text.as_str()),
            Held::Owned(NameValue::Scalar(scalar)) => match scalar.plain_attribute(text.as_str()) {
                Ok(value) => Ok(NameValue::Scalar(value)),
                Err(error) => Err(error),
            },
        }
    } else {
        let key = match integer_index(name) {
            Err(error) => return Err(error),
            Ok(Some(index)) => RlCheckpointFieldIndex::Integer(index),
            Ok(None) => RlCheckpointFieldIndex::Key(from_chars(name)),
        };
        match held {
            Held::Borrowed(metric) => metric.item(key),
            Held::Owned(NameValue::Metric(metric)) => metric.item(key),
            Held::Owned(NameValue::Scalar(scalar)) => match scalar.plain_item(key) {
                Ok(value) => Ok(NameValue::Scalar(value)),
                Err(error) => Err(error),
            },
        }
    }
}

fn represent<'a, M: RlCheckpointFormatValue<F>, F: FloatFormat>(held: &Held<'a, M, F>, repr: bool) -> (result: Result<
    String,
    String,
>)
    ensures
        text_result(result) == value_text::<M, F>(held_model(*held), repr),
{
    match held {
        Held::Borrowed(metric) => metric.representation(repr),
        Held::Owned(NameValue::Metric(metric)) => metric.representation(repr),
        Held::Owned(NameValue::Scalar(scalar)) => scalar.plain_text(repr),
    }
}

fn format_held<'a, M: RlCheckpointFormatValue<F>, F: FloatFormat, P: RlCheckpointLocaleProvider>(
    held: &Held<'a, M, F>,
    spec: &[char],
    locale: &P,
) -> (result: Result<String, String>)
    ensures
        exists|answer: Answer| #[trigger]
            answers(*locale, answer) && text_result(result) == value_format::<M, F>(held_model(*held), spec@, answer),
{
    let layout = from_chars(spec);
    match held {
        Held::Borrowed(metric) => metric.format_with_locale(layout.as_str(), locale),
        Held::Owned(NameValue::Metric(metric)) => metric.format_with_locale(layout.as_str(), locale),
        Held::Owned(NameValue::Scalar(scalar)) => format_rl_checkpoint_scalar_with_locale(
            scalar,
            layout.as_str(),
            locale,
        ),
    }
}

fn resolve<'a, M: RlCheckpointFormatValue<F>, F: FloatFormat>(keywords: &Keywords<'a, M>, name: &[char]) -> (result: Result<
    Held<'a, M, F>,
    String,
>)
    ensures
        match result {
            Ok(held) => resolved::<M, F>(keywords@, name@) == Ok::<NameModel<M::Model, F>, Seq<char>>(held_model(held)),
            Err(error) => resolved::<M, F>(keywords@, name@) == Err::<NameModel<M::Model, F>, Seq<char>>(error@),
        },
{
    let end: usize = skip_attribute(name, 0);
    let first = sub_chars(name, 0, end);
    assert(first@ =~= name@.take(end as int));
    if first.len() == 0 {
        return Err("checkpoint format has no positional arguments".to_owned());
    }
    match integer_index(first.as_slice()) {
        Err(error) => return Err(error),
        Ok(Some(_)) => return Err("checkpoint format has no positional arguments".to_owned()),
        Ok(None) => {},
    }
    let keyword = from_chars(first.as_slice());
    let mut held: Held<'a, M, F> = if same_text(keyword.as_str(), "iter") {
        Held::Owned(NameValue::Scalar(TrainingMetricScalar::Integer(keywords.iteration.copied())))
    } else if same_text(keyword.as_str(), "time") {
        Held::Owned(NameValue::Scalar(TrainingMetricScalar::Text(keywords.time.to_owned())))
    } else {
        match keywords.metrics.get(keyword.as_str()) {
            Some(metric) => Held::Borrowed(metric),
            None => return Err(join("missing checkpoint keyword ", keyword.as_str())),
        }
    };
    let mut at: usize = end;
    while at < name.len()
        invariant
            at <= name@.len(),
            resolved::<M, F>(keywords@, name@) == path_value::<M, F>(held_model(held), name@, at as int),
        decreases name@.len() - at,
    {
        let found = match part(name, at) {
            Ok(found) => found,
            Err(error) => return Err(error),
        };
        let key = sub_chars(name, found.start, found.end);
        let next = match access(&held, found.attribute, key.as_slice()) {
            Ok(next) => next,
            Err(error) => return Err(error),
        };
        held = Held::Owned(next);
        at = found.next;
    }
    Ok(held)
}

fn convert<'a, M: RlCheckpointFormatValue<F>, F: FloatFormat>(held: Held<'a, M, F>, conversion: Option<char>) -> (result: Result<
    Held<'a, M, F>,
    String,
>)
    ensures
        match result {
            Ok(shown) => converted::<M, F>(held_model(held), conversion) == Ok::<NameModel<M::Model, F>, Seq<char>>(
                held_model(shown),
            ),
            Err(error) => converted::<M, F>(held_model(held), conversion) == Err::<NameModel<M::Model, F>, Seq<char>>(
                error@,
            ),
        },
{
    let ch: char = match conversion {
        None => return Ok(held),
        Some(ch) => ch,
    };
    if ch == '\0' {
        return Ok(held);
    }
    if ch != 's' && ch != 'r' && ch != 'a' {
        let mut message = to_chars("unknown checkpoint conversion ");
        message.push(ch);
        return Err(from_chars(message.as_slice()));
    }
    let text = match represent(&held, ch != 's') {
        Ok(text) => text,
        Err(error) => return Err(error),
    };
    let shown = if ch == 'a' {
        let chars = to_chars(text.as_str());
        from_chars(ascii_repr(chars.as_slice()).as_slice())
    } else {
        text
    };
    Ok(Held::Owned(NameValue::Scalar(TrainingMetricScalar::Text(shown))))
}

fn holds_brace(text: &[char]) -> (result: bool)
    ensures
        result == text@.contains('{'),
{
    let mut i: usize = 0;
    while i < text.len()
        invariant
            i <= text@.len(),
            forall|j: int| 0 <= j < i ==> text@[j] != '{',
        decreases text@.len() - i,
    {
        if text[i] == '{' {
            assert(text@[i as int] == '{');
            return true;
        }
        i += 1;
    }
    false
}

/// Whether two choices of answers agree between two places.
pub open spec fn agree(a: FieldAnswers, b: FieldAnswers, from: int, to: int) -> bool {
    forall|place: int| from <= place < to ==> #[trigger] a(place) == b(place)
}

/// Answers with others between two places.
pub open spec fn spliced(known: FieldAnswers, inner: FieldAnswers, from: int, to: int) -> FieldAnswers {
    |place: int|
        if from <= place < to {
            inner(place)
        } else {
            known(place)
        }
}

pub(crate) proof fn spliced_answers<P: RlCheckpointLocaleProvider>(
    provider: P,
    known: FieldAnswers,
    inner: FieldAnswers,
    from: int,
    to: int,
)
    requires
        all_answer(provider, known),
        all_answer(provider, inner),
    ensures
        all_answer(provider, spliced(known, inner, from, to)),
{
    let both = spliced(known, inner, from, to);
    assert forall|place: int| answers(provider, #[trigger] both(place)) by {
        assert(answers(provider, inner(place)) && answers(provider, known(place)));
    }
}

pub(crate) proof fn always_answers<P: RlCheckpointLocaleProvider>(provider: P, answer: Answer)
    requires
        answers(provider, answer),
    ensures
        all_answer(provider, always(answer)),
{
}

pub(crate) proof fn agreement_narrows(given: FieldAnswers, known: FieldAnswers, inner: FieldAnswers, from: int, to: int, end: int)
    requires
        agree(given, spliced(known, inner, from, end), from, to),
        to <= end,
    ensures
        agree(given, inner, from, to),
{
    let both = spliced(known, inner, from, end);
    assert forall|place: int| from <= place < to implies #[trigger] given(place) == inner(place) by {
        assert(given(place) == both(place));
    }
}

/// The outcome of a rendering, by its characters.
spec fn chars_result(result: Result<Vec<char>, String>) -> TextResult {
    match result {
        Ok(text) => Ok(text@),
        Err(error) => Err(error@),
    }
}

/// Whether a template renders to a result under all answers that agree with the known ones at its own
/// places.
#[verifier::opaque]
spec fn renders<M: RlCheckpointFormatValue<F>, F: FloatFormat>(
    keywords: KeywordModel<M>,
    template: Seq<char>,
    depth: nat,
    place: int,
    known: FieldAnswers,
    result: TextResult,
) -> bool {
    forall|given: FieldAnswers|
        agree(given, known, place, place + template.len()) ==> #[trigger] rendered_from::<M, F>(
            keywords,
            template,
            0,
            depth,
            place,
            given,
        ) == result
}

/// Whether a template renders to an output and what follows from a position on, under all answers
/// that agree with the known ones before it.
#[verifier::opaque]
spec fn renders_up_to<M: RlCheckpointFormatValue<F>, F: FloatFormat>(
    keywords: KeywordModel<M>,
    template: Seq<char>,
    at: int,
    depth: nat,
    place: int,
    known: FieldAnswers,
    output: Seq<char>,
) -> bool {
    forall|given: FieldAnswers|
        agree(given, known, place, place + at) ==> #[trigger] rendered_from::<M, F>(
            keywords,
            template,
            0,
            depth,
            place,
            given,
        ) == before_text(output, rendered_from::<M, F>(keywords, template, at, depth, place, given))
}

/// Whether a field at a position renders to a text and leads to the next position, or fails, under
/// all answers that agree with the known ones at its own places.
#[verifier::opaque]
spec fn field_renders<M: RlCheckpointFormatValue<F>, F: FloatFormat>(
    keywords: KeywordModel<M>,
    template: Seq<char>,
    at: int,
    depth: nat,
    place: int,
    known: FieldAnswers,
    result: Result<(Seq<char>, int), Seq<char>>,
) -> bool {
    match result {
        Ok((text, next)) => forall|given: FieldAnswers|
            agree(given, known, place + at, place + next) ==> #[trigger] rendered_from::<M, F>(
                keywords,
                template,
                at,
                depth,
                place,
                given,
            ) == before_text(text, rendered_from::<M, F>(keywords, template, next, depth, place, given)),
        Err(error) => forall|given: FieldAnswers|
            agree(given, known, place + at, place + template.len()) ==> #[trigger] rendered_from::<M, F>(
                keywords,
                template,
                at,
                depth,
                place,
                given,
            ) == Err::<Seq<char>, Seq<char>>(error),
    }
}

/// A rendered field, by its contents.
spec fn field_model(result: Result<(Vec<char>, usize), String>) -> Result<(Seq<char>, int), Seq<char>> {
    match result {
        Ok((text, next)) => Ok((text@, next as int)),
        Err(error) => Err(error@),
    }
}

/// Whether a field at a position is cut, found and converted.
spec fn field_reaches<M: RlCheckpointFormatValue<F>, F: FloatFormat>(
    keywords: KeywordModel<M>,
    template: Seq<char>,
    at: int,
    cut: FieldCut,
    shown: NameModel<M::Model, F>,
) -> bool {
    &&& field_begins(template, at)
    &&& field_cut(template, at + 1) == Ok::<FieldCut, Seq<char>>(cut)
    &&& at < cut.spec_start <= cut.spec_end <= cut.next <= template.len()
    &&& at < cut.next
    &&& match resolved::<M, F>(keywords, template.subrange(at + 1, cut.name_end)) {
        Ok(value) => converted::<M, F>(value, cut.conversion) == Ok::<NameModel<M::Model, F>, Seq<char>>(shown),
        Err(_) => false,
    }
}

/// Whether a field begins at a position.
spec fn field_begins(template: Seq<char>, at: int) -> bool {
    &&& 0 <= at < template.len()
    &&& template[at] == '{'
    &&& at + 1 < template.len() ==> template[at + 1] != '{'
}

/// Why a field cannot be shown, whatever its specification.
spec fn field_failure<M: RlCheckpointFormatValue<F>, F: FloatFormat>(keywords: KeywordModel<M>, template: Seq<char>, at: int) -> Option<
    Seq<char>,
> {
    match field_cut(template, at + 1) {
        Err(error) => Some(error),
        Ok(cut) => match resolved::<M, F>(keywords, template.subrange(at + 1, cut.name_end)) {
            Err(error) => Some(error),
            Ok(value) => match converted::<M, F>(value, cut.conversion) {
                Err(error) => Some(error),
                Ok(_) => None,
            },
        },
    }
}

proof fn field_fails<M: RlCheckpointFormatValue<F>, F: FloatFormat>(
    keywords: KeywordModel<M>,
    template: Seq<char>,
    at: int,
    depth: nat,
    place: int,
    known: FieldAnswers,
    error: Seq<char>,
)
    requires
        depth > 0,
        field_begins(template, at),
        field_failure::<M, F>(keywords, template, at) == Some(error),
    ensures
        field_renders::<M, F>(keywords, template, at, depth, place, known, Err(error)),
{
    reveal(field_renders);
}

proof fn specification_fails<M: RlCheckpointFormatValue<F>, F: FloatFormat>(
    keywords: KeywordModel<M>,
    template: Seq<char>,
    at: int,
    depth: nat,
    place: int,
    known: FieldAnswers,
    cut: FieldCut,
    shown: NameModel<M::Model, F>,
    error: Seq<char>,
)
    requires
        depth > 0,
        field_reaches::<M, F>(keywords, template, at, cut, shown),
        template.subrange(cut.spec_start, cut.spec_end).contains('{'),
        renders::<M, F>(
            keywords,
            template.subrange(cut.spec_start, cut.spec_end),
            (depth - 1) as nat,
            place + cut.spec_start,
            known,
            Err(error),
        ),
    ensures
        field_renders::<M, F>(keywords, template, at, depth, place, known, Err(error)),
{
    reveal(field_renders);
    reveal(renders);
    let layout = template.subrange(cut.spec_start, cut.spec_end);
    assert forall|given: FieldAnswers|
        agree(given, known, place + at, place + template.len()) implies #[trigger] rendered_from::<M, F>(
        keywords,
        template,
        at,
        depth,
        place,
        given,
    ) == Err::<Seq<char>, Seq<char>>(error) by {
        assert(agree(given, known, place + cut.spec_start, place + cut.spec_start + layout.len()));
        assert(rendered_from::<M, F>(keywords, layout, 0, (depth - 1) as nat, place + cut.spec_start, given) == Err::<
            Seq<char>,
            Seq<char>,
        >(error));
    }
}

proof fn field_is_formatted<M: RlCheckpointFormatValue<F>, F: FloatFormat>(
    keywords: KeywordModel<M>,
    template: Seq<char>,
    at: int,
    depth: nat,
    place: int,
    known: FieldAnswers,
    answer: Answer,
    cut: FieldCut,
    shown: NameModel<M::Model, F>,
    spec: Seq<char>,
)
    requires
        depth > 0,
        field_reaches::<M, F>(keywords, template, at, cut, shown),
        ({
            let layout = template.subrange(cut.spec_start, cut.spec_end);
            if layout.contains('{') {
                renders::<M, F>(keywords, layout, (depth - 1) as nat, place + cut.spec_start, known, Ok(spec))
            } else {
                spec == layout
            }
        }),
    ensures
        field_renders::<M, F>(
            keywords,
            template,
            at,
            depth,
            place,
            spliced(known, always(answer), place + at, place + at + 1),
            match value_format::<M, F>(shown, spec, answer) {
                Ok(text) => Ok((text, cut.next)),
                Err(error) => Err(error),
            },
        ),
{
    reveal(field_renders);
    reveal(renders);
    let layout = template.subrange(cut.spec_start, cut.spec_end);
    let both = spliced(known, always(answer), place + at, place + at + 1);
    let from = place + cut.spec_start;
    assert forall|given: FieldAnswers, to: int|
        to >= place + cut.next && #[trigger] agree(given, both, place + at, to) implies field_rendered::<M, F>(
        keywords,
        template.subrange(at + 1, cut.name_end),
        cut.conversion,
        if layout.contains('{') {
            rendered_from::<M, F>(keywords, layout, 0, (depth - 1) as nat, from, given)
        } else {
            Ok(layout)
        },
        given(place + at),
    ) == value_format::<M, F>(shown, spec, answer) by {
        assert(given(place + at) == both(place + at));
        if layout.contains('{') {
            assert forall|p: int| from <= p < from + layout.len() implies #[trigger] given(p) == known(p) by {
                assert(given(p) == both(p));
            }
            assert(agree(given, known, from, from + layout.len()));
        }
    }
}

proof fn rendering_begins<M: RlCheckpointFormatValue<F>, F: FloatFormat>(
    keywords: KeywordModel<M>,
    template: Seq<char>,
    depth: nat,
    place: int,
    known: FieldAnswers,
)
    ensures
        renders_up_to::<M, F>(keywords, template, 0, depth, place, known, Seq::empty()),
{
    reveal(renders_up_to);
    assert forall|rest: TextResult| #[trigger] before_text(Seq::empty(), rest) == rest by {
        if rest is Ok {
            assert(Seq::<char>::empty() + rest->Ok_0 =~= rest->Ok_0);
        }
    }
}

proof fn rendering_ends<M: RlCheckpointFormatValue<F>, F: FloatFormat>(
    keywords: KeywordModel<M>,
    template: Seq<char>,
    depth: nat,
    place: int,
    known: FieldAnswers,
    output: Seq<char>,
)
    requires
        depth > 0,
        renders_up_to::<M, F>(keywords, template, template.len() as int, depth, place, known, output),
    ensures
        renders::<M, F>(keywords, template, depth, place, known, Ok(output)),
{
    reveal(renders_up_to);
    reveal(renders);
    assert(output + Seq::<char>::empty() =~= output);
}

proof fn nothing_is_rendered<M: RlCheckpointFormatValue<F>, F: FloatFormat>(
    keywords: KeywordModel<M>,
    template: Seq<char>,
    place: int,
    known: FieldAnswers,
)
    ensures
        renders::<M, F>(keywords, template, 0, place, known, Err("checkpoint format recursion exceeded"@)),
{
    reveal(renders);
}

proof fn character_goes_on<M: RlCheckpointFormatValue<F>, F: FloatFormat>(
    keywords: KeywordModel<M>,
    template: Seq<char>,
    at: int,
    next: int,
    depth: nat,
    place: int,
    known: FieldAnswers,
    output: Seq<char>,
)
    requires
        depth > 0,
        0 <= at < template.len(),
        renders_up_to::<M, F>(keywords, template, at, depth, place, known, output),
        if template[at] != '{' && template[at] != '}' {
            next == at + 1
        } else {
            at + 1 < template.len() && template[at + 1] == template[at] && next == at + 2
        },
    ensures
        renders_up_to::<M, F>(keywords, template, next, depth, place, known, output.push(template[at])),
{
    reveal(renders_up_to);
    assert forall|given: FieldAnswers| agree(given, known, place, place + next) implies #[trigger] rendered_from::<M, F>(
        keywords,
        template,
        0,
        depth,
        place,
        given,
    ) == before_text(output.push(template[at]), rendered_from::<M, F>(keywords, template, next, depth, place, given)) by {
        assert(agree(given, known, place, place + at));
        before_text_joins(
            output,
            seq![template[at]],
            rendered_from::<M, F>(keywords, template, next, depth, place, given),
        );
        assert(output + seq![template[at]] =~= output.push(template[at]));
    }
}

proof fn brace_fails<M: RlCheckpointFormatValue<F>, F: FloatFormat>(
    keywords: KeywordModel<M>,
    template: Seq<char>,
    at: int,
    depth: nat,
    place: int,
    known: FieldAnswers,
    output: Seq<char>,
)
    requires
        depth > 0,
        0 <= at < template.len(),
        renders_up_to::<M, F>(keywords, template, at, depth, place, known, output),
        template[at] == '}',
        at + 1 < template.len() ==> template[at + 1] != '}',
    ensures
        renders::<M, F>(keywords, template, depth, place, known, Err("single '}' in checkpoint format"@)),
{
    reveal(renders_up_to);
    reveal(renders);
    assert forall|given: FieldAnswers| agree(given, known, place, place + template.len()) implies #[trigger] rendered_from::<
        M,
        F,
    >(keywords, template, 0, depth, place, given) == Err::<Seq<char>, Seq<char>>("single '}' in checkpoint format"@) by {
        assert(agree(given, known, place, place + at));
    }
}

proof fn field_goes_on<M: RlCheckpointFormatValue<F>, F: FloatFormat>(
    keywords: KeywordModel<M>,
    template: Seq<char>,
    at: int,
    next: int,
    depth: nat,
    place: int,
    known: FieldAnswers,
    inner: FieldAnswers,
    output: Seq<char>,
    text: Seq<char>,
)
    requires
        0 <= at < next <= template.len(),
        renders_up_to::<M, F>(keywords, template, at, depth, place, known, output),
        field_renders::<M, F>(keywords, template, at, depth, place, inner, Ok((text, next))),
    ensures
        renders_up_to::<M, F>(
            keywords,
            template,
            next,
            depth,
            place,
            spliced(known, inner, place + at, place + template.len()),
            output + text,
        ),
{
    reveal(renders_up_to);
    reveal(field_renders);
    let both = spliced(known, inner, place + at, place + template.len());
    assert forall|given: FieldAnswers| agree(given, both, place, place + next) implies #[trigger] rendered_from::<M, F>(
        keywords,
        template,
        0,
        depth,
        place,
        given,
    ) == before_text(output + text, rendered_from::<M, F>(keywords, template, next, depth, place, given)) by {
        assert forall|p: int| place <= p < place + at implies #[trigger] given(p) == known(p) by {
            assert(given(p) == both(p));
        }
        assert(agree(given, known, place, place + at));
        agreement_narrows(given, known, inner, place + at, place + next, place + template.len());
        let rest = rendered_from::<M, F>(keywords, template, next, depth, place, given);
        assert(rendered_from::<M, F>(keywords, template, at, depth, place, given) == before_text(text, rest));
        before_text_joins(output, text, rest);
    }
}

proof fn field_ends<M: RlCheckpointFormatValue<F>, F: FloatFormat>(
    keywords: KeywordModel<M>,
    template: Seq<char>,
    at: int,
    depth: nat,
    place: int,
    known: FieldAnswers,
    inner: FieldAnswers,
    output: Seq<char>,
    error: Seq<char>,
)
    requires
        0 <= at < template.len(),
        renders_up_to::<M, F>(keywords, template, at, depth, place, known, output),
        field_renders::<M, F>(keywords, template, at, depth, place, inner, Err(error)),
    ensures
        renders::<M, F>(
            keywords,
            template,
            depth,
            place,
            spliced(known, inner, place + at, place + template.len()),
            Err(error),
        ),
{
    reveal(renders_up_to);
    reveal(renders);
    reveal(field_renders);
    let both = spliced(known, inner, place + at, place + template.len());
    assert forall|given: FieldAnswers| agree(given, both, place, place + template.len()) implies #[trigger] rendered_from::<
        M,
        F,
    >(keywords, template, 0, depth, place, given) == Err::<Seq<char>, Seq<char>>(error) by {
        assert forall|p: int| place <= p < place + at implies #[trigger] given(p) == known(p) by {
            assert(given(p) == both(p));
        }
        assert(agree(given, known, place, place + at));
        let end = place + template.len();
        agreement_narrows(given, known, inner, place + at, end, end);
        assert(rendered_from::<M, F>(keywords, template, at, depth, place, given) == Err::<Seq<char>, Seq<char>>(error));
    }
}

/// Renders the field at a position, and says where it ends.
fn render_field<'a, M: RlCheckpointFormatValue<F>, F: FloatFormat, P: RlCheckpointLocaleProvider>(
    keywords: &Keywords<'a, M>,
    template: &[char],
    at: usize,
    depth: u8,
    locale: &P,
    Ghost(place): Ghost<int>,
) -> (result: Result<(Vec<char>, usize), String>)
    requires
        depth > 0,
        field_begins(template@, at as int),
    ensures
        exists|known: FieldAnswers| #[trigger]
            all_answer(*locale, known) && field_renders::<M, F>(
                keywords@,
                template@,
                at as int,
                depth as nat,
                place,
                known,
                field_model(result),
            ),
        result matches Ok((_, next)) ==> at < next <= template@.len(),
    decreases depth, 0nat,
{
    let ghost mut known: FieldAnswers = always(some_answer(*locale));
    proof {
        providers_answer(*locale);
        always_answers(*locale, some_answer(*locale));
    }
    let length: usize = template.len();
    assert(at < length);
    let found = match field(template, at + 1) {
        Ok(found) => found,
        Err(error) => {
            proof {
                field_fails::<M, F>(keywords@, template@, at as int, depth as nat, place, known, error@);
            }
            return Err(error);
        },
    };
    let name = sub_chars(template, at + 1, found.name_end);
    let held = match resolve::<M, F>(keywords, name.as_slice()) {
        Ok(held) => held,
        Err(error) => {
            proof {
                field_fails::<M, F>(keywords@, template@, at as int, depth as nat, place, known, error@);
            }
            return Err(error);
        },
    };
    let shown = match convert(held, found.conversion) {
        Ok(shown) => shown,
        Err(error) => {
            proof {
                field_fails::<M, F>(keywords@, template@, at as int, depth as nat, place, known, error@);
            }
            return Err(error);
        },
    };
    let layout = sub_chars(template, found.spec_start, found.spec_end);
    let ghost cut = found@;
    assert(field_reaches::<M, F>(keywords@, template@, at as int, cut, held_model(shown)));
    let spec = if holds_brace(layout.as_slice()) {
        let rendered = render::<M, F, P>(keywords, layout.as_slice(), depth - 1, locale, Ghost(place + cut.spec_start));
        proof {
            known = choose|known: FieldAnswers| #[trigger]
                all_answer(*locale, known) && renders::<M, F>(
                    keywords@,
                    layout@,
                    (depth - 1) as nat,
                    place + cut.spec_start,
                    known,
                    chars_result(rendered),
                );
        }
        match rendered {
            Ok(spec) => spec,
            Err(error) => {
                proof {
                    specification_fails::<M, F>(
                        keywords@,
                        template@,
                        at as int,
                        depth as nat,
                        place,
                        known,
                        cut,
                        held_model(shown),
                        error@,
                    );
                }
                return Err(error);
            },
        }
    } else {
        layout
    };
    let formatted = format_held(&shown, spec.as_slice(), locale);
    proof {
        let answer = choose|answer: Answer| #[trigger]
            answers(*locale, answer) && text_result(formatted) == value_format::<M, F>(held_model(shown), spec@, answer);
        field_is_formatted::<M, F>(
            keywords@,
            template@,
            at as int,
            depth as nat,
            place,
            known,
            answer,
            cut,
            held_model(shown),
            spec@,
        );
        always_answers(*locale, answer);
        spliced_answers(*locale, known, always(answer), place + at, place + at + 1);
    }
    match formatted {
        Ok(text) => Ok((to_chars(text.as_str()), found.next)),
        Err(error) => Err(error),
    }
}

fn render<'a, M: RlCheckpointFormatValue<F>, F: FloatFormat, P: RlCheckpointLocaleProvider>(
    keywords: &Keywords<'a, M>,
    template: &[char],
    depth: u8,
    locale: &P,
    Ghost(place): Ghost<int>,
) -> (result: Result<Vec<char>, String>)
    ensures
        exists|known: FieldAnswers| #[trigger]
            all_answer(*locale, known) && renders::<M, F>(
                keywords@,
                template@,
                depth as nat,
                place,
                known,
                chars_result(result),
            ),
    decreases depth, 1nat,
{
    let ghost mut known: FieldAnswers = always(some_answer(*locale));
    proof {
        providers_answer(*locale);
        always_answers(*locale, some_answer(*locale));
    }
    if depth == 0 {
        proof {
            nothing_is_rendered::<M, F>(keywords@, template@, place, known);
        }
        return Err("checkpoint format recursion exceeded".to_owned());
    }
    let length: usize = template.len();
    let mut output: Vec<char> = Vec::new();
    let mut at: usize = 0;
    proof {
        rendering_begins::<M, F>(keywords@, template@, depth as nat, place, known);
    }
    while at < length
        invariant
            at <= length,
            length == template@.len(),
            depth > 0,
            all_answer(*locale, known),
            renders_up_to::<M, F>(keywords@, template@, at as int, depth as nat, place, known, output@),
        decreases length - at,
    {
        let ch: char = template[at];
        if ch != '{' && ch != '}' {
            proof {
                character_goes_on::<M, F>(
                    keywords@,
                    template@,
                    at as int,
                    at + 1,
                    depth as nat,
                    place,
                    known,
                    output@,
                );
            }
            output.push(ch);
            at += 1;
        } else if length - at > 1 && template[at + 1] == ch {
            proof {
                character_goes_on::<M, F>(
                    keywords@,
                    template@,
                    at as int,
                    at + 2,
                    depth as nat,
                    place,
                    known,
                    output@,
                );
            }
            output.push(ch);
            at += 2;
        } else if ch == '}' {
            proof {
                brace_fails::<M, F>(keywords@, template@, at as int, depth as nat, place, known, output@);
            }
            return Err("single '}' in checkpoint format".to_owned());
        } else {
            let rendered = render_field::<M, F, P>(keywords, template, at, depth, locale, Ghost(place));
            let ghost inner = choose|inner: FieldAnswers| #[trigger]
                all_answer(*locale, inner) && field_renders::<M, F>(
                    keywords@,
                    template@,
                    at as int,
                    depth as nat,
                    place,
                    inner,
                    field_model(rendered),
                );
            proof {
                spliced_answers(*locale, known, inner, place + at, place + template@.len());
            }
            match rendered {
                Ok((text, next)) => {
                    proof {
                        field_goes_on::<M, F>(
                            keywords@,
                            template@,
                            at as int,
                            next as int,
                            depth as nat,
                            place,
                            known,
                            inner,
                            output@,
                            text@,
                        );
                        known = spliced(known, inner, place + at, place + template@.len());
                    }
                    append_chars(&mut output, text.as_slice());
                    at = next;
                },
                Err(error) => {
                    proof {
                        field_ends::<M, F>(
                            keywords@,
                            template@,
                            at as int,
                            depth as nat,
                            place,
                            known,
                            inner,
                            output@,
                            error@,
                        );
                    }
                    return Err(error);
                },
            }
        }
    }
    proof {
        rendering_ends::<M, F>(keywords@, template@, depth as nat, place, known, output@);
    }
    Ok(output)
}

proof fn before_text_joins(first: Seq<char>, second: Seq<char>, rest: TextResult)
    ensures
        before_text(first, before_text(second, rest)) == before_text(first + second, rest),
{
    if rest is Ok {
        assert(first + (second + rest->Ok_0) =~= (first + second) + rest->Ok_0);
    }
}

/// What a name template renders to. Metrics must not be named like the two fixed keywords.
pub open spec fn name_rendered<M: RlCheckpointFormatValue<F>, F: FloatFormat>(
    template: Seq<char>,
    keywords: KeywordModel<M>,
    given: FieldAnswers,
) -> TextResult {
    if crate::ordered::has_name(keywords.metrics, "iter"@) {
        Err("duplicate checkpoint keyword iter"@)
    } else if crate::ordered::has_name(keywords.metrics, "time"@) {
        Err("duplicate checkpoint keyword time"@)
    } else {
        rendered_from::<M, F>(keywords, template, 0, 2, 0, given)
    }
}

/// Renders a checkpoint name.
pub fn render_keywords<'a, M: RlCheckpointFormatValue<F>, F: FloatFormat, P: RlCheckpointLocaleProvider>(
    template: &str,
    keywords: &Keywords<'a, M>,
    locale: &P,
) -> (result: Result<String, String>)
    ensures
        exists|given: FieldAnswers| #[trigger]
            all_answer(*locale, given) && text_result(result) == name_rendered::<M, F>(template@, keywords@, given),
{
    proof {
        providers_answer(*locale);
        assert(all_answer(*locale, always(some_answer(*locale))));
    }
    if keywords.metrics.contains("iter") {
        return Err("duplicate checkpoint keyword iter".to_owned());
    }
    if keywords.metrics.contains("time") {
        return Err("duplicate checkpoint keyword time".to_owned());
    }
    let chars = to_chars(template);
    let rendered = render::<M, F, P>(keywords, chars.as_slice(), 2, locale, Ghost(0));
    proof {
        let known = choose|known: FieldAnswers| #[trigger]
            all_answer(*locale, known) && renders::<M, F>(keywords@, template@, 2, 0, known, chars_result(rendered));
        reveal(renders);
        assert(agree(known, known, 0, template@.len() as int));
        assert(rendered_from::<M, F>(keywords@, template@, 0, 2, 0, known) == chars_result(rendered));
    }
    match rendered {
        Ok(text) => Ok(from_chars(text.as_slice())),
        Err(error) => Err(error),
    }
}

/// Names in the plain numeric locale.
#[derive(Clone, Copy, Debug)]
pub struct PythonRlCheckpointName;

impl PythonRlCheckpointName {
    /// Renders a checkpoint name.
    pub fn render<'a, M: RlCheckpointFormatValue<F>, F: FloatFormat>(
        &self,
        template: &str,
        keywords: &Keywords<'a, M>,
    ) -> (result: Result<String, String>)
        ensures
            text_result(result) == name_rendered::<M, F>(
                template@,
                keywords@,
                always(Ok(LocaleFields { decimal: "."@, separator: Seq::empty(), groups: Seq::empty(), stop: false })),
            ),
    {
        let locale = RlCheckpointNumericLocale::default();
        let result = render_keywords::<M, F, RlCheckpointNumericLocale>(template, keywords, &locale);
        proof {
            fixed_locales_answer_everywhere(
                locale,
                choose|given: FieldAnswers| #[trigger]
                    all_answer(locale, given) && text_result(result) == name_rendered::<M, F>(template@, keywords@, given),
            );
        }
        result
    }
}

/// Names in the numeric locale of a provider, which is asked field by field.
pub struct LocalizedPythonRlCheckpointName<P> {
    locale: P,
}

impl<P: RlCheckpointLocaleProvider> LocalizedPythonRlCheckpointName<P> {
    /// The provider of the numeric locale.
    pub closed spec fn provider(&self) -> P {
        self.locale
    }

    pub fn new(locale: P) -> (result: Self)
        ensures
            result.provider() == locale,
    {
        LocalizedPythonRlCheckpointName { locale }
    }

    /// Renders a checkpoint name.
    pub fn render<'a, M: RlCheckpointFormatValue<F>, F: FloatFormat>(
        &self,
        template: &str,
        keywords: &Keywords<'a, M>,
    ) -> (result: Result<String, String>)
        ensures
            exists|given: FieldAnswers| #[trigger]
                all_answer(self.provider(), given) && text_result(result) == name_rendered::<M, F>(
                    template@,
                    keywords@,
                    given,
                ),
    {
        assert(self.provider() == self.locale);
        assert(self.provider() == self.locale);
        render_keywords::<M, F, P>(template, keywords, &self.locale)
    }
}

/// Under a fixed numeric locale every field sees that locale.
pub proof fn fixed_locales_answer_everywhere(locale: RlCheckpointNumericLocale, given: FieldAnswers)
    ensures
        all_answer(locale, given) <==> given == always(Ok::<LocaleFields, Seq<char>>(locale@)),
{
    let fixed = always(Ok::<LocaleFields, Seq<char>>(locale@));
    assert forall|place: int| answers(locale, #[trigger] fixed(place)) by {
        fixed_locales_answer_themselves(locale, fixed(place));
    }
    if all_answer(locale, given) {
        assert forall|place: int| #[trigger] given(place) == fixed(place) by {
            fixed_locales_answer_themselves(locale, given(place));
        }
        assert(given =~= fixed);
    }
}

/// A template without braces renders to itself.
pub proof fn plain_templates_render_to_themselves<M: RlCheckpointFormatValue<F>, F: FloatFormat>(
    template: Seq<char>,
    keywords: KeywordModel<M>,
    given: FieldAnswers,
)
    requires
        !crate::ordered::has_name(keywords.metrics, "iter"@),
        !crate::ordered::has_name(keywords.metrics, "time"@),
        !template.contains('{'),
        !template.contains('}'),
    ensures
        name_rendered::<M, F>(template, keywords, given) == Ok::<Seq<char>, Seq<char>>(template),
{
    plain_from::<M, F>(template, keywords, given, 0);
    assert(template.skip(0) =~= template);
}

proof fn plain_from<M: RlCheckpointFormatValue<F>, F: FloatFormat>(
    template: Seq<char>,
    keywords: KeywordModel<M>,
    given: FieldAnswers,
    at: int,
)
    requires
        0 <= at <= template.len(),
        !template.contains('{'),
        !template.contains('}'),
    ensures
        rendered_from::<M, F>(keywords, template, at, 2, 0, given) == Ok::<Seq<char>, Seq<char>>(template.skip(at)),
    decreases template.len() - at,
{
    if at < template.len() {
        plain_from::<M, F>(template, keywords, given, at + 1);
        assert(template[at] != '{' && template[at] != '}');
        assert(seq![template[at]] + template.skip(at + 1) =~= template.skip(at));
    } else {
        assert(template.skip(at) =~= Seq::<char>::empty());
    }
}

} // verus!
