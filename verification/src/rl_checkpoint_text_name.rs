//! Rendering of checkpoint names over code points.
use vstd::prelude::*;

use crate::integer::{decimal_digits, Integer};
use crate::rl_checkpoint_format::FloatFormat;
use crate::rl_checkpoint_locale::{
    answers, fixed_locales_answer_themselves, providers_answer, some_answer, Answer, LocaleFields, RlCheckpointLocaleProvider,
    RlCheckpointNumericLocale,
};
use crate::rl_checkpoint_name::{
    agree, agreement_narrows, all_answer, always, always_answers, append_escaped, escaped_point, fixed_locales_answer_everywhere, join, points_of,
    python_code_points_repr, represented, spliced, spliced_answers, FieldAnswers,
};
use crate::rl_checkpoint_text::{
    all_points, all_scalars, append_upper_hex, point_result, upper_hex, utf32_failure, PointResult, RlCheckpointText,
};
use crate::rl_checkpoint_text_format::{format_lossless, lossless_formatted, LosslessModel, RlLosslessCheckpointValue};
use crate::rl_checkpoint_text_template::{
    attribute_end, field, field_cut, index_of, integer_index, part, part_cut, skip_attribute, FieldCut,
};
use crate::text::{append_chars, decimal_chars, from_chars, to_chars};

verus! {

/// A subscript over code points, by its contents.
pub enum PointKey {
    Integer(int),
    Key(Seq<u32>),
}

/// A subscript: a decimal integer, or any other text.
#[derive(Debug)]
pub enum RlLosslessCheckpointFieldIndex {
    Integer(usize),
    Key(RlCheckpointText),
}

impl View for RlLosslessCheckpointFieldIndex {
    type V = PointKey;

    open spec fn view(&self) -> PointKey {
        match self {
            RlLosslessCheckpointFieldIndex::Integer(index) => PointKey::Integer(*index as int),
            RlLosslessCheckpointFieldIndex::Key(text) => PointKey::Key(text@),
        }
    }
}

/// A value inside a template, by its contents: one of a model, or a plain one.
pub enum PointModel<T, F> {
    Metric(T),
    Scalar(LosslessModel<F>),
}

/// A value inside a template: one of a model, or a plain one.
pub enum PointValue<M, F> {
    Metric(M),
    Scalar(RlLosslessCheckpointValue<F>),
}

/// What a model's values do inside a template over code points.
pub trait RlLosslessCheckpointFormatValue<F: FloatFormat>: Sized {
    /// The contents of a value.
    type Model;

    open spec fn model(&self) -> Self::Model {
        arbitrary()
    }

    open spec fn format_of(model: Self::Model, spec: Seq<u32>, answer: Answer) -> PointResult {
        arbitrary()
    }

    open spec fn text_of(model: Self::Model, repr: bool) -> PointResult {
        arbitrary()
    }

    open spec fn attribute_of(model: Self::Model, name: Seq<u32>) -> Result<PointModel<Self::Model, F>, Seq<char>> {
        arbitrary()
    }

    open spec fn item_of(model: Self::Model, key: PointKey) -> Result<PointModel<Self::Model, F>, Seq<char>> {
        arbitrary()
    }

    /// Formats the value; the locale provider is asked where the specification needs it.
    fn format_with_locale<P: RlCheckpointLocaleProvider>(&self, spec: &RlCheckpointText, locale: &P) -> (result: Result<
        RlCheckpointText,
        String,
    >)
        ensures
            exists|answer: Answer| #[trigger]
                answers(*locale, answer) && point_result(result) == Self::format_of(self.model(), spec@, answer),
    ;

    /// The plain text of the value, or its representation.
    fn representation(&self, repr: bool) -> (result: Result<RlCheckpointText, String>)
        ensures
            point_result(result) == Self::text_of(self.model(), repr),
    ;

    fn attribute(&self, name: &RlCheckpointText) -> (result: Result<PointValue<Self, F>, String>)
        ensures
            match result {
                Ok(PointValue::Metric(metric)) => Self::attribute_of(self.model(), name@) == Ok::<
                    PointModel<Self::Model, F>,
                    Seq<char>,
                >(PointModel::Metric(metric.model())),
                Ok(PointValue::Scalar(scalar)) => Self::attribute_of(self.model(), name@) == Ok::<
                    PointModel<Self::Model, F>,
                    Seq<char>,
                >(PointModel::Scalar(scalar@)),
                Err(error) => Self::attribute_of(self.model(), name@) == Err::<PointModel<Self::Model, F>, Seq<char>>(
                    error@,
                ),
            },
    ;

    fn item(&self, key: RlLosslessCheckpointFieldIndex) -> (result: Result<PointValue<Self, F>, String>)
        ensures
            match result {
                Ok(PointValue::Metric(metric)) => Self::item_of(self.model(), key@) == Ok::<
                    PointModel<Self::Model, F>,
                    Seq<char>,
                >(PointModel::Metric(metric.model())),
                Ok(PointValue::Scalar(scalar)) => Self::item_of(self.model(), key@) == Ok::<
                    PointModel<Self::Model, F>,
                    Seq<char>,
                >(PointModel::Scalar(scalar@)),
                Err(error) => Self::item_of(self.model(), key@) == Err::<PointModel<Self::Model, F>, Seq<char>>(error@),
            },
    ;
}

/// The contents of a value inside a template.
pub open spec fn point_model<M: RlLosslessCheckpointFormatValue<F>, F: FloatFormat>(value: PointValue<M, F>) -> PointModel<
    M::Model,
    F,
> {
    match value {
        PointValue::Metric(metric) => PointModel::Metric(metric.model()),
        PointValue::Scalar(scalar) => PointModel::Scalar(scalar@),
    }
}

/// The outcome of a lookup, by its contents.
pub open spec fn found_model<M: RlLosslessCheckpointFormatValue<F>, F: FloatFormat>(
    result: Result<PointValue<M, F>, String>,
) -> Result<PointModel<M::Model, F>, Seq<char>> {
    match result {
        Ok(value) => Ok(point_model(value)),
        Err(error) => Err(error@),
    }
}

/// The characters of code points.
pub open spec fn chars_of(points: Seq<u32>) -> Seq<char> {
    points.map_values(|point: u32| point as char)
}

/// Whether a name is a given text.
pub open spec fn named(name: Seq<u32>, text: Seq<char>) -> bool {
    name == points_of(text)
}

/// The attribute of a plain value.
pub open spec fn lossless_attribute<F: FloatFormat>(value: LosslessModel<F>, name: Seq<u32>) -> Result<
    LosslessModel<F>,
    Seq<char>,
> {
    let whole = value is Integer || value is Boolean;
    let first = named(name, "real"@);
    let numerator = named(name, "numerator"@);
    let imag = named(name, "imag"@);
    if !all_scalars(name) {
        Err(utf32_failure(name))
    } else if first && (value is Integer || value is Float) || numerator && value is Integer {
        Ok(value)
    } else if imag && whole {
        Ok(LosslessModel::Integer(0))
    } else if imag && value is Float {
        Ok(LosslessModel::Float(F::zero_spec()))
    } else if named(name, "denominator"@) && whole {
        Ok(LosslessModel::Integer(1))
    } else if (first || numerator) && value is Boolean {
        Ok(
            LosslessModel::Integer(
                if value->Boolean_0 {
                    1
                } else {
                    0
                },
            ),
        )
    } else {
        Err("unsupported checkpoint attribute "@ + chars_of(name))
    }
}

/// Code points as a list of numbers, without the brackets.
pub open spec fn list_items(points: Seq<u32>) -> Seq<char>
    decreases points.len(),
{
    if points.len() == 0 {
        Seq::empty()
    } else if points.len() == 1 {
        decimal_digits(points[0] as nat)
    } else {
        list_items(points.drop_last()) + seq![',', ' '] + decimal_digits(points.last() as nat)
    }
}

/// Code points as a list of numbers.
pub open spec fn listed(points: Seq<u32>) -> Seq<char> {
    seq!['['] + list_items(points) + seq![']']
}

/// How a subscript is shown.
pub open spec fn point_key_text(key: PointKey) -> Seq<char> {
    match key {
        PointKey::Integer(index) => "Integer("@ + decimal_digits(index as nat) + ")"@,
        PointKey::Key(points) => "Key("@ + listed(points) + ")"@,
    }
}

/// The item of a plain value: a code point of a text.
pub open spec fn lossless_item<F: FloatFormat>(value: LosslessModel<F>, key: PointKey) -> Result<
    LosslessModel<F>,
    Seq<char>,
> {
    match (value, key) {
        (LosslessModel::Text(text), PointKey::Integer(index)) => if index < text.len() {
            Ok(LosslessModel::Text(text.subrange(index, index + 1)))
        } else {
            Err("checkpoint string index out of range"@)
        },
        _ => Err("unsupported checkpoint item "@ + point_key_text(key)),
    }
}

/// The plain numeric locale.
pub open spec fn plain_locale() -> Answer {
    Ok(LocaleFields { decimal: "."@, separator: Seq::empty(), groups: Seq::empty(), stop: false })
}

/// The plain text of a plain value, or its representation.
pub open spec fn lossless_text<F: FloatFormat>(value: LosslessModel<F>, repr: bool) -> PointResult {
    match value {
        LosslessModel::Text(text) => Ok(
            if repr {
                points_of(represented(text))
            } else {
                text
            },
        ),
        _ => lossless_formatted(value, Seq::empty(), plain_locale()),
    }
}

/// A plain value as the outcome of a lookup.
pub open spec fn plain_point<F: FloatFormat, T>(result: Result<LosslessModel<F>, Seq<char>>) -> Result<
    PointModel<T, F>,
    Seq<char>,
> {
    match result {
        Ok(value) => Ok(PointModel::Scalar(value)),
        Err(error) => Err(error),
    }
}

fn append_listed(target: &mut Vec<char>, points: &[u32])
    ensures
        final(target)@ == old(target)@ + listed(points@),
{
    target.push('[');
    let ghost start = target@;
    let mut i: usize = 0;
    assert(target@ =~= start + list_items(points@.take(0)));
    while i < points.len()
        invariant
            i <= points@.len(),
            target@ == start + list_items(points@.take(i as int)),
        decreases points@.len() - i,
    {
        let ghost before = target@;
        if i > 0 {
            target.push(',');
            target.push(' ');
        }
        let digits = decimal_chars(points[i] as usize);
        append_chars(target, digits.as_slice());
        proof {
            let wide = points@.take(i + 1);
            assert(wide.drop_last() =~= points@.take(i as int));
            assert(wide.last() == points@[i as int]);
            if i == 0 {
                assert(wide[0] == points@[0]);
                assert(list_items(points@.take(0)) =~= Seq::<char>::empty());
                assert(target@ =~= start + list_items(wide));
            } else {
                assert(target@ =~= start + (list_items(points@.take(i as int)) + seq![',', ' '] + digits@));
            }
        }
        i += 1;
    }
    target.push(']');
    proof {
        assert(points@.take(i as int) =~= points@);
        assert(target@ =~= old(target)@ + listed(points@));
    }
}

fn shown_key(key: &RlLosslessCheckpointFieldIndex) -> (result: String)
    ensures
        result@ == point_key_text(key@),
{
    let mut output: Vec<char> = Vec::new();
    match key {
        RlLosslessCheckpointFieldIndex::Integer(index) => {
            append_chars(&mut output, to_chars("Integer(").as_slice());
            append_chars(&mut output, decimal_chars(*index).as_slice());
        },
        RlLosslessCheckpointFieldIndex::Key(text) => {
            append_chars(&mut output, to_chars("Key(").as_slice());
            append_listed(&mut output, text.as_code_points());
        },
    }
    append_chars(&mut output, to_chars(")").as_slice());
    assert(output@ =~= point_key_text(key@));
    from_chars(output.as_slice())
}

fn is_named(name: &RlCheckpointText, text: &str) -> (result: bool)
    ensures
        result == named(name@, text@),
{
    name.equals(&RlCheckpointText::from_utf8(text))
}

proof fn names_differ(a: Seq<char>, b: Seq<char>)
    requires
        a.len() != b.len() || a.len() > 0 && a[0] as u32 != b[0] as u32,
    ensures
        points_of(a) != points_of(b),
{
    if a.len() == b.len() {
        assert(points_of(a)[0] != points_of(b)[0]);
    } else {
        assert(points_of(a).len() != points_of(b).len());
    }
}

impl<F: FloatFormat> RlLosslessCheckpointValue<F> {
    /// The same value.
    pub fn copied(&self) -> (result: Self)
        ensures
            result@ == self@,
    {
        match self {
            RlLosslessCheckpointValue::Integer(number) => RlLosslessCheckpointValue::Integer(number.copied()),
            RlLosslessCheckpointValue::Float(number) => RlLosslessCheckpointValue::Float(*number),
            RlLosslessCheckpointValue::Boolean(flag) => RlLosslessCheckpointValue::Boolean(*flag),
            RlLosslessCheckpointValue::Text(text) => RlLosslessCheckpointValue::Text(text.copied()),
            RlLosslessCheckpointValue::Null => RlLosslessCheckpointValue::Null,
        }
    }

    /// An attribute of the value.
    pub fn plain_attribute(&self, name: &RlCheckpointText) -> (result: Result<RlLosslessCheckpointValue<F>, String>)
        ensures
            match result {
                Ok(value) => lossless_attribute(self@, name@) == Ok::<LosslessModel<F>, Seq<char>>(value@),
                Err(error) => lossless_attribute(self@, name@) == Err::<LosslessModel<F>, Seq<char>>(error@),
            },
    {
        let text = match name.to_utf8() {
            Ok(text) => text,
            Err(error) => return Err(error),
        };
        let real_part = is_named(name, "real");
        let imag = is_named(name, "imag");
        let numerator = is_named(name, "numerator");
        let denominator = is_named(name, "denominator");
        proof {
            reveal_strlit("real");
            reveal_strlit("imag");
            reveal_strlit("numerator");
            reveal_strlit("denominator");
            names_differ("real"@, "imag"@);
            names_differ("real"@, "numerator"@);
            names_differ("real"@, "denominator"@);
            names_differ("imag"@, "numerator"@);
            names_differ("imag"@, "denominator"@);
            names_differ("numerator"@, "denominator"@);
        }
        match self {
            RlLosslessCheckpointValue::Integer(_) => if real_part || numerator {
                return Ok(self.copied());
            } else if imag {
                return Ok(RlLosslessCheckpointValue::Integer(Integer::zero()));
            } else if denominator {
                return Ok(RlLosslessCheckpointValue::Integer(Integer::from_usize(1)));
            },
            RlLosslessCheckpointValue::Float(_) => if real_part {
                return Ok(self.copied());
            } else if imag {
                return Ok(RlLosslessCheckpointValue::Float(F::zero()));
            },
            RlLosslessCheckpointValue::Boolean(flag) => if imag {
                return Ok(RlLosslessCheckpointValue::Integer(Integer::zero()));
            } else if denominator {
                return Ok(RlLosslessCheckpointValue::Integer(Integer::from_usize(1)));
            } else if real_part || numerator {
                let number: usize = if *flag {
                    1
                } else {
                    0
                };
                return Ok(RlLosslessCheckpointValue::Integer(Integer::from_usize(number)));
            },
            _ => {},
        }
        proof {
            assert(points_of(text@).len() == text@.len());
            assert forall|i: int| 0 <= i < text@.len() implies chars_of(name@)[i] == text@[i] by {
                assert(points_of(text@)[i] == name@[i]);
                vstd::utf8::char_u32_cast(text@[i], text@[i] as u32);
            }
            assert(chars_of(name@) =~= text@);
        }
        Err(join("unsupported checkpoint attribute ", text.as_str()))
    }

    /// An item of the value.
    pub fn plain_item(&self, key: RlLosslessCheckpointFieldIndex) -> (result: Result<
        RlLosslessCheckpointValue<F>,
        String,
    >)
        ensures
            match result {
                Ok(value) => lossless_item(self@, key@) == Ok::<LosslessModel<F>, Seq<char>>(value@),
                Err(error) => lossless_item(self@, key@) == Err::<LosslessModel<F>, Seq<char>>(error@),
            },
    {
        match (self, &key) {
            (RlLosslessCheckpointValue::Text(text), RlLosslessCheckpointFieldIndex::Integer(index)) => {
                if *index < text.len() {
                    return Ok(RlLosslessCheckpointValue::Text(text.sliced(*index, *index + 1)));
                }
                return Err("checkpoint string index out of range".to_owned());
            },
            _ => {},
        }
        let shown = shown_key(&key);
        Err(join("unsupported checkpoint item ", shown.as_str()))
    }

    /// The plain text of the value, or its representation.
    pub fn plain_text(&self, repr: bool) -> (result: Result<RlCheckpointText, String>)
        ensures
            point_result(result) == lossless_text(self@, repr),
    {
        match self {
            RlLosslessCheckpointValue::Text(text) => if repr {
                let shown = python_code_points_repr(text.as_code_points());
                let shown_text = from_chars(shown.as_slice());
                Ok(RlCheckpointText::from_utf8(shown_text.as_str()))
            } else {
                Ok(text.copied())
            },
            _ => {
                let none = RlCheckpointText::from_utf8("");
                proof {
                    reveal_strlit("");
                    assert(none@ =~= Seq::<u32>::empty());
                }
                let locale = RlCheckpointNumericLocale::default();
                let result = format_lossless(self, &none, &locale);
                proof {
                    fixed_locales_answer_themselves(
                        locale,
                        choose|answer: Answer| #[trigger]
                            answers(locale, answer) && point_result(result) == lossless_formatted(self@, none@, answer),
                    );
                }
                result
            },
        }
    }
}

impl<F: FloatFormat> RlLosslessCheckpointFormatValue<F> for RlLosslessCheckpointValue<F> {
    type Model = LosslessModel<F>;

    open spec fn model(&self) -> LosslessModel<F> {
        self@
    }

    open spec fn format_of(model: LosslessModel<F>, spec: Seq<u32>, answer: Answer) -> PointResult {
        lossless_formatted(model, spec, answer)
    }

    open spec fn text_of(model: LosslessModel<F>, repr: bool) -> PointResult {
        lossless_text(model, repr)
    }

    open spec fn attribute_of(model: LosslessModel<F>, name: Seq<u32>) -> Result<
        PointModel<LosslessModel<F>, F>,
        Seq<char>,
    > {
        plain_point(lossless_attribute(model, name))
    }

    open spec fn item_of(model: LosslessModel<F>, key: PointKey) -> Result<PointModel<LosslessModel<F>, F>, Seq<char>> {
        plain_point(lossless_item(model, key))
    }

    fn format_with_locale<P: RlCheckpointLocaleProvider>(&self, spec: &RlCheckpointText, locale: &P) -> (result: Result<
        RlCheckpointText,
        String,
    >) {
        format_lossless(self, spec, locale)
    }

    fn representation(&self, repr: bool) -> (result: Result<RlCheckpointText, String>) {
        self.plain_text(repr)
    }

    fn attribute(&self, name: &RlCheckpointText) -> (result: Result<PointValue<Self, F>, String>) {
        match self.plain_attribute(name) {
            Ok(value) => Ok(PointValue::Scalar(value)),
            Err(error) => Err(error),
        }
    }

    fn item(&self, key: RlLosslessCheckpointFieldIndex) -> (result: Result<PointValue<Self, F>, String>) {
        match self.plain_item(key) {
            Ok(value) => Ok(PointValue::Scalar(value)),
            Err(error) => Err(error),
        }
    }
}


/// What a value formats to.
pub open spec fn value_format<M: RlLosslessCheckpointFormatValue<F>, F: FloatFormat>(
    value: PointModel<M::Model, F>,
    spec: Seq<u32>,
    answer: Answer,
) -> PointResult {
    match value {
        PointModel::Metric(model) => M::format_of(model, spec, answer),
        PointModel::Scalar(scalar) => lossless_formatted(scalar, spec, answer),
    }
}

/// The plain text of a value, or its representation.
pub open spec fn value_text<M: RlLosslessCheckpointFormatValue<F>, F: FloatFormat>(
    value: PointModel<M::Model, F>,
    repr: bool,
) -> PointResult {
    match value {
        PointModel::Metric(model) => M::text_of(model, repr),
        PointModel::Scalar(scalar) => lossless_text(scalar, repr),
    }
}

/// The subscript that a text stands for.
pub open spec fn key_of(text: Seq<u32>) -> Result<PointKey, Seq<char>> {
    match index_of(text) {
        Err(error) => Err(error),
        Ok(Some(index)) => Ok(PointKey::Integer(index)),
        Ok(None) => Ok(PointKey::Key(text)),
    }
}

/// One access to a value.
pub open spec fn value_access<M: RlLosslessCheckpointFormatValue<F>, F: FloatFormat>(
    value: PointModel<M::Model, F>,
    attribute: bool,
    name: Seq<u32>,
) -> Result<PointModel<M::Model, F>, Seq<char>> {
    if attribute {
        match value {
            PointModel::Metric(model) => M::attribute_of(model, name),
            PointModel::Scalar(scalar) => plain_point(lossless_attribute(scalar, name)),
        }
    } else {
        match key_of(name) {
            Err(error) => Err(error),
            Ok(key) => match value {
                PointModel::Metric(model) => M::item_of(model, key),
                PointModel::Scalar(scalar) => plain_point(lossless_item(scalar, key)),
            },
        }
    }
}

/// The value at the end of a path, access by access.
pub open spec fn path_value<M: RlLosslessCheckpointFormatValue<F>, F: FloatFormat>(
    value: PointModel<M::Model, F>,
    path: Seq<u32>,
    at: int,
) -> Result<PointModel<M::Model, F>, Seq<char>>
    decreases path.len() - at,
{
    if at < 0 || at >= path.len() {
        Ok(value)
    } else {
        match part_cut(path, at) {
            Err(error) => Err(error),
            Ok(cut) => match value_access::<M, F>(value, cut.attribute, path.subrange(cut.start, cut.end)) {
                Err(error) => Err(error),
                Ok(next) => if cut.next <= at || cut.next > path.len() {
                    Ok(next)
                } else {
                    path_value::<M, F>(next, path, cut.next)
                },
            },
        }
    }
}

/// What a template can refer to.
pub struct PointKeywordModel<T> {
    pub iteration: int,
    pub time: Seq<u32>,
    pub metrics: Seq<(Seq<u32>, T)>,
}

/// The first metric under a name.
pub open spec fn metric_of<T>(metrics: Seq<(Seq<u32>, T)>, name: Seq<u32>) -> Option<T>
    decreases metrics.len(),
{
    if metrics.len() == 0 {
        None
    } else if metrics[0].0 == name {
        Some(metrics[0].1)
    } else {
        metric_of(metrics.drop_first(), name)
    }
}

/// The value of a keyword.
pub open spec fn keyword_value<M: RlLosslessCheckpointFormatValue<F>, F: FloatFormat>(
    keywords: PointKeywordModel<M>,
    name: Seq<u32>,
) -> Result<PointModel<M::Model, F>, Seq<char>> {
    if named(name, "iter"@) {
        Ok(PointModel::Scalar(LosslessModel::Integer(keywords.iteration)))
    } else if named(name, "time"@) {
        Ok(PointModel::Scalar(LosslessModel::Text(keywords.time)))
    } else {
        match metric_of(keywords.metrics, name) {
            Some(metric) => Ok(PointModel::Metric(metric.model())),
            None => Err("missing checkpoint keyword "@ + listed(name)),
        }
    }
}

/// The value that a field's name refers to.
pub open spec fn resolved<M: RlLosslessCheckpointFormatValue<F>, F: FloatFormat>(
    keywords: PointKeywordModel<M>,
    name: Seq<u32>,
) -> Result<PointModel<M::Model, F>, Seq<char>> {
    let end = attribute_end(name, 0);
    let first = name.take(end);
    let positional: Result<PointModel<M::Model, F>, Seq<char>> = Err(
        "checkpoint format has no positional arguments"@,
    );
    if first.len() == 0 {
        positional
    } else {
        match index_of(first) {
            Err(error) => Err(error),
            Ok(Some(_)) => positional,
            Ok(None) => match keyword_value::<M, F>(keywords, first) {
                Err(error) => Err(error),
                Ok(value) => path_value::<M, F>(value, name, end),
            },
        }
    }
}

/// A text with everything beyond ASCII escaped.
pub open spec fn ascii_points(text: Seq<u32>) -> Seq<u32>
    decreases text.len(),
{
    if text.len() == 0 {
        Seq::empty()
    } else {
        ascii_points(text.drop_last()) + if text.last() <= 127 {
            seq![text.last()]
        } else {
            points_of(escaped_point(text.last() as int))
        }
    }
}

/// A value after the conversion of its field.
pub open spec fn converted<M: RlLosslessCheckpointFormatValue<F>, F: FloatFormat>(
    value: PointModel<M::Model, F>,
    conversion: Option<u32>,
) -> Result<PointModel<M::Model, F>, Seq<char>> {
    match conversion {
        None => Ok(value),
        Some(ch) => if ch == 0 {
            Ok(value)
        } else if ch == 115 || ch == 114 || ch == 97 {
            match value_text::<M, F>(value, ch != 115) {
                Err(error) => Err(error),
                Ok(text) => Ok(
                    PointModel::Scalar(
                        LosslessModel::Text(
                            if ch == 97 {
                                ascii_points(text)
                            } else {
                                text
                            },
                        ),
                    ),
                ),
            }
        } else {
            Err("unknown checkpoint conversion U+"@ + upper_hex(ch as nat, 4))
        },
    }
}

/// Puts a text before a rendering.
pub open spec fn before_text(text: Seq<u32>, rest: PointResult) -> PointResult {
    match rest {
        Ok(tail) => Ok(text + tail),
        Err(error) => Err(error),
    }
}

/// What a field renders to, given what its specification renders to.
pub open spec fn field_rendered<M: RlLosslessCheckpointFormatValue<F>, F: FloatFormat>(
    keywords: PointKeywordModel<M>,
    name: Seq<u32>,
    conversion: Option<u32>,
    spec: PointResult,
    answer: Answer,
) -> PointResult {
    match resolved::<M, F>(keywords, name) {
        Err(error) => Err(error),
        Ok(value) => match converted::<M, F>(value, conversion) {
            Err(error) => Err(error),
            Ok(shown) => match spec {
                Err(error) => Err(error),
                Ok(layout) => value_format::<M, F>(shown, layout, answer),
            },
        },
    }
}

/// What a template renders to from a position on. Doubled braces stand for themselves; a
/// specification may hold fields of its own, one level deep. The template itself begins at a place of
/// the whole text, by which the answers are found.
pub open spec fn rendered_from<M: RlLosslessCheckpointFormatValue<F>, F: FloatFormat>(
    keywords: PointKeywordModel<M>,
    template: Seq<u32>,
    at: int,
    depth: nat,
    place: int,
    given: FieldAnswers,
) -> PointResult
    decreases depth, template.len() - at,
{
    if depth == 0 {
        Err("checkpoint format recursion exceeded"@)
    } else if at < 0 || at >= template.len() {
        Ok(Seq::empty())
    } else if template[at] != 123 && template[at] != 125 {
        before_text(seq![template[at]], rendered_from::<M, F>(keywords, template, at + 1, depth, place, given))
    } else if at + 1 < template.len() && template[at + 1] == template[at] {
        before_text(seq![template[at]], rendered_from::<M, F>(keywords, template, at + 2, depth, place, given))
    } else if template[at] == 125 {
        Err("single '}' in checkpoint format"@)
    } else {
        match field_cut(template, at + 1) {
            Err(error) => Err(error),
            Ok(cut) => {
                let layout = template.subrange(cut.spec_start, cut.spec_end);
                let spec = if layout.contains(123) {
                    rendered_from::<M, F>(keywords, layout, 0, (depth - 1) as nat, place + cut.spec_start, given)
                } else {
                    Ok(layout)
                };
                let name = template.subrange(at + 1, cut.name_end);
                match field_rendered::<M, F>(keywords, name, cut.conversion, spec, given(place + at)) {
                    Err(error) => Err(error),
                    Ok(text) => if cut.next <= at || cut.next > template.len() {
                        Ok(text)
                    } else {
                        before_text(text, rendered_from::<M, F>(keywords, template, cut.next, depth, place, given))
                    },
                }
            },
        }
    }
}

/// What a template can refer to.
pub struct PointKeywords<'a, M> {
    pub iteration: &'a Integer,
    pub time: &'a RlCheckpointText,
    pub metrics: &'a [(RlCheckpointText, M)],
}

/// Metrics by the code points of their names.
pub open spec fn metric_entries<M>(metrics: Seq<(RlCheckpointText, M)>) -> Seq<(Seq<u32>, M)> {
    metrics.map_values(|entry: (RlCheckpointText, M)| (entry.0@, entry.1))
}

impl<'a, M> View for PointKeywords<'a, M> {
    type V = PointKeywordModel<M>;

    open spec fn view(&self) -> PointKeywordModel<M> {
        PointKeywordModel {
            iteration: self.iteration@,
            time: self.time@,
            metrics: metric_entries(self.metrics@),
        }
    }
}

fn find_metric<'a, M>(metrics: &'a [(RlCheckpointText, M)], name: &RlCheckpointText) -> (result: Option<&'a M>)
    ensures
        match result {
            Some(metric) => metric_of(metric_entries(metrics@), name@) == Some(*metric),
            None => metric_of(metric_entries(metrics@), name@) is None,
        },
{
    let ghost all = metric_entries(metrics@);
    let mut i: usize = 0;
    assert(all.skip(0) =~= all);
    while i < metrics.len()
        invariant
            i <= metrics@.len(),
            all == metric_entries(metrics@),
            metric_of(all, name@) == metric_of(all.skip(i as int), name@),
        decreases metrics@.len() - i,
    {
        assert(all.skip(i as int)[0] == all[i as int]);
        assert(all.skip(i as int).drop_first() =~= all.skip(i + 1));
        if metrics[i].0.equals(name) {
            return Some(&metrics[i].1);
        }
        i += 1;
    }
    assert(all.skip(i as int) =~= Seq::<(Seq<u32>, M)>::empty());
    None
}

enum Held<'a, M, F> {
    Borrowed(&'a M),
    Owned(PointValue<M, F>),
}

spec fn held_model<M: RlLosslessCheckpointFormatValue<F>, F: FloatFormat>(held: Held<M, F>) -> PointModel<M::Model, F> {
    match held {
        Held::Borrowed(metric) => PointModel::Metric(metric.model()),
        Held::Owned(value) => point_model(value),
    }
}

fn access<'a, M: RlLosslessCheckpointFormatValue<F>, F: FloatFormat>(
    held: &Held<'a, M, F>,
    attribute: bool,
    name: RlCheckpointText,
) -> (result: Result<PointValue<M, F>, String>)
    ensures
        found_model(result) == value_access::<M, F>(held_model(*held), attribute, name@),
{
    if attribute {
        match held {
            Held::Borrowed(metric) => metric.attribute(&name),
            Held::Owned(PointValue::Metric(metric)) => metric.attribute(&name),
            Held::Owned(PointValue::Scalar(scalar)) => match scalar.plain_attribute(&name) {
                Ok(value) => Ok(PointValue::Scalar(value)),
                Err(error) => Err(error),
            },
        }
    } else {
        let key = match integer_index(name.as_code_points()) {
            Err(error) => return Err(error),
            Ok(Some(index)) => RlLosslessCheckpointFieldIndex::Integer(index),
            Ok(None) => RlLosslessCheckpointFieldIndex::Key(name),
        };
        match held {
            Held::Borrowed(metric) => metric.item(key),
            Held::Owned(PointValue::Metric(metric)) => metric.item(key),
            Held::Owned(PointValue::Scalar(scalar)) => match scalar.plain_item(key) {
                Ok(value) => Ok(PointValue::Scalar(value)),
                Err(error) => Err(error),
            },
        }
    }
}

fn represent<'a, M: RlLosslessCheckpointFormatValue<F>, F: FloatFormat>(held: &Held<'a, M, F>, repr: bool) -> (result: Result<
    RlCheckpointText,
    String,
>)
    ensures
        point_result(result) == value_text::<M, F>(held_model(*held), repr),
{
    match held {
        Held::Borrowed(metric) => metric.representation(repr),
        Held::Owned(PointValue::Metric(metric)) => metric.representation(repr),
        Held::Owned(PointValue::Scalar(scalar)) => scalar.plain_text(repr),
    }
}

fn format_held<'a, M: RlLosslessCheckpointFormatValue<F>, F: FloatFormat, P: RlCheckpointLocaleProvider>(
    held: &Held<'a, M, F>,
    spec: &RlCheckpointText,
    locale: &P,
) -> (result: Result<RlCheckpointText, String>)
    ensures
        exists|answer: Answer| #[trigger]
            answers(*locale, answer) && point_result(result) == value_format::<M, F>(held_model(*held), spec@, answer),
{
    match held {
        Held::Borrowed(metric) => metric.format_with_locale(spec, locale),
        Held::Owned(PointValue::Metric(metric)) => metric.format_with_locale(spec, locale),
        Held::Owned(PointValue::Scalar(scalar)) => format_lossless(scalar, spec, locale),
    }
}

fn missing_keyword(name: &RlCheckpointText) -> (result: String)
    ensures
        result@ == "missing checkpoint keyword "@ + listed(name@),
{
    let mut message = to_chars("missing checkpoint keyword ");
    append_listed(&mut message, name.as_code_points());
    from_chars(message.as_slice())
}

fn resolve<'a, M: RlLosslessCheckpointFormatValue<F>, F: FloatFormat>(
    keywords: &PointKeywords<'a, M>,
    name: &RlCheckpointText,
) -> (result: Result<Held<'a, M, F>, String>)
    ensures
        match result {
            Ok(held) => resolved::<M, F>(keywords@, name@) == Ok::<PointModel<M::Model, F>, Seq<char>>(
                held_model(held),
            ),
            Err(error) => resolved::<M, F>(keywords@, name@) == Err::<PointModel<M::Model, F>, Seq<char>>(error@),
        },
{
    let points = name.as_code_points();
    let end: usize = skip_attribute(points, 0);
    let first = name.sliced(0, end);
    assert(first@ =~= name@.take(end as int));
    if first.is_empty() {
        return Err("checkpoint format has no positional arguments".to_owned());
    }
    match integer_index(first.as_code_points()) {
        Err(error) => return Err(error),
        Ok(Some(_)) => return Err("checkpoint format has no positional arguments".to_owned()),
        Ok(None) => {},
    }
    let mut held: Held<'a, M, F> = if is_named(&first, "iter") {
        Held::Owned(PointValue::Scalar(RlLosslessCheckpointValue::Integer(keywords.iteration.copied())))
    } else if is_named(&first, "time") {
        Held::Owned(PointValue::Scalar(RlLosslessCheckpointValue::Text(keywords.time.copied())))
    } else {
        match find_metric(keywords.metrics, &first) {
            Some(metric) => Held::Borrowed(metric),
            None => return Err(missing_keyword(&first)),
        }
    };
    let mut at: usize = end;
    while at < points.len()
        invariant
            at <= points@.len(),
            points@ == name@,
            resolved::<M, F>(keywords@, name@) == path_value::<M, F>(held_model(held), name@, at as int),
        decreases points@.len() - at,
    {
        let found = match part(points, at) {
            Ok(found) => found,
            Err(error) => return Err(error),
        };
        let key = name.sliced(found.start, found.end);
        let next = match access(&held, found.attribute, key) {
            Ok(next) => next,
            Err(error) => return Err(error),
        };
        held = Held::Owned(next);
        at = found.next;
    }
    Ok(held)
}

fn ascii_lossless(text: &RlCheckpointText) -> (result: RlCheckpointText)
    ensures
        result@ == ascii_points(text@),
{
    let points = text.as_code_points();
    let mut output: Vec<u32> = Vec::new();
    let mut i: usize = 0;
    while i < points.len()
        invariant
            i <= points@.len(),
            points@ == text@,
            output@ == ascii_points(points@.take(i as int)),
            all_points(output@),
        decreases points@.len() - i,
    {
        let ghost before = output@;
        proof {
            assert(points@.take(i + 1).drop_last() =~= points@.take(i as int));
            assert(points@.take(i + 1).last() == points@[i as int]);
        }
        if points[i] <= 127 {
            output.push(points[i]);
            assert(output@ =~= before + seq![points@[i as int]]);
        } else {
            let mut escaped: Vec<char> = Vec::new();
            append_escaped(&mut escaped, points[i]);
            assert(escaped@ =~= escaped_point(points@[i as int] as int));
            let escaped_text = from_chars(escaped.as_slice());
            let more = RlCheckpointText::from_utf8(escaped_text.as_str());
            append_points(&mut output, more.as_code_points());
        }
        i += 1;
    }
    assert(points@.take(i as int) =~= points@);
    RlCheckpointText::from_points(output)
}

fn append_points(target: &mut Vec<u32>, source: &[u32])
    requires
        all_points(old(target)@),
        all_points(source@),
    ensures
        final(target)@ == old(target)@ + source@,
        all_points(final(target)@),
{
    let mut i: usize = 0;
    assert(target@ =~= old(target)@ + source@.take(0));
    while i < source.len()
        invariant
            i <= source@.len(),
            all_points(source@),
            all_points(target@),
            target@ == old(target)@ + source@.take(i as int),
        decreases source@.len() - i,
    {
        target.push(source[i]);
        i += 1;
        assert(target@ =~= old(target)@ + source@.take(i as int));
    }
    assert(source@.take(i as int) =~= source@);
}

fn convert<'a, M: RlLosslessCheckpointFormatValue<F>, F: FloatFormat>(held: Held<'a, M, F>, conversion: Option<u32>) -> (result: Result<
    Held<'a, M, F>,
    String,
>)
    ensures
        match result {
            Ok(shown) => converted::<M, F>(held_model(held), conversion) == Ok::<PointModel<M::Model, F>, Seq<char>>(
                held_model(shown),
            ),
            Err(error) => converted::<M, F>(held_model(held), conversion) == Err::<PointModel<M::Model, F>, Seq<char>>(
                error@,
            ),
        },
{
    let ch: u32 = match conversion {
        None => return Ok(held),
        Some(ch) => ch,
    };
    if ch == 0 {
        return Ok(held);
    }
    if ch != 115 && ch != 114 && ch != 97 {
        let mut message = to_chars("unknown checkpoint conversion U+");
        append_upper_hex(&mut message, ch, 4);
        return Err(from_chars(message.as_slice()));
    }
    let text = match represent(&held, ch != 115) {
        Ok(text) => text,
        Err(error) => return Err(error),
    };
    let shown = if ch == 97 {
        ascii_lossless(&text)
    } else {
        text
    };
    Ok(Held::Owned(PointValue::Scalar(RlLosslessCheckpointValue::Text(shown))))
}

fn holds_brace(text: &[u32]) -> (result: bool)
    ensures
        result == text@.contains(123),
{
    let mut i: usize = 0;
    while i < text.len()
        invariant
            i <= text@.len(),
            forall|j: int| 0 <= j < i ==> text@[j] != 123,
        decreases text@.len() - i,
    {
        if text[i] == 123 {
            assert(text@[i as int] == 123);
            return true;
        }
        i += 1;
    }
    false
}

/// Whether a template renders to a result under all answers that agree with the known ones at its own
/// places.
#[verifier::opaque]
spec fn renders<M: RlLosslessCheckpointFormatValue<F>, F: FloatFormat>(
    keywords: PointKeywordModel<M>,
    template: Seq<u32>,
    depth: nat,
    place: int,
    known: FieldAnswers,
    result: PointResult,
) -> bool {
    forall|given: FieldAnswers|
        agree(given, known, place, place + template.len()) ==> #[trigger] rendered_from::<M, F>(
            keywords,
            template,
            0,
            depth,
            place,
            given,
        ) == result
}

/// Whether a template renders to an output and what follows from a position on, under all answers
/// that agree with the known ones before it.
#[verifier::opaque]
spec fn renders_up_to<M: RlLosslessCheckpointFormatValue<F>, F: FloatFormat>(
    keywords: PointKeywordModel<M>,
    template: Seq<u32>,
    at: int,
    depth: nat,
    place: int,
    known: FieldAnswers,
    output: Seq<u32>,
) -> bool {
    forall|given: FieldAnswers|
        agree(given, known, place, place + at) ==> #[trigger] rendered_from::<M, F>(
            keywords,
            template,
            0,
            depth,
            place,
            given,
        ) == before_text(output, rendered_from::<M, F>(keywords, template, at, depth, place, given))
}

/// Whether a field at a position renders to a text and leads to the next position, or fails, under
/// all answers that agree with the known ones at its own places.
#[verifier::opaque]
spec fn field_renders<M: RlLosslessCheckpointFormatValue<F>, F: FloatFormat>(
    keywords: PointKeywordModel<M>,
    template: Seq<u32>,
    at: int,
    depth: nat,
    place: int,
    known: FieldAnswers,
    result: Result<(Seq<u32>, int), Seq<char>>,
) -> bool {
    match result {
        Ok((text, next)) => forall|given: FieldAnswers|
            agree(given, known, place + at, place + next) ==> #[trigger] rendered_from::<M, F>(
                keywords,
                template,
                at,
                depth,
                place,
                given,
            ) == before_text(text, rendered_from::<M, F>(keywords, template, next, depth, place, given)),
        Err(error) => forall|given: FieldAnswers|
            agree(given, known, place + at, place + template.len()) ==> #[trigger] rendered_from::<M, F>(
                keywords,
                template,
                at,
                depth,
                place,
                given,
            ) == Err::<Seq<u32>, Seq<char>>(error),
    }
}

/// A rendered field, by its contents.
spec fn field_model(result: Result<(RlCheckpointText, usize), String>) -> Result<(Seq<u32>, int), Seq<char>> {
    match result {
        Ok((text, next)) => Ok((text@, next as int)),
        Err(error) => Err(error@),
    }
}

/// Whether a field at a position is cut, found and converted.
spec fn field_reaches<M: RlLosslessCheckpointFormatValue<F>, F: FloatFormat>(
    keywords: PointKeywordModel<M>,
    template: Seq<u32>,
    at: int,
    cut: FieldCut,
    shown: PointModel<M::Model, F>,
) -> bool {
    &&& field_begins(template, at)
    &&& field_cut(template, at + 1) == Ok::<FieldCut, Seq<char>>(cut)
    &&& at < cut.spec_start <= cut.spec_end <= cut.next <= template.len()
    &&& at < cut.next
    &&& match resolved::<M, F>(keywords, template.subrange(at + 1, cut.name_end)) {
        Ok(value) => converted::<M, F>(value, cut.conversion) == Ok::<PointModel<M::Model, F>, Seq<char>>(shown),
        Err(_) => false,
    }
}

/// Whether a field begins at a position.
spec fn field_begins(template: Seq<u32>, at: int) -> bool {
    &&& 0 <= at < template.len()
    &&& template[at] == 123
    &&& at + 1 < template.len() ==> template[at + 1] != 123
}

/// Why a field cannot be shown, whatever its specification.
spec fn field_failure<M: RlLosslessCheckpointFormatValue<F>, F: FloatFormat>(keywords: PointKeywordModel<M>, template: Seq<u32>, at: int) -> Option<
    Seq<char>,
> {
    match field_cut(template, at + 1) {
        Err(error) => Some(error),
        Ok(cut) => match resolved::<M, F>(keywords, template.subrange(at + 1, cut.name_end)) {
            Err(error) => Some(error),
            Ok(value) => match converted::<M, F>(value, cut.conversion) {
                Err(error) => Some(error),
                Ok(_) => None,
            },
        },
    }
}

proof fn field_fails<M: RlLosslessCheckpointFormatValue<F>, F: FloatFormat>(
    keywords: PointKeywordModel<M>,
    template: Seq<u32>,
    at: int,
    depth: nat,
    place: int,
    known: FieldAnswers,
    error: Seq<char>,
)
    requires
        depth > 0,
        field_begins(template, at),
        field_failure::<M, F>(keywords, template, at) == Some(error),
    ensures
        field_renders::<M, F>(keywords, template, at, depth, place, known, Err(error)),
{
    reveal(field_renders);
}

proof fn specification_fails<M: RlLosslessCheckpointFormatValue<F>, F: FloatFormat>(
    keywords: PointKeywordModel<M>,
    template: Seq<u32>,
    at: int,
    depth: nat,
    place: int,
    known: FieldAnswers,
    cut: FieldCut,
    shown: PointModel<M::Model, F>,
    error: Seq<char>,
)
    requires
        depth > 0,
        field_reaches::<M, F>(keywords, template, at, cut, shown),
        template.subrange(cut.spec_start, cut.spec_end).contains(123),
        renders::<M, F>(
            keywords,
            template.subrange(cut.spec_start, cut.spec_end),
            (depth - 1) as nat,
            place + cut.spec_start,
            known,
            Err(error),
        ),
    ensures
        field_renders::<M, F>(keywords, template, at, depth, place, known, Err(error)),
{
    reveal(field_renders);
    reveal(renders);
    let layout = template.subrange(cut.spec_start, cut.spec_end);
    assert forall|given: FieldAnswers|
        agree(given, known, place + at, place + template.len()) implies #[trigger] rendered_from::<M, F>(
        keywords,
        template,
        at,
        depth,
        place,
        given,
    ) == Err::<Seq<u32>, Seq<char>>(error) by {
        assert(agree(given, known, place + cut.spec_start, place + cut.spec_start + layout.len()));
        assert(rendered_from::<M, F>(keywords, layout, 0, (depth - 1) as nat, place + cut.spec_start, given) == Err::<
            Seq<u32>,
            Seq<char>,
        >(error));
    }
}

proof fn field_is_formatted<M: RlLosslessCheckpointFormatValue<F>, F: FloatFormat>(
    keywords: PointKeywordModel<M>,
    template: Seq<u32>,
    at: int,
    depth: nat,
    place: int,
    known: FieldAnswers,
    answer: Answer,
    cut: FieldCut,
    shown: PointModel<M::Model, F>,
    spec: Seq<u32>,
)
    requires
        depth > 0,
        field_reaches::<M, F>(keywords, template, at, cut, shown),
        ({
            let layout = template.subrange(cut.spec_start, cut.spec_end);
            if layout.contains(123) {
                renders::<M, F>(keywords, layout, (depth - 1) as nat, place + cut.spec_start, known, Ok(spec))
            } else {
                spec == layout
            }
        }),
    ensures
        field_renders::<M, F>(
            keywords,
            template,
            at,
            depth,
            place,
            spliced(known, always(answer), place + at, place + at + 1),
            match value_format::<M, F>(shown, spec, answer) {
                Ok(text) => Ok((text, cut.next)),
                Err(error) => Err(error),
            },
        ),
{
    reveal(field_renders);
    reveal(renders);
    let layout = template.subrange(cut.spec_start, cut.spec_end);
    let both = spliced(known, always(answer), place + at, place + at + 1);
    let from = place + cut.spec_start;
    assert forall|given: FieldAnswers, to: int|
        to >= place + cut.next && #[trigger] agree(given, both, place + at, to) implies field_rendered::<M, F>(
        keywords,
        template.subrange(at + 1, cut.name_end),
        cut.conversion,
        if layout.contains(123) {
            rendered_from::<M, F>(keywords, layout, 0, (depth - 1) as nat, from, given)
        } else {
            Ok(layout)
        },
        given(place + at),
    ) == value_format::<M, F>(shown, spec, answer) by {
        assert(given(place + at) == both(place + at));
        if layout.contains(123) {
            assert forall|p: int| from <= p < from + layout.len() implies #[trigger] given(p) == known(p) by {
                assert(given(p) == both(p));
            }
            assert(agree(given, known, from, from + layout.len()));
        }
    }
}

proof fn rendering_begins<M: RlLosslessCheckpointFormatValue<F>, F: FloatFormat>(
    keywords: PointKeywordModel<M>,
    template: Seq<u32>,
    depth: nat,
    place: int,
    known: FieldAnswers,
)
    ensures
        renders_up_to::<M, F>(keywords, template, 0, depth, place, known, Seq::empty()),
{
    reveal(renders_up_to);
    assert forall|rest: PointResult| #[trigger] before_text(Seq::empty(), rest) == rest by {
        if rest is Ok {
            assert(Seq::<u32>::empty() + rest->Ok_0 =~= rest->Ok_0);
        }
    }
}

proof fn rendering_ends<M: RlLosslessCheckpointFormatValue<F>, F: FloatFormat>(
    keywords: PointKeywordModel<M>,
    template: Seq<u32>,
    depth: nat,
    place: int,
    known: FieldAnswers,
    output: Seq<u32>,
)
    requires
        depth > 0,
        renders_up_to::<M, F>(keywords, template, template.len() as int, depth, place, known, output),
    ensures
        renders::<M, F>(keywords, template, depth, place, known, Ok(output)),
{
    reveal(renders_up_to);
    reveal(renders);
    assert(output + Seq::<u32>::empty() =~= output);
}

proof fn nothing_is_rendered<M: RlLosslessCheckpointFormatValue<F>, F: FloatFormat>(
    keywords: PointKeywordModel<M>,
    template: Seq<u32>,
    place: int,
    known: FieldAnswers,
)
    ensures
        renders::<M, F>(keywords, template, 0, place, known, Err("checkpoint format recursion exceeded"@)),
{
    reveal(renders);
}

proof fn character_goes_on<M: RlLosslessCheckpointFormatValue<F>, F: FloatFormat>(
    keywords: PointKeywordModel<M>,
    template: Seq<u32>,
    at: int,
    next: int,
    depth: nat,
    place: int,
    known: FieldAnswers,
    output: Seq<u32>,
)
    requires
        depth > 0,
        0 <= at < template.len(),
        renders_up_to::<M, F>(keywords, template, at, depth, place, known, output),
        if template[at] != 123 && template[at] != 125 {
            next == at + 1
        } else {
            at + 1 < template.len() && template[at + 1] == template[at] && next == at + 2
        },
    ensures
        renders_up_to::<M, F>(keywords, template, next, depth, place, known, output.push(template[at])),
{
    reveal(renders_up_to);
    assert forall|given: FieldAnswers| agree(given, known, place, place + next) implies #[trigger] rendered_from::<M, F>(
        keywords,
        template,
        0,
        depth,
        place,
        given,
    ) == before_text(output.push(template[at]), rendered_from::<M, F>(keywords, template, next, depth, place, given)) by {
        assert(agree(given, known, place, place + at));
        before_text_joins(
            output,
            seq![template[at]],
            rendered_from::<M, F>(keywords, template, next, depth, place, given),
        );
        assert(output + seq![template[at]] =~= output.push(template[at]));
    }
}

proof fn brace_fails<M: RlLosslessCheckpointFormatValue<F>, F: FloatFormat>(
    keywords: PointKeywordModel<M>,
    template: Seq<u32>,
    at: int,
    depth: nat,
    place: int,
    known: FieldAnswers,
    output: Seq<u32>,
)
    requires
        depth > 0,
        0 <= at < template.len(),
        renders_up_to::<M, F>(keywords, template, at, depth, place, known, output),
        template[at] == 125,
        at + 1 < template.len() ==> template[at + 1] != 125,
    ensures
        renders::<M, F>(keywords, template, depth, place, known, Err("single '}' in checkpoint format"@)),
{
    reveal(renders_up_to);
    reveal(renders);
    assert forall|given: FieldAnswers| agree(given, known, place, place + template.len()) implies #[trigger] rendered_from::<
        M,
        F,
    >(keywords, template, 0, depth, place, given) == Err::<Seq<u32>, Seq<char>>("single '}' in checkpoint format"@) by {
        assert(agree(given, known, place, place + at));
    }
}

proof fn field_goes_on<M: RlLosslessCheckpointFormatValue<F>, F: FloatFormat>(
    keywords: PointKeywordModel<M>,
    template: Seq<u32>,
    at: int,
    next: int,
    depth: nat,
    place: int,
    known: FieldAnswers,
    inner: FieldAnswers,
    output: Seq<u32>,
    text: Seq<u32>,
)
    requires
        0 <= at < next <= template.len(),
        renders_up_to::<M, F>(keywords, template, at, depth, place, known, output),
        field_renders::<M, F>(keywords, template, at, depth, place, inner, Ok((text, next))),
    ensures
        renders_up_to::<M, F>(
            keywords,
            template,
            next,
            depth,
            place,
            spliced(known, inner, place + at, place + template.len()),
            output + text,
        ),
{
    reveal(renders_up_to);
    reveal(field_renders);
    let both = spliced(known, inner, place + at, place + template.len());
    assert forall|given: FieldAnswers| agree(given, both, place, place + next) implies #[trigger] rendered_from::<M, F>(
        keywords,
        template,
        0,
        depth,
        place,
        given,
    ) == before_text(output + text, rendered_from::<M, F>(keywords, template, next, depth, place, given)) by {
        assert forall|p: int| place <= p < place + at implies #[trigger] given(p) == known(p) by {
            assert(given(p) == both(p));
        }
        assert(agree(given, known, place, place + at));
        agreement_narrows(given, known, inner, place + at, place + next, place + template.len());
        let rest = rendered_from::<M, F>(keywords, template, next, depth, place, given);
        assert(rendered_from::<M, F>(keywords, template, at, depth, place, given) == before_text(text, rest));
        before_text_joins(output, text, rest);
    }
}

proof fn field_ends<M: RlLosslessCheckpointFormatValue<F>, F: FloatFormat>(
    keywords: PointKeywordModel<M>,
    template: Seq<u32>,
    at: int,
    depth: nat,
    place: int,
    known: FieldAnswers,
    inner: FieldAnswers,
    output: Seq<u32>,
    error: Seq<char>,
)
    requires
        0 <= at < template.len(),
        renders_up_to::<M, F>(keywords, template, at, depth, place, known, output),
        field_renders::<M, F>(keywords, template, at, depth, place, inner, Err(error)),
    ensures
        renders::<M, F>(
            keywords,
            template,
            depth,
            place,
            spliced(known, inner, place + at, place + template.len()),
            Err(error),
        ),
{
    reveal(renders_up_to);
    reveal(renders);
    reveal(field_renders);
    let both = spliced(known, inner, place + at, place + template.len());
    assert forall|given: FieldAnswers| agree(given, both, place, place + template.len()) implies #[trigger] rendered_from::<
        M,
        F,
    >(keywords, template, 0, depth, place, given) == Err::<Seq<u32>, Seq<char>>(error) by {
        assert forall|p: int| place <= p < place + at implies #[trigger] given(p) == known(p) by {
            assert(given(p) == both(p));
        }
        assert(agree(given, known, place, place + at));
        let end = place + template.len();
        agreement_narrows(given, known, inner, place + at, end, end);
        assert(rendered_from::<M, F>(keywords, template, at, depth, place, given) == Err::<Seq<u32>, Seq<char>>(error));
    }
}

/// Renders the field at a position, and says where it ends.
fn render_field<'a, M: RlLosslessCheckpointFormatValue<F>, F: FloatFormat, P: RlCheckpointLocaleProvider>(
    keywords: &PointKeywords<'a, M>,
    template: &RlCheckpointText,
    at: usize,
    depth: u8,
    locale: &P,
    Ghost(place): Ghost<int>,
) -> (result: Result<(RlCheckpointText, usize), String>)
    requires
        depth > 0,
        field_begins(template@, at as int),
    ensures
        exists|known: FieldAnswers| #[trigger]
            all_answer(*locale, known) && field_renders::<M, F>(
                keywords@,
                template@,
                at as int,
                depth as nat,
                place,
                known,
                field_model(result),
            ),
        result matches Ok((_, next)) ==> at < next <= template@.len(),
    decreases depth, 0nat,
{
    let ghost mut known: FieldAnswers = always(some_answer(*locale));
    proof {
        providers_answer(*locale);
        always_answers(*locale, some_answer(*locale));
    }
    let points = template.as_code_points();
    let length: usize = points.len();
    assert(at < length);
    let found = match field(points, at + 1) {
        Ok(found) => found,
        Err(error) => {
            proof {
                field_fails::<M, F>(keywords@, template@, at as int, depth as nat, place, known, error@);
            }
            return Err(error);
        },
    };
    let name = template.sliced(at + 1, found.name_end);
    let held = match resolve::<M, F>(keywords, &name) {
        Ok(held) => held,
        Err(error) => {
            proof {
                field_fails::<M, F>(keywords@, template@, at as int, depth as nat, place, known, error@);
            }
            return Err(error);
        },
    };
    let shown = match convert(held, found.conversion) {
        Ok(shown) => shown,
        Err(error) => {
            proof {
                field_fails::<M, F>(keywords@, template@, at as int, depth as nat, place, known, error@);
            }
            return Err(error);
        },
    };
    let layout = template.sliced(found.spec_start, found.spec_end);
    let ghost cut = found@;
    assert(field_reaches::<M, F>(keywords@, template@, at as int, cut, held_model(shown)));
    let spec = if holds_brace(layout.as_code_points()) {
        let rendered = render::<M, F, P>(keywords, &layout, depth - 1, locale, Ghost(place + cut.spec_start));
        proof {
            known = choose|known: FieldAnswers| #[trigger]
                all_answer(*locale, known) && renders::<M, F>(
                    keywords@,
                    layout@,
                    (depth - 1) as nat,
                    place + cut.spec_start,
                    known,
                    point_result(rendered),
                );
        }
        match rendered {
            Ok(spec) => spec,
            Err(error) => {
                proof {
                    specification_fails::<M, F>(
                        keywords@,
                        template@,
                        at as int,
                        depth as nat,
                        place,
                        known,
                        cut,
                        held_model(shown),
                        error@,
                    );
                }
                return Err(error);
            },
        }
    } else {
        layout
    };
    let formatted = format_held(&shown, &spec, locale);
    proof {
        let answer = choose|answer: Answer| #[trigger]
            answers(*locale, answer) && point_result(formatted) == value_format::<M, F>(held_model(shown), spec@, answer);
        field_is_formatted::<M, F>(
            keywords@,
            template@,
            at as int,
            depth as nat,
            place,
            known,
            answer,
            cut,
            held_model(shown),
            spec@,
        );
        always_answers(*locale, answer);
        spliced_answers(*locale, known, always(answer), place + at, place + at + 1);
    }
    match formatted {
        Ok(text) => Ok((text, found.next)),
        Err(error) => Err(error),
    }
}

fn render<'a, M: RlLosslessCheckpointFormatValue<F>, F: FloatFormat, P: RlCheckpointLocaleProvider>(
    keywords: &PointKeywords<'a, M>,
    template: &RlCheckpointText,
    depth: u8,
    locale: &P,
    Ghost(place): Ghost<int>,
) -> (result: Result<RlCheckpointText, String>)
    ensures
        exists|known: FieldAnswers| #[trigger]
            all_answer(*locale, known) && renders::<M, F>(
                keywords@,
                template@,
                depth as nat,
                place,
                known,
                point_result(result),
            ),
    decreases depth, 1nat,
{
    let ghost mut known: FieldAnswers = always(some_answer(*locale));
    proof {
        providers_answer(*locale);
        always_answers(*locale, some_answer(*locale));
    }
    if depth == 0 {
        proof {
            nothing_is_rendered::<M, F>(keywords@, template@, place, known);
        }
        return Err("checkpoint format recursion exceeded".to_owned());
    }
    let points = template.as_code_points();
    let length: usize = points.len();
    let mut output: Vec<u32> = Vec::new();
    let mut at: usize = 0;
    proof {
        rendering_begins::<M, F>(keywords@, template@, depth as nat, place, known);
    }
    while at < length
        invariant
            at <= length,
            length == points@.len(),
            points@ == template@,
            all_points(points@),
            all_points(output@),
            depth > 0,
            all_answer(*locale, known),
            renders_up_to::<M, F>(keywords@, template@, at as int, depth as nat, place, known, output@),
        decreases length - at,
    {
        let ch: u32 = points[at];
        if ch != 123 && ch != 125 {
            proof {
                character_goes_on::<M, F>(
                    keywords@,
                    template@,
                    at as int,
                    at + 1,
                    depth as nat,
                    place,
                    known,
                    output@,
                );
            }
            output.push(ch);
            at += 1;
        } else if length - at > 1 && points[at + 1] == ch {
            proof {
                character_goes_on::<M, F>(
                    keywords@,
                    template@,
                    at as int,
                    at + 2,
                    depth as nat,
                    place,
                    known,
                    output@,
                );
            }
            output.push(ch);
            at += 2;
        } else if ch == 125 {
            proof {
                brace_fails::<M, F>(keywords@, template@, at as int, depth as nat, place, known, output@);
            }
            return Err("single '}' in checkpoint format".to_owned());
        } else {
            let rendered = render_field::<M, F, P>(keywords, template, at, depth, locale, Ghost(place));
            let ghost inner = choose|inner: FieldAnswers| #[trigger]
                all_answer(*locale, inner) && field_renders::<M, F>(
                    keywords@,
                    template@,
                    at as int,
                    depth as nat,
                    place,
                    inner,
                    field_model(rendered),
                );
            proof {
                spliced_answers(*locale, known, inner, place + at, place + template@.len());
            }
            match rendered {
                Ok((text, next)) => {
                    proof {
                        field_goes_on::<M, F>(
                            keywords@,
                            template@,
                            at as int,
                            next as int,
                            depth as nat,
                            place,
                            known,
                            inner,
                            output@,
                            text@,
                        );
                        known = spliced(known, inner, place + at, place + template@.len());
                    }
                    append_points(&mut output, text.as_code_points());
                    at = next;
                },
                Err(error) => {
                    proof {
                        field_ends::<M, F>(
                            keywords@,
                            template@,
                            at as int,
                            depth as nat,
                            place,
                            known,
                            inner,
                            output@,
                            error@,
                        );
                    }
                    return Err(error);
                },
            }
        }
    }
    proof {
        rendering_ends::<M, F>(keywords@, template@, depth as nat, place, known, output@);
    }
    Ok(RlCheckpointText::from_points(output))
}

proof fn before_text_joins(first: Seq<u32>, second: Seq<u32>, rest: PointResult)
    ensures
        before_text(first, before_text(second, rest)) == before_text(first + second, rest),
{
    if rest is Ok {
        assert(first + (second + rest->Ok_0) =~= (first + second) + rest->Ok_0);
    }
}

/// What a name template renders to. Metrics must not be named like the two fixed keywords.
pub open spec fn lossless_name<M: RlLosslessCheckpointFormatValue<F>, F: FloatFormat>(
    template: Seq<u32>,
    keywords: PointKeywordModel<M>,
    given: FieldAnswers,
) -> PointResult {
    if metric_of(keywords.metrics, points_of("iter"@)) is Some {
        Err("duplicate checkpoint keyword iter"@)
    } else if metric_of(keywords.metrics, points_of("time"@)) is Some {
        Err("duplicate checkpoint keyword time"@)
    } else {
        rendered_from::<M, F>(keywords, template, 0, 2, 0, given)
    }
}

/// Renders a checkpoint name.
pub fn render_lossless_keywords<'a, M: RlLosslessCheckpointFormatValue<F>, F: FloatFormat, P: RlCheckpointLocaleProvider>(
    template: &RlCheckpointText,
    keywords: &PointKeywords<'a, M>,
    locale: &P,
) -> (result: Result<RlCheckpointText, String>)
    ensures
        exists|given: FieldAnswers| #[trigger]
            all_answer(*locale, given) && point_result(result) == lossless_name::<M, F>(template@, keywords@, given),
{
    proof {
        providers_answer(*locale);
        assert(all_answer(*locale, always(some_answer(*locale))));
    }
    if find_metric(keywords.metrics, &RlCheckpointText::from_utf8("iter")).is_some() {
        return Err("duplicate checkpoint keyword iter".to_owned());
    }
    if find_metric(keywords.metrics, &RlCheckpointText::from_utf8("time")).is_some() {
        return Err("duplicate checkpoint keyword time".to_owned());
    }
    let result = render::<M, F, P>(keywords, template, 2, locale, Ghost(0));
    proof {
        let known = choose|known: FieldAnswers| #[trigger]
            all_answer(*locale, known) && renders::<M, F>(keywords@, template@, 2, 0, known, point_result(result));
        reveal(renders);
        assert(agree(known, known, 0, template@.len() as int));
        assert(rendered_from::<M, F>(keywords@, template@, 0, 2, 0, known) == point_result(result));
    }
    result
}

/// Names over code points in the plain numeric locale.
#[derive(Clone, Copy, Debug)]
pub struct PythonRlLosslessCheckpointName;

impl PythonRlLosslessCheckpointName {
    /// Renders a checkpoint name.
    pub fn render<'a, M: RlLosslessCheckpointFormatValue<F>, F: FloatFormat>(
        &self,
        template: &RlCheckpointText,
        keywords: &PointKeywords<'a, M>,
    ) -> (result: Result<RlCheckpointText, String>)
        ensures
            point_result(result) == lossless_name::<M, F>(template@, keywords@, always(plain_locale())),
    {
        let locale = RlCheckpointNumericLocale::default();
        let result = render_lossless_keywords::<M, F, RlCheckpointNumericLocale>(template, keywords, &locale);
        proof {
            fixed_locales_answer_everywhere(
                locale,
                choose|given: FieldAnswers| #[trigger]
                    all_answer(locale, given) && point_result(result) == lossless_name::<M, F>(template@, keywords@, given),
            );
        }
        result
    }
}

/// Names over code points in the numeric locale of a provider, which is asked field by field.
pub struct LocalizedPythonRlLosslessCheckpointName<P> {
    locale: P,
}

impl<P: RlCheckpointLocaleProvider> LocalizedPythonRlLosslessCheckpointName<P> {
    /// The provider of the numeric locale.
    pub closed spec fn provider(&self) -> P {
        self.locale
    }

    pub fn new(locale: P) -> (result: Self)
        ensures
            result.provider() == locale,
    {
        LocalizedPythonRlLosslessCheckpointName { locale }
    }

    /// Renders a checkpoint name.
    pub fn render<'a, M: RlLosslessCheckpointFormatValue<F>, F: FloatFormat>(
        &self,
        template: &RlCheckpointText,
        keywords: &PointKeywords<'a, M>,
    ) -> (result: Result<RlCheckpointText, String>)
        ensures
            exists|given: FieldAnswers| #[trigger]
                all_answer(self.provider(), given) && point_result(result) == lossless_name::<M, F>(
                    template@,
                    keywords@,
                    given,
                ),
    {
        assert(self.provider() == self.locale);
        assert(self.provider() == self.locale);
        render_lossless_keywords::<M, F, P>(template, keywords, &self.locale)
    }
}

} // verus!
