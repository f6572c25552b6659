//! Formatting of values over code points, around the formats of characters.
use vstd::prelude::*;

use crate::integer::Integer;
use crate::rl_checkpoint_format::{FloatFormat, ScalarModel, TrainingMetricScalar};
use crate::rl_checkpoint_locale::{
    answer_of, answers, begin_local_format, finish_local_format, fixed_locales_answer_themselves,
    format_rl_checkpoint_scalar_with_locale, locale_stage, providers_answer, scalar_localized, Answer, LocalOutcome, LocaleFields, LocaleStage, RlCheckpointLocaleProvider, RlCheckpointNumericLocale,
};
use crate::rl_checkpoint_name::{is_scalar, points_of};
use crate::rl_checkpoint_text::{all_points, point_result, PointResult, RlCheckpointText};
use crate::text::{append_repeated, code_point, from_chars, repeated, text_result, to_chars, TextResult};

verus! {

/// A value of a metric over code points.
pub enum RlLosslessCheckpointValue<F> {
    Integer(Integer),
    Float(F),
    Boolean(bool),
    Text(RlCheckpointText),
    Null,
}

/// A value of a metric over code points, by its contents.
pub enum LosslessModel<F> {
    Integer(int),
    Float(F),
    Boolean(bool),
    Text(Seq<u32>),
    Null,
}

impl<F> View for RlLosslessCheckpointValue<F> {
    type V = LosslessModel<F>;

    open spec fn view(&self) -> LosslessModel<F> {
        match self {
            RlLosslessCheckpointValue::Integer(number) => LosslessModel::Integer(number@),
            RlLosslessCheckpointValue::Float(number) => LosslessModel::Float(*number),
            RlLosslessCheckpointValue::Boolean(flag) => LosslessModel::Boolean(*flag),
            RlLosslessCheckpointValue::Text(text) => LosslessModel::Text(text@),
            RlLosslessCheckpointValue::Null => LosslessModel::Null,
        }
    }
}

/// A specification in which every code point without a character is replaced by a marker.
pub open spec fn tagged(spec: Seq<u32>, marker: char) -> Seq<char> {
    spec.map_values(
        |point: u32| if is_scalar(point) {
            point as char
        } else {
            marker
        },
    )
}

fn tagged_spec(spec: &RlCheckpointText, marker: char) -> (result: String)
    ensures
        result@ == tagged(spec@, marker),
{
    let points = spec.as_code_points();
    let mut chars: Vec<char> = Vec::new();
    let mut i: usize = 0;
    while i < points.len()
        invariant
            i <= points@.len(),
            points@ == spec@,
            chars@ == tagged(points@.take(i as int), marker),
        decreases points@.len() - i,
    {
        match char::from_u32(points[i]) {
            Some(ch) => {
                proof {
                    vstd::utf8::char_u32_cast(ch, points@[i as int]);
                }
                chars.push(ch);
            },
            None => {
                chars.push(marker);
            },
        }
        i += 1;
        assert(chars@ =~= tagged(points@.take(i as int), marker));
    }
    assert(points@.take(i as int) =~= points@);
    from_chars(chars.as_slice())
}

/// The failure of an engine that does not keep its own layout.
pub open spec fn points_broken() -> PointResult {
    Err("the format engine does not keep its layout"@)
}

/// A character that stands for the content of a text: it differs from the fill.
pub open spec fn stand_in(spec: Seq<u32>) -> char {
    if spec.len() > 0 && spec[0] == 120 {
        'y'
    } else {
        'x'
    }
}

/// The fill of a specification, where it has no character.
pub open spec fn raw_fill(spec: Seq<u32>) -> Option<u32> {
    if spec.len() > 0 && !is_scalar(spec[0]) {
        Some(spec[0])
    } else {
        None
    }
}

/// The number of stand-ins among the first characters of a layout.
pub open spec fn used(layout: Seq<char>, mark: char) -> nat
    decreases layout.len(),
{
    if layout.len() == 0 {
        0
    } else {
        used(layout.drop_last(), mark) + if layout.last() == mark {
            1nat
        } else {
            0
        }
    }
}

/// A layout with the content in place of its stand-ins, and the fill in place of its marker.
pub open spec fn filled_in(layout: Seq<char>, mark: char, fill: Option<u32>, content: Seq<u32>) -> Seq<u32>
    decreases layout.len(),
{
    if layout.len() == 0 {
        Seq::empty()
    } else {
        let ch = layout.last();
        let earlier = filled_in(layout.drop_last(), mark, fill, content);
        earlier.push(
            if ch == mark {
                content[used(layout.drop_last(), mark) as int]
            } else if ch == '\u{e000}' && fill is Some {
                fill->Some_0
            } else {
                ch as u32
            },
        )
    }
}

/// What a text over code points formats to: the engine lays out stand-ins, which the content then
/// replaces one by one.
pub open spec fn text_formatted<F: FloatFormat>(text: Seq<u32>, spec: Seq<u32>, answer: Answer) -> PointResult {
    let mark = stand_in(spec);
    match scalar_localized(ScalarModel::<F>::Text(repeated(mark, text.len())), tagged(spec, '\u{e000}'), answer) {
        Err(error) => Err(error),
        Ok(layout) => if used(layout, mark) > text.len() {
            points_broken()
        } else {
            Ok(filled_in(layout, mark, raw_fill(spec), text))
        },
    }
}

proof fn used_grows(layout: Seq<char>, mark: char, count: int)
    requires
        0 <= count <= layout.len(),
    ensures
        used(layout.take(count), mark) <= used(layout, mark),
    decreases layout.len() - count,
{
    if count < layout.len() {
        used_grows(layout, mark, count + 1);
        assert(layout.take(count + 1).drop_last() =~= layout.take(count));
    } else {
        assert(layout.take(count) =~= layout);
    }
}

fn text_format<F: FloatFormat, P: RlCheckpointLocaleProvider>(text: &RlCheckpointText, spec: &RlCheckpointText, locale: &P) -> (result: Result<
    RlCheckpointText,
    String,
>)
    ensures
        exists|answer: Answer| #[trigger]
            answers(*locale, answer) && point_result(result) == text_formatted::<F>(text@, spec@, answer),
{
    let spec_points = spec.as_code_points();
    let mark: char = if spec_points.len() > 0 && spec_points[0] == 120 {
        'y'
    } else {
        'x'
    };
    let mut dummy: Vec<char> = Vec::new();
    append_repeated(&mut dummy, mark, text.len());
    assert(dummy@ =~= repeated(mark, text@.len()));
    let scalar = TrainingMetricScalar::<F>::Text(from_chars(dummy.as_slice()));
    let plain = tagged_spec(spec, '\u{e000}');
    let rendered = format_rl_checkpoint_scalar_with_locale(&scalar, plain.as_str(), locale);
    let ghost answer = choose|answer: Answer| #[trigger]
        answers(*locale, answer) && text_result(rendered) == scalar_localized(scalar@, plain@, answer);
    let layout = match rendered {
        Ok(layout) => to_chars(layout.as_str()),
        Err(error) => return Err(error),
    };
    let fill: Option<u32> = if spec_points.len() > 0 && char::from_u32(spec_points[0]).is_none() {
        Some(spec_points[0])
    } else {
        None
    };
    assert(fill == raw_fill(spec@));
    let content = text.as_code_points();
    let mut points: Vec<u32> = Vec::new();
    let mut next: usize = 0;
    let mut i: usize = 0;
    while i < layout.len()
        invariant
            i <= layout@.len(),
            content@ == text@,
            all_points(content@),
            fill == raw_fill(spec@),
            all_points(spec@),
            mark == stand_in(spec@),
            answers(*locale, answer),
            scalar_localized(ScalarModel::<F>::Text(repeated(mark, text@.len())), tagged(spec@, '\u{e000}'), answer)
                == Ok::<Seq<char>, Seq<char>>(layout@),
            next <= content@.len(),
            next == used(layout@.take(i as int), mark),
            points@ == filled_in(layout@.take(i as int), mark, fill, content@),
            all_points(points@),
        decreases layout@.len() - i,
    {
        let ch: char = layout[i];
        proof {
            assert(layout@.take(i + 1).drop_last() =~= layout@.take(i as int));
            assert(layout@.take(i + 1).last() == ch);
        }
        if ch == mark {
            if next >= content.len() {
                proof {
                    used_grows(layout@, mark, i + 1);
                }
                return Err("the format engine does not keep its layout".to_owned());
            }
            points.push(content[next]);
            next += 1;
        } else if ch == '\u{e000}' && fill.is_some() {
            points.push(fill.unwrap());
        } else {
            points.push(bounded_point(ch));
        }
        i += 1;
    }
    proof {
        assert(layout@.take(i as int) =~= layout@);
    }
    RlCheckpointText::try_from_code_points(points)
}

fn bounded_point(ch: char) -> (result: u32)
    ensures
        result == ch as u32,
        result <= 0x10ffff,
{
    ch as u32
}

/// The plain value behind a value over code points, with a character in place of a surrogate.
pub open spec fn plain_model<F>(value: LosslessModel<F>, surrogate: Option<u32>, marker: char) -> ScalarModel<F> {
    match value {
        LosslessModel::Integer(number) => ScalarModel::Integer(
            if surrogate is Some {
                marker as int
            } else {
                number
            },
        ),
        LosslessModel::Float(number) => ScalarModel::Float(number),
        LosslessModel::Boolean(flag) => ScalarModel::Boolean(flag),
        LosslessModel::Text(_) => ScalarModel::Null,
        LosslessModel::Null => ScalarModel::Null,
    }
}

/// The surrogate that a number is shown as.
pub open spec fn shown_surrogate<F>(value: LosslessModel<F>, spec: Seq<u32>) -> Option<u32> {
    match value {
        LosslessModel::Integer(number) => if spec.len() > 0 && spec.last() == 99 && 0xd800 <= number <= 0xdfff {
            Some(number as u32)
        } else {
            None
        },
        _ => None,
    }
}

/// Whether all code points of a specification have characters.
pub open spec fn scalar_spec(spec: Seq<u32>) -> bool {
    forall|i: int| 0 <= i < spec.len() ==> is_scalar(#[trigger] spec[i])
}

/// The code points of one rendering, or its failure.
pub open spec fn pointed(result: TextResult) -> PointResult {
    match result {
        Ok(text) => Ok(points_of(text)),
        Err(error) => Err(error),
    }
}

/// The locale of the second rendering: the one that the first rendering got, if it asked.
pub open spec fn captured<F: FloatFormat>(value: ScalarModel<F>, spec: Seq<char>, answer: Answer) -> Answer {
    match (locale_stage(value, spec), answer) {
        (LocaleStage::Number(_, _), Ok(locale)) => Ok(locale),
        _ => Ok(LocaleFields { decimal: "."@, separator: Seq::empty(), groups: Seq::empty(), stop: false }),
    }
}

/// Whether two renderings that differ in their markers can be merged at a position.
pub open spec fn mergeable(first: Seq<char>, second: Seq<char>, i: int, surrogate: Option<u32>, spec: Seq<u32>) -> bool {
    first[i] == second[i] || first[i] == '\u{e000}' && spec.len() > 0 || surrogate is Some
}

/// Two renderings that differ only in their markers, merged: the fill and the surrogate take the
/// place of what differs.
pub open spec fn merged(first: Seq<char>, second: Seq<char>, count: int, surrogate: Option<u32>, spec: Seq<u32>) -> Seq<u32> {
    Seq::new(
        count as nat,
        |i: int|
            if first[i] == second[i] {
                first[i] as u32
            } else if first[i] == '\u{e000}' && spec.len() > 0 {
                spec[0]
            } else {
                surrogate->Some_0
            },
    )
}

/// The shorter of two lengths.
pub open spec fn shorter(a: nat, b: nat) -> int {
    if a < b {
        a as int
    } else {
        b as int
    }
}

/// What a value over code points formats to. Where the specification or the number itself has no
/// character, the value is rendered twice with different markers, and what differs is replaced.
pub open spec fn lossless_formatted<F: FloatFormat>(value: LosslessModel<F>, spec: Seq<u32>, answer: Answer) -> PointResult {
    match value {
        LosslessModel::Text(text) => text_formatted::<F>(text, spec, answer),
        _ => {
            let surrogate = shown_surrogate(value, spec);
            if scalar_spec(spec) && surrogate is None {
                pointed(scalar_localized(plain_model(value, None, ' '), tagged(spec, '\u{e000}'), answer))
            } else {
                let one = plain_model(value, surrogate, '\u{e002}');
                let two = plain_model(value, surrogate, '\u{e003}');
                match scalar_localized(one, tagged(spec, '\u{e000}'), answer) {
                    Err(error) => Err(error),
                    Ok(first) => match scalar_localized(
                        two,
                        tagged(spec, '\u{e001}'),
                        captured(one, tagged(spec, '\u{e000}'), answer),
                    ) {
                        Err(error) => Err(error),
                        Ok(second) => {
                            let count = shorter(first.len(), second.len());
                            if forall|i: int| 0 <= i < count ==> #[trigger] mergeable(first, second, i, surrogate, spec) {
                                Ok(merged(first, second, count, surrogate, spec))
                            } else {
                                points_broken()
                            }
                        },
                    },
                }
            }
        },
    }
}

fn has_surrogates(spec: &RlCheckpointText) -> (result: bool)
    ensures
        result == !scalar_spec(spec@),
{
    let points = spec.as_code_points();
    let mut i: usize = 0;
    while i < points.len()
        invariant
            i <= points@.len(),
            points@ == spec@,
            forall|j: int| 0 <= j < i ==> is_scalar(#[trigger] points@[j]),
        decreases points@.len() - i,
    {
        if char::from_u32(points[i]).is_none() {
            assert(!is_scalar(spec@[i as int]));
            return true;
        }
        i += 1;
    }
    false
}

fn plain_scalar<F: FloatFormat>(value: &RlLosslessCheckpointValue<F>, surrogate: Option<u32>, marker: char) -> (result: TrainingMetricScalar<
    F,
>)
    ensures
        result@ == plain_model(value@, surrogate, marker),
{
    match value {
        RlLosslessCheckpointValue::Integer(number) => if surrogate.is_some() {
            TrainingMetricScalar::Integer(Integer::from_i64(code_point(marker) as i64))
        } else {
            TrainingMetricScalar::Integer(number.copied())
        },
        RlLosslessCheckpointValue::Float(number) => TrainingMetricScalar::Float(*number),
        RlLosslessCheckpointValue::Boolean(flag) => TrainingMetricScalar::Boolean(*flag),
        RlLosslessCheckpointValue::Text(_) => TrainingMetricScalar::Null,
        RlLosslessCheckpointValue::Null => TrainingMetricScalar::Null,
    }
}

/// Formats a value and remembers the locale. The provider is asked once, and only where the locale
/// makes a difference.
fn format_and_capture<F: FloatFormat, P: RlCheckpointLocaleProvider>(
    scalar: &TrainingMetricScalar<F>,
    spec: &str,
    locale: &P,
) -> (result: Result<(String, RlCheckpointNumericLocale), String>)
    ensures
        exists|answer: Answer| #[trigger]
            answers(*locale, answer) && match result {
                Ok((text, found)) => scalar_localized(scalar@, spec@, answer) == Ok::<Seq<char>, Seq<char>>(text@)
                    && captured(scalar@, spec@, answer) == Ok::<LocaleFields, Seq<char>>(found@),
                Err(error) => scalar_localized(scalar@, spec@, answer) == Err::<Seq<char>, Seq<char>>(error@),
            },
{
    proof {
        providers_answer(*locale);
    }
    match begin_local_format(scalar, spec) {
        LocalOutcome::Done(rendered) => match rendered {
            Ok(text) => Ok((text, RlCheckpointNumericLocale::default())),
            Err(error) => Err(error),
        },
        LocalOutcome::Number(number) => {
            let said = locale.numeric_locale();
            assert(answers(*locale, answer_of(said)));
            match said {
                Ok(found) => match finish_local_format(scalar, number, &found) {
                    Ok(text) => Ok((text, found)),
                    Err(error) => Err(error),
                },
                Err(error) => Err(error),
            }
        },
    }
}

fn merge(first: &[char], second: &[char], surrogate: Option<u32>, spec: &RlCheckpointText) -> (result: Result<
    RlCheckpointText,
    String,
>)
    requires
        surrogate matches Some(point) ==> point <= 0x10ffff,
    ensures
        ({
            let count = shorter(first@.len(), second@.len());
            match result {
                Ok(text) => (forall|i: int|
                    0 <= i < count ==> #[trigger] mergeable(first@, second@, i, surrogate, spec@)) && text@ == merged(
                    first@,
                    second@,
                    count,
                    surrogate,
                    spec@,
                ),
                Err(error) => error@ == "the format engine does not keep its layout"@ && !(forall|i: int|
                    0 <= i < count ==> #[trigger] mergeable(first@, second@, i, surrogate, spec@)),
            }
        }),
{
    let spec_points = spec.as_code_points();
    let count: usize = if first.len() < second.len() {
        first.len()
    } else {
        second.len()
    };
    let mut points: Vec<u32> = Vec::new();
    let mut i: usize = 0;
    while i < count
        invariant
            i <= count,
            count == shorter(first@.len(), second@.len()),
            spec_points@ == spec@,
            all_points(spec@),
            surrogate matches Some(point) ==> point <= 0x10ffff,
            forall|j: int| 0 <= j < i ==> #[trigger] mergeable(first@, second@, j, surrogate, spec@),
            points@ == merged(first@, second@, i as int, surrogate, spec@),
            all_points(points@),
        decreases count - i,
    {
        if first[i] == second[i] {
            points.push(bounded_point(first[i]));
        } else if first[i] == '\u{e000}' && spec_points.len() > 0 {
            points.push(spec_points[0]);
        } else {
            match surrogate {
                Some(point) => {
                    points.push(point);
                },
                None => {
                    assert(!mergeable(first@, second@, i as int, surrogate, spec@));
                    return Err("the format engine does not keep its layout".to_owned());
                },
            }
        }
        i += 1;
        assert(points@ =~= merged(first@, second@, i as int, surrogate, spec@));
    }
    RlCheckpointText::try_from_code_points(points)
}

/// Formats a value over code points.
pub fn format_lossless<F: FloatFormat, P: RlCheckpointLocaleProvider>(
    value: &RlLosslessCheckpointValue<F>,
    spec: &RlCheckpointText,
    locale: &P,
) -> (result: Result<RlCheckpointText, String>)
    ensures
        exists|answer: Answer| #[trigger]
            answers(*locale, answer) && point_result(result) == lossless_formatted(value@, spec@, answer),
{
    let points = spec.as_code_points();
    let surrogate: Option<u32> = match value {
        RlLosslessCheckpointValue::Text(text) => return text_format::<F, P>(text, spec, locale),
        RlLosslessCheckpointValue::Integer(number) => {
            if points.len() > 0 && points[points.len() - 1] == 99 {
                match number.to_i128() {
                    Some(point) => if 0xd800 <= point && point <= 0xdfff {
                        Some(point as u32)
                    } else {
                        None
                    },
                    None => None,
                }
            } else {
                None
            }
        },
        _ => None,
    };
    assert(surrogate == shown_surrogate(value@, spec@));
    let plain = tagged_spec(spec, '\u{e000}');
    if !has_surrogates(spec) && surrogate.is_none() {
        let scalar = plain_scalar(value, None, ' ');
        return match format_rl_checkpoint_scalar_with_locale(&scalar, plain.as_str(), locale) {
            Ok(text) => Ok(RlCheckpointText::from_utf8(text.as_str())),
            Err(error) => Err(error),
        };
    }
    let one = plain_scalar(value, surrogate, '\u{e002}');
    let captured_format = format_and_capture(&one, plain.as_str(), locale);
    let ghost answer = choose|answer: Answer| #[trigger]
        answers(*locale, answer) && match captured_format {
            Ok((text, found)) => scalar_localized(one@, plain@, answer) == Ok::<Seq<char>, Seq<char>>(text@) && captured(
                one@,
                plain@,
                answer,
            ) == Ok::<LocaleFields, Seq<char>>(found@),
            Err(error) => scalar_localized(one@, plain@, answer) == Err::<Seq<char>, Seq<char>>(error@),
        };
    let (rendered, snapshot) = match captured_format {
        Ok(found) => found,
        Err(error) => return Err(error),
    };
    let first = to_chars(rendered.as_str());
    let two = plain_scalar(value, surrogate, '\u{e003}');
    let other = tagged_spec(spec, '\u{e001}');
    let repeated_format = format_rl_checkpoint_scalar_with_locale(&two, other.as_str(), &snapshot);
    proof {
        fixed_locales_answer_themselves(
            snapshot,
            choose|answer: Answer| #[trigger]
                answers(snapshot, answer) && text_result(repeated_format) == scalar_localized(two@, other@, answer),
        );
    }
    let second = match repeated_format {
        Ok(text) => to_chars(text.as_str()),
        Err(error) => return Err(error),
    };
    merge(first.as_slice(), second.as_slice(), surrogate, spec)
}

} // verus!
