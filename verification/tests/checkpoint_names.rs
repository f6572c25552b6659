//! Names of checkpoints: formats, templates, locales and texts over code points.
use qlib_core::integer::Integer;
use qlib_core::ordered::OrderedMap;
use qlib_core::rl_checkpoint_format::{format_rl_checkpoint_scalar, FloatFormat, NoFloats, TrainingMetricScalar};
use qlib_core::rl_checkpoint_locale::{
    convert_snapshot, format_rl_checkpoint_scalar_with_locale, NumericSnapshot, RlCheckpointLocaleProvider,
    RlCheckpointNumericLocale,
};
use qlib_core::rl_checkpoint_name::{
    ascii_repr, python_string_repr, Keywords, LocalizedPythonRlCheckpointName, PythonRlCheckpointName,
};
use qlib_core::rl_checkpoint_numeric::normalize_numeric_fields;
use qlib_core::rl_checkpoint_text::RlCheckpointText;
use qlib_core::rl_checkpoint_text_format::RlLosslessCheckpointValue;
use qlib_core::rl_checkpoint_text_name::{
    LocalizedPythonRlLosslessCheckpointName, PointKeywords, PythonRlLosslessCheckpointName,
};
use qlib_core::unicode::{decimal_digit, is_assigned, is_hidden, is_printable, CharacterGroup};
use std::cell::Cell;

#[derive(Clone, Copy, Debug, PartialEq)]
struct Float(f64);

impl FloatFormat for Float {
    fn format(&self, spec: &str) -> Result<String, String> {
        pyformat_rs::format_float(self.0, spec).map_err(|error| error.to_string())
    }

    fn is_finite(&self) -> bool {
        self.0.is_finite()
    }

    fn is_percent_finite(&self) -> bool {
        (self.0 * 100.0).is_finite()
    }

    fn zero() -> Self {
        Float(0.0)
    }

    fn from_integer(value: &Integer) -> Option<Self> {
        value.text().parse::<f64>().ok().filter(|number| number.is_finite()).map(Float)
    }
}

type Scalar = TrainingMetricScalar<Float>;

fn integer(value: i64) -> Scalar {
    TrainingMetricScalar::Integer(Integer::from_i64(value))
}

fn float(value: f64) -> Scalar {
    TrainingMetricScalar::Float(Float(value))
}

fn words(text: &str) -> Scalar {
    TrainingMetricScalar::Text(text.to_owned())
}

fn formatted(value: &Scalar, spec: &str) -> String {
    format_rl_checkpoint_scalar(value, spec).unwrap()
}

fn refused(value: &Scalar, spec: &str) -> String {
    format_rl_checkpoint_scalar(value, spec).unwrap_err()
}

#[test]
fn integers_take_formats() {
    assert_eq!(formatted(&integer(7), "03d"), "007");
    assert_eq!(formatted(&integer(-1234567), ",d"), "-1,234,567");
    assert_eq!(formatted(&integer(255), "#x"), "0xff");
    assert_eq!(formatted(&integer(5), "*^7d"), "***5***");
    assert_eq!(formatted(&integer(65), "c"), "A");
    assert_eq!(formatted(&integer(2), ".0%"), "200%");
    assert_eq!(formatted(&integer(3), ".1f"), "3.0");
    assert_eq!(formatted(&integer(7), "!>3d"), "!!7");
    assert!(format_rl_checkpoint_scalar(&integer(7), "!r").is_err());
    assert!(format_rl_checkpoint_scalar(&integer(0xd800), "c").is_err());
}

#[test]
fn widths_of_integers_are_cut_to_their_low_bits() {
    assert_eq!(formatted(&integer(7), "4294967301d"), "    7");
    assert_eq!(formatted(&integer(7), "4294967295d"), "7");
    assert_eq!(formatted(&integer(12345), "4294967301,"), "12,345");
    assert_eq!(refused(&integer(7), "2147483648d"), "format width is too large");
    assert!(refused(&integer(7), ".3000000000d").contains("PrecisionTooBig"));
}

#[test]
fn separators_group_the_digits_of_the_plain_text() {
    for (value, precision) in [(0.1234567, 7), (98765.4321, 6), (-2.5, 3), (1e20, 1)] {
        let plain = formatted(&float(value), &format!(".{precision}f"));
        let grouped = formatted(&float(value), &format!(".{precision}_f"));
        assert_eq!(grouped.replace('_', ""), plain);
        let fraction = grouped.split('.').nth(1).unwrap();
        assert!(fraction.split('_').rev().skip(1).all(|group| group.len() == 3));
    }
}

#[test]
fn floats_take_formats() {
    assert_eq!(formatted(&float(3.14159), ".2f"), "3.14");
    assert_eq!(formatted(&float(12345.678), ">12,.1f"), "    12,345.7");
    assert_eq!(formatted(&float(0.25), "n"), "0.25");
    assert_eq!(refused(&float(0.25), ",n"), "cannot specify grouping with 'n'");
    assert_eq!(formatted(&float(0.25), ",>6n"), ",,0.25");
    assert_eq!(formatted(&float(0.1234567), ".7_f"), "0.123_456_7");
    assert_eq!(formatted(&float(0.1234567), ".>12.7_f"), ".0.123_456_7");
    assert_eq!(refused(&float(0.5), ".3_n"), "cannot specify fractional grouping with 'n'");
}

#[test]
fn large_precisions_are_padded_with_zeros() {
    let text = formatted(&float(0.5), ".10000f");
    assert_eq!(text.len(), 10002);
    assert!(text.starts_with("0.5000"));
    assert!(text[3..].chars().all(|ch| ch == '0'));
    let text = formatted(&float(0.5), "<10010.10000e");
    assert_eq!(text.trim_end().len(), 10006);
    assert!(text.trim_end().ends_with("0e-01"));
    assert_eq!(text.len(), 10010);
    assert_eq!(formatted(&float(0.5), ".10000g"), "0.5");
    assert_eq!(formatted(&float(f64::INFINITY), ".10000f"), "inf");
}

#[test]
fn other_scalars_take_formats() {
    assert_eq!(formatted(&words("ab"), ">5"), "   ab");
    assert_eq!(formatted(&TrainingMetricScalar::Boolean(true), ""), "True");
    assert_eq!(formatted(&TrainingMetricScalar::Boolean(true), "d"), "1");
    assert_eq!(formatted(&TrainingMetricScalar::Boolean(true), "._"), "1");
    assert_eq!(formatted(&TrainingMetricScalar::Null, ""), "None");
    assert_eq!(
        refused(&TrainingMetricScalar::Null, ">5"),
        "unsupported format string passed to NoneType.__format__"
    );
    assert_eq!(
        refused(&TrainingMetricScalar::Custom, ""),
        "custom checkpoint values require a model-aware filename adapter"
    );
    assert_eq!(refused(&integer(1), "99999999999999999999d"), "format numeric field is too large");
    let huge = TrainingMetricScalar::Integer(
        (0..400).fold(Integer::from_usize(1), |sum, _| sum.plus(&sum).plus(&sum).plus(&sum).plus(&sum).plus(&sum)),
    );
    assert!(formatted(&huge, "d").len() > 309);
    assert_eq!(refused(&huge, ".1f"), "int too large to convert to float");
}

#[test]
fn foreign_digits_become_plain_ones() {
    assert_eq!(normalize_numeric_fields("\u{663}d").unwrap(), "3d");
    assert_eq!(formatted(&integer(7), "\u{663}d"), "  7");
    assert_eq!(decimal_digit('\u{663}'), Some(3));
    assert_eq!(decimal_digit('x'), None);
    assert!(is_printable('a'));
    assert!(is_printable('\u{e9}'));
    assert!(!is_printable('\u{2003}'));
    assert!(!is_printable('\u{ad}'));
    assert!(!is_printable('\n'));
    assert!(is_assigned(Some((1, 1))));
    assert!(!is_assigned(None));
}

fn german() -> RlCheckpointNumericLocale {
    RlCheckpointNumericLocale::new(",".to_owned(), ".".to_owned(), &[3, 3, 0]).unwrap()
}

#[test]
fn locales_group_numbers() {
    let local = |value: &Scalar, spec: &str| format_rl_checkpoint_scalar_with_locale(value, spec, &german()).unwrap();
    assert_eq!(local(&integer(1234567), "n"), "1.234.567");
    assert_eq!(local(&integer(-1234), "8n"), "  -1.234");
    assert_eq!(local(&integer(1234), "09n"), "0.001.234");
    assert_eq!(local(&float(1234.5), "n"), "1.234,5");
    assert_eq!(local(&integer(1234567), "d"), "1234567");
    let plain = RlCheckpointNumericLocale::default();
    assert_eq!(format_rl_checkpoint_scalar_with_locale(&integer(1234567), "n", &plain).unwrap(), "1234567");
    assert!(RlCheckpointNumericLocale::new(String::new(), String::new(), &[]).is_err());
    let digits: Vec<char> = "1234567".chars().collect();
    let once = RlCheckpointNumericLocale::new(".".to_owned(), "'".to_owned(), &[2, 127]).unwrap();
    assert_eq!(once.grouped(&digits).iter().collect::<String>(), "12345'67");
    assert_eq!(german().zero_grouped(&digits[..3], 6).iter().collect::<String>(), "00.123");
}

#[test]
fn snapshots_become_locales() {
    let snapshot = NumericSnapshot { decimal: ",".to_owned(), separator: ".".to_owned(), grouping: vec![3] };
    let locale = convert_snapshot(Ok(snapshot)).unwrap();
    assert_eq!(format_rl_checkpoint_scalar_with_locale(&integer(12345), "n", &locale).unwrap(), "12.345");
    assert!(convert_snapshot(Err("lost".to_owned())).is_err());
}

fn metrics(pairs: Vec<(&str, Scalar)>) -> OrderedMap<Scalar> {
    let mut metrics = OrderedMap::new();
    for (name, value) in pairs {
        metrics.insert(name.to_owned(), value);
    }
    metrics
}

fn rendered(template: &str, metrics: &OrderedMap<Scalar>) -> Result<String, String> {
    let iteration = Integer::from_usize(4);
    PythonRlCheckpointName.render(template, &Keywords { iteration: &iteration, time: "20240102", metrics })
}

#[test]
fn templates_are_rendered() {
    let given = metrics(vec![("reward", float(1.5)), ("width", integer(6)), ("note", words("it's\n"))]);
    assert_eq!(rendered("{iter:03d}-{reward:.2f}.pth", &given).unwrap(), "004-1.50.pth");
    assert_eq!(rendered("{{{time}}}", &given).unwrap(), "{20240102}");
    assert_eq!(rendered("{iter:{width}d}", &given).unwrap(), "     4");
    assert_eq!(rendered("{note!r}", &given).unwrap(), "\"it's\\n\"");
    assert_eq!(rendered("{iter!s:>3}", &given).unwrap(), "  4");
    assert_eq!(rendered("{iter.real}{iter.imag}{reward.imag}", &given).unwrap(), "400.0");
    assert_eq!(rendered("{time[3]}", &given).unwrap(), "4");
    assert_eq!(rendered("}", &given).unwrap_err(), "single '}' in checkpoint format");
    assert_eq!(rendered("{0}", &given).unwrap_err(), "checkpoint format has no positional arguments");
    assert_eq!(rendered("{lost}", &given).unwrap_err(), "missing checkpoint keyword lost");
    assert_eq!(rendered("{iter!x}", &given).unwrap_err(), "unknown checkpoint conversion x");
    assert_eq!(rendered("{iter:{width:{width}}}", &given).unwrap_err(), "checkpoint format recursion exceeded");
    assert!(rendered("{iter", &given).is_err());
    assert_eq!(rendered("{time[99]}", &given).unwrap_err(), "checkpoint string index out of range");
    assert_eq!(rendered("{iter[3]}", &given).unwrap_err(), "unsupported checkpoint item Integer(3)");
    assert_eq!(rendered("{iter[a\"b]}", &given).unwrap_err(), "unsupported checkpoint item Key(\"a\\\"b\")");
    assert!(rendered("{iter.size}", &given).is_err());
    let twice = metrics(vec![("iter", integer(1))]);
    assert_eq!(rendered("x", &twice).unwrap_err(), "duplicate checkpoint keyword iter");
}

#[test]
fn localized_names_use_their_locale() {
    let given = metrics(vec![("steps", integer(12345))]);
    let iteration = Integer::from_usize(4);
    let keywords = Keywords { iteration: &iteration, time: "now", metrics: &given };
    let name = LocalizedPythonRlCheckpointName::new(german());
    assert_eq!(name.render("{steps:n}-{steps}", &keywords).unwrap(), "12.345-12345");
}

#[test]
fn representations_are_quoted() {
    assert_eq!(python_string_repr("plain text"), "'plain text'");
    assert_eq!(python_string_repr("it's"), "\"it's\"");
    assert_eq!(python_string_repr("'\""), "'\\'\"'");
    assert_eq!(python_string_repr("\t\u{7f}\u{e9}\u{ad}"), "'\\t\\x7f\u{e9}\\xad'");
    let ascii: String = ascii_repr(&['a', '\u{e9}', '\u{20ac}', '\u{1f600}']).iter().collect();
    assert_eq!(ascii, "a\\xe9\\u20ac\\U0001f600");
}

fn points(text: &str) -> RlCheckpointText {
    RlCheckpointText::from_utf8(text)
}

#[test]
fn texts_hold_every_code_point() {
    let lone = RlCheckpointText::try_from_code_points(vec![0x61, 0xd800]).unwrap();
    assert_eq!(lone.as_code_points(), &[0x61, 0xd800]);
    assert_eq!(lone.to_utf8().unwrap_err(), "invalid UTF-32 value d800 at index 1");
    assert_eq!(lone.windows_units(), vec![0x61, 0xd800]);
    assert_eq!(points("\u{1f600}").windows_units(), vec![0xd83d, 0xde00]);
    assert_eq!(points("a\u{e9}").to_utf8().unwrap(), "a\u{e9}");
    assert!(RlCheckpointText::try_from_code_points(vec![0x110000]).is_err());
    assert!(points("").is_empty());
    assert!(points("ab").equals(&points("ab")));
    assert!(!points("ab").equals(&points("ac")));
}

#[test]
fn lossless_names_keep_lone_surrogates() {
    let lone = RlCheckpointText::try_from_code_points(vec![0xd800]).unwrap();
    let iteration = Integer::from_usize(4);
    let given: Vec<(RlCheckpointText, RlLosslessCheckpointValue<Float>)> = vec![
        (points("mark"), RlLosslessCheckpointValue::Text(lone.copied())),
        (points("steps"), RlLosslessCheckpointValue::Integer(Integer::from_usize(12345))),
        (points("reward"), RlLosslessCheckpointValue::Float(Float(0.5))),
    ];
    let keywords = PointKeywords { iteration: &iteration, time: &lone, metrics: &given };
    let name = PythonRlLosslessCheckpointName;
    let text = name.render(&points("{iter:02d}{mark:>3}{time}"), &keywords).unwrap();
    assert_eq!(text.as_code_points(), &[0x30, 0x34, 0x20, 0x20, 0xd800, 0xd800]);
    let shown = name.render(&points("{mark!r}{reward:.1%}"), &keywords).unwrap();
    assert_eq!(shown.to_utf8().unwrap(), "'\\ud800'50.0%");
    assert!(name.render(&points("{"), &keywords).is_err());
    let local = LocalizedPythonRlLosslessCheckpointName::new(german());
    assert_eq!(local.render(&points("{steps:n}"), &keywords).unwrap().to_utf8().unwrap(), "12.345");
}

#[test]
fn names_do_without_floats() {
    let value: TrainingMetricScalar<NoFloats> = TrainingMetricScalar::Float(NoFloats);
    assert_eq!(format_rl_checkpoint_scalar(&value, "").unwrap_err(), "floating-point formats are unavailable");
}

/// A system whose locale changes from one question to the next.
struct Changing {
    asked: Cell<usize>,
}

impl RlCheckpointLocaleProvider for Changing {
    fn numeric_locale(&self) -> Result<RlCheckpointNumericLocale, String> {
        self.asked.set(self.asked.get() + 1);
        match self.asked.get() {
            1 => Ok(german()),
            2 => RlCheckpointNumericLocale::new(".".to_owned(), "'".to_owned(), &[2, 127]),
            _ => Err("no locale".to_owned()),
        }
    }
}

#[test]
fn every_numeric_field_asks_for_its_own_locale() {
    let given = metrics(vec![("steps", integer(12345)), ("word", words("x"))]);
    let iteration = Integer::from_usize(4);
    let keywords = Keywords { iteration: &iteration, time: "now", metrics: &given };
    let name = LocalizedPythonRlCheckpointName::new(Changing { asked: Cell::new(0) });
    assert_eq!(name.render("{steps:n}|{word}|{steps}|{steps:n}", &keywords).unwrap(), "12.345|x|12345|123'45");
    assert_eq!(name.render("{steps}", &keywords).unwrap(), "12345");
    assert_eq!(name.render("{steps:n}", &keywords).unwrap_err(), "no locale");
    let nested = LocalizedPythonRlCheckpointName::new(Changing { asked: Cell::new(0) });
    assert_eq!(nested.render("{steps:{iter:n}n}", &keywords).unwrap(), "123'45");
    let values: Vec<(RlCheckpointText, RlLosslessCheckpointValue<Float>)> =
        vec![(points("steps"), RlLosslessCheckpointValue::Integer(Integer::from_usize(12345)))];
    let time = points("now");
    let lossless = PointKeywords { iteration: &iteration, time: &time, metrics: &values };
    let other = LocalizedPythonRlLosslessCheckpointName::new(Changing { asked: Cell::new(0) });
    let text = other.render(&points("{steps:n}|{steps:n}"), &lossless).unwrap();
    assert_eq!(text.to_utf8().unwrap(), "12.345|123'45");
}

#[test]
fn fills_without_a_character_ask_for_the_locale_once() {
    let lone = RlCheckpointText::try_from_code_points(vec![0xd800]).unwrap();
    let iteration = Integer::from_usize(4);
    let values: Vec<(RlCheckpointText, RlLosslessCheckpointValue<Float>)> =
        vec![(points("steps"), RlLosslessCheckpointValue::Integer(Integer::from_usize(12345)))];
    let keywords = PointKeywords { iteration: &iteration, time: &lone, metrics: &values };
    let name = LocalizedPythonRlLosslessCheckpointName::new(Changing { asked: Cell::new(0) });
    let text = name.render(&points("{steps:{time}>8n}{steps:n}"), &keywords).unwrap();
    let mut expected: Vec<u32> = vec![0xd800, 0xd800];
    expected.extend("12.345123'45".chars().map(|ch| ch as u32));
    assert_eq!(text.as_code_points(), expected.as_slice());
}

#[test]
fn separators_and_other_characters_are_hidden() {
    assert!(is_hidden(CharacterGroup::Separator));
    assert!(is_hidden(CharacterGroup::Other));
    for group in [
        CharacterGroup::Letter,
        CharacterGroup::Mark,
        CharacterGroup::Number,
        CharacterGroup::Punctuation,
        CharacterGroup::Symbol,
    ] {
        assert!(!is_hidden(group));
    }
}
