//! Checkpoint names over all code points, lone surrogates included.
use vstd::prelude::*;
use widestring::U32Str;

use crate::integer::decimal_digits;
use crate::rl_checkpoint_name::{hex_char, is_scalar, points_of};
use crate::text::{append_chars, decimal_chars, from_chars, to_chars};

verus! {

/// Where the first code point without a character stands; the end without one.
pub open spec fn first_lone(points: Seq<u32>) -> int
    decreases points.len(),
{
    if points.len() == 0 || !is_scalar(points[0]) {
        0
    } else {
        1 + first_lone(points.drop_first())
    }
}

/// A number in lower-case hexadecimal digits.
pub open spec fn lower_hex(value: nat) -> Seq<char>
    decreases value,
{
    if value < 16 {
        seq![hex_char(value as int)]
    } else {
        lower_hex(value / 16).push(hex_char((value % 16) as int))
    }
}

/// Why code points are no characters: the first one without a character, and its place.
pub open spec fn utf32_failure(points: Seq<u32>) -> Seq<char> {
    let place = first_lone(points);
    "invalid UTF-32 value "@ + lower_hex(points[place] as nat) + " at index "@ + decimal_digits(place as nat)
}

/// Whether all code points have characters.
pub open spec fn all_scalars(points: Seq<u32>) -> bool {
    forall|i: int| 0 <= i < points.len() ==> is_scalar(#[trigger] points[i])
}

/// `U32Str::to_string` of `widestring`: the characters of code points that all have one, or else
/// the message that names the first other one and its place.
#[verifier::external_body]
fn wide_to_utf8(points: &Vec<u32>) -> (result: Result<String, String>)
    ensures
        match result {
            Ok(text) => all_scalars(points@) && points_of(text@) == points@,
            Err(error) => !all_scalars(points@) && error@ == utf32_failure(points@),
        },
{
    U32Str::from_slice(points).to_string().map_err(|error| error.to_string())
}

/// A rendering over code points.
pub type PointResult = Result<Seq<u32>, Seq<char>>;

/// An upper-case hexadecimal digit.
pub open spec fn upper_hex_char(digit: int) -> char {
    if digit < 10 {
        (48 + digit) as char
    } else {
        (55 + digit) as char
    }
}

/// A number in at least the given number of upper-case hexadecimal digits.
pub open spec fn upper_hex(value: nat, width: nat) -> Seq<char>
    decreases value, width,
{
    if value < 16 && width <= 1 {
        seq![upper_hex_char(value as int)]
    } else {
        upper_hex(
            value / 16,
            if width == 0 {
                0
            } else {
                (width - 1) as nat
            },
        ).push(upper_hex_char((value % 16) as int))
    }
}

fn upper_digit(digit: u32) -> (result: char)
    requires
        digit < 16,
    ensures
        result == upper_hex_char(digit as int),
{
    if digit < 10 {
        let digits = decimal_chars(digit as usize);
        proof {
            assert(decimal_digits(digit as nat) == seq![crate::integer::digit_char(digit as int)]);
        }
        digits[0]
    } else if digit == 10 {
        'A'
    } else if digit == 11 {
        'B'
    } else if digit == 12 {
        'C'
    } else if digit == 13 {
        'D'
    } else if digit == 14 {
        'E'
    } else {
        'F'
    }
}

pub fn append_upper_hex(target: &mut Vec<char>, value: u32, width: u32)
    ensures
        final(target)@ == old(target)@ + upper_hex(value as nat, width as nat),
    decreases value, width,
{
    if value < 16 && width <= 1 {
        target.push(upper_digit(value));
    } else {
        let rest: u32 = if width == 0 {
            0
        } else {
            width - 1
        };
        append_upper_hex(target, value / 16, rest);
        target.push(upper_digit(value % 16));
    }
    assert(target@ =~= old(target)@ + upper_hex(value as nat, width as nat));
}

/// A text of code points, lone surrogates included.
#[derive(Debug)]
pub struct RlCheckpointText {
    points: Vec<u32>,
}

/// The outcome of a rendering, by its code points.
pub open spec fn point_result(result: Result<RlCheckpointText, String>) -> PointResult {
    match result {
        Ok(text) => Ok(text@),
        Err(error) => Err(error@),
    }
}

impl View for RlCheckpointText {
    type V = Seq<u32>;

    closed spec fn view(&self) -> Seq<u32> {
        self.points@
    }
}

/// Whether all values are code points.
pub open spec fn all_points(points: Seq<u32>) -> bool {
    forall|i: int| 0 <= i < points.len() ==> #[trigger] points[i] <= 0x10ffff
}

impl RlCheckpointText {
    #[verifier::type_invariant]
    closed spec fn valid(&self) -> bool {
        all_points(self.points@)
    }

    /// Takes code points; the first value beyond the last code point is reported.
    pub fn try_from_code_points(points: Vec<u32>) -> (result: Result<Self, String>)
        ensures
            match result {
                Ok(text) => all_points(points@) && text@ == points@,
                Err(error) => exists|i: int|
                    #![trigger points@[i]]
                    0 <= i < points@.len() && points@[i] > 0x10ffff && all_points(points@.take(i)) && error@
                        == "checkpoint code point U+"@ + upper_hex(points@[i] as nat, 0) + " is out of range"@,
            },
    {
        let mut i: usize = 0;
        while i < points.len()
            invariant
                i <= points@.len(),
                forall|j: int| 0 <= j < i ==> #[trigger] points@[j] <= 0x10ffff,
            decreases points@.len() - i,
        {
            if points[i] > 0x10ffff {
                let mut message = to_chars("checkpoint code point U+");
                append_upper_hex(&mut message, points[i], 0);
                append_chars(&mut message, to_chars(" is out of range").as_slice());
                proof {
                    assert(points@[i as int] > 0x10ffff);
                    assert forall|j: int| 0 <= j < points@.take(i as int).len() implies #[trigger] points@.take(
                        i as int,
                    )[j] <= 0x10ffff by {
                        assert(points@[j] <= 0x10ffff);
                    }
                }
                return Err(from_chars(message.as_slice()));
            }
            i += 1;
        }
        Ok(RlCheckpointText { points })
    }

    /// A text of known code points.
    pub(crate) fn from_points(points: Vec<u32>) -> (result: Self)
        requires
            all_points(points@),
        ensures
            result@ == points@,
    {
        RlCheckpointText { points }
    }

    /// The code points of a text.
    pub fn from_utf8(text: &str) -> (result: Self)
        ensures
            result@ == points_of(text@),
    {
        let chars = to_chars(text);
        RlCheckpointText::from_chars(chars.as_slice())
    }

    fn from_chars(chars: &[char]) -> (result: Self)
        ensures
            result@ == points_of(chars@),
    {
        let mut points: Vec<u32> = Vec::new();
        let mut i: usize = 0;
        while i < chars.len()
            invariant
                i <= chars@.len(),
                points@ == points_of(chars@.take(i as int)),
                all_points(points@),
            decreases chars@.len() - i,
        {
            let point: u32 = scalar_point(chars[i]);
            points.push(point);
            i += 1;
            assert(points@ =~= points_of(chars@.take(i as int)));
        }
        assert(chars@.take(i as int) =~= chars@);
        RlCheckpointText { points }
    }

    pub fn as_code_points(&self) -> (result: &[u32])
        ensures
            result@ == self@,
            all_points(self@),
    {
        proof {
            use_type_invariant(self);
        }
        self.points.as_slice()
    }

    /// The code points between two positions.
    pub fn sliced(&self, start: usize, end: usize) -> (result: Self)
        requires
            start <= end <= self@.len(),
        ensures
            result@ == self@.subrange(start as int, end as int),
    {
        proof {
            use_type_invariant(self);
        }
        let mut points: Vec<u32> = Vec::new();
        let mut i: usize = start;
        while i < end
            invariant
                start <= i <= end,
                end <= self.points@.len(),
                all_points(self.points@),
                points@ == self.points@.subrange(start as int, i as int),
                all_points(points@),
            decreases end - i,
        {
            points.push(self.points[i]);
            i += 1;
            assert(points@ =~= self.points@.subrange(start as int, i as int));
        }
        RlCheckpointText { points }
    }

    /// The same text.
    pub fn copied(&self) -> (result: Self)
        ensures
            result@ == self@,
    {
        let result = self.sliced(0, self.points.len());
        assert(result@ =~= self@);
        result
    }

    pub fn len(&self) -> (result: usize)
        ensures
            result == self@.len(),
    {
        self.points.len()
    }

    pub fn is_empty(&self) -> (result: bool)
        ensures
            result == (self@.len() == 0),
    {
        self.points.len() == 0
    }

    /// The characters of the text, where every code point has one.
    pub fn to_utf8(&self) -> (result: Result<String, String>)
        ensures
            match result {
                Ok(text) => all_scalars(self@) && points_of(text@) == self@,
                Err(error) => !all_scalars(self@) && error@ == utf32_failure(self@),
            },
    {
        wide_to_utf8(&self.points)
    }

    /// Whether two texts hold the same code points.
    pub fn equals(&self, other: &RlCheckpointText) -> (result: bool)
        ensures
            result == (self@ == other@),
    {
        if self.points.len() != other.points.len() {
            return false;
        }
        let mut i: usize = 0;
        while i < self.points.len()
            invariant
                i <= self.points@.len(),
                self.points@.len() == other.points@.len(),
                forall|j: int| 0 <= j < i ==> self.points@[j] == other.points@[j],
            decreases self.points@.len() - i,
        {
            if self.points[i] != other.points[i] {
                return false;
            }
            i += 1;
        }
        assert(self.points@ =~= other.points@);
        true
    }
}

fn scalar_point(ch: char) -> (result: u32)
    ensures
        result == ch as u32,
        result <= 0x10ffff,
{
    ch as u32
}

/// Every text survives the way through code points.
pub proof fn utf8_round_trip(text: Seq<char>)
    ensures
        all_scalars(points_of(text)),
        all_points(points_of(text)),
        forall|other: Seq<char>| #[trigger] points_of(other) == points_of(text) ==> other == text,
{
    assert forall|i: int| 0 <= i < points_of(text).len() implies is_scalar(#[trigger] points_of(text)[i]) by {
        vstd::utf8::char_is_scalar(text[i]);
        point_is_scalar(text[i]);
    }
    assert forall|other: Seq<char>| #[trigger] points_of(other) == points_of(text) implies other == text by {
        assert(points_of(other).len() == other.len());
        assert(points_of(text).len() == text.len());
        assert forall|i: int| 0 <= i < text.len() implies other[i] == text[i] by {
            assert(points_of(other)[i] == points_of(text)[i]);
            vstd::utf8::char_u32_cast(other[i], other[i] as u32);
            vstd::utf8::char_u32_cast(text[i], text[i] as u32);
        }
        assert(other =~= text);
    }
}

proof fn point_is_scalar(ch: char)
    ensures
        is_scalar(ch as u32),
        ch as u32 <= 0x10ffff,
{
}

/// The sixteen-bit units of a code point: two for one beyond the first plane.
pub open spec fn point_units(point: u32) -> Seq<u16> {
    if point < 0x1_0000 {
        seq![point as u16]
    } else {
        seq![(0xd800 + (point - 0x1_0000) / 0x400) as u16, (0xdc00 + (point - 0x1_0000) % 0x400) as u16]
    }
}

/// The sixteen-bit units of a text. A code point without a character is its own unit.
pub open spec fn text_units(points: Seq<u32>) -> Seq<u16>
    decreases points.len(),
{
    if points.len() == 0 {
        Seq::empty()
    } else {
        text_units(points.drop_last()) + point_units(points.last())
    }
}

impl RlCheckpointText {
    /// The text as a file name of a system that writes names in sixteen-bit units.
    pub fn windows_units(&self) -> (result: Vec<u16>)
        ensures
            result@ == text_units(self@),
    {
        let points = self.as_code_points();
        let mut units: Vec<u16> = Vec::new();
        let mut i: usize = 0;
        assert(points@.take(0) =~= Seq::empty());
        while i < points.len()
            invariant
                i <= points@.len(),
                all_points(points@),
                units@ == text_units(points@.take(i as int)),
            decreases points@.len() - i,
        {
            let ghost before = units@;
            proof {
                assert(points@.take(i + 1).drop_last() =~= points@.take(i as int));
                assert(points@.take(i + 1).last() == points@[i as int]);
            }
            let point: u32 = points[i];
            if point < 0x1_0000 {
                units.push(point as u16);
            } else {
                let rest: u32 = point - 0x1_0000;
                units.push((0xd800 + rest / 0x400) as u16);
                units.push((0xdc00 + rest % 0x400) as u16);
            }
            assert(units@ =~= before + point_units(point));
            i += 1;
        }
        assert(points@.take(i as int) =~= points@);
        units
    }
}

/// The units of a text are those of its code points, one after another: a code point of sixteen bits is
/// its own unit, and of any other the two units, each without its mark, make up what lies above those.
pub proof fn units_make_up_their_code_points(
    text: RlCheckpointText,
    shorter: RlCheckpointText,
    units: Vec<u16>,
    before: Vec<u16>,
)
    requires
        call_ensures(RlCheckpointText::windows_units, (&text,), units),
        call_ensures(RlCheckpointText::windows_units, (&shorter,), before),
        text@.len() > 0,
        shorter@ == text@.drop_last(),
        text@.last() <= 0x10ffff,
    ensures
        ({
            let (point, added) = (text@.last() as int, units@.skip(before@.len() as int));
            &&& units@.take(before@.len() as int) == before@
            &&& point < 0x1_0000 ==> added == seq![point as u16]
            &&& point >= 0x1_0000 ==> added.len() == 2 && 0xd800 <= added[0] < 0xdc00 && 0xdc00 <= added[1] < 0xe000 && (
            added[0] - 0xd800) * 0x400 + (added[1] - 0xdc00) + 0x1_0000 == point
        }),
{
    let point = text@.last();
    let added = point_units(point);
    assert(units@ == before@ + added);
    assert(units@.take(before@.len() as int) =~= before@);
    assert(units@.skip(before@.len() as int) =~= added);
}

/// The number that hexadecimal digits stand for, read from the left.
pub open spec fn read_hex(digits: Seq<char>) -> int
    decreases digits.len(),
{
    if digits.len() == 0 {
        0
    } else {
        let digit = digits.last() as int;
        16 * read_hex(digits.drop_last()) + if digit >= 65 {
            digit - 65 + 10
        } else {
            digit - 48
        }
    }
}

/// Hexadecimal digits are read back as the number that they were made of, and there are no fewer of them
/// than were asked for.
pub proof fn hexadecimal_digits_are_read_back(target: &mut Vec<char>, value: u32, width: u32)
    requires
        call_ensures(append_upper_hex, (target, value, width), ()),
    ensures
        ({
            let length = old(target)@.len() as int;
            let digits = final(target)@.skip(length);
            &&& final(target)@.take(length) == old(target)@
            &&& digits.len() > 0 && digits.len() >= width
            &&& read_hex(digits) == value
            &&& forall|i: int|
                0 <= i < digits.len() ==> '0' <= #[trigger] digits[i] <= '9' || 'A' <= digits[i] <= 'F'
        }),
{
    let length = old(target)@.len() as int;
    let digits = upper_hex(value as nat, width as nat);
    assert(final(target)@.take(length) =~= old(target)@);
    assert(final(target)@.skip(length) =~= digits);
    digits_stand_for_their_value(value as nat, width as nat);
}

proof fn digits_stand_for_their_value(value: nat, width: nat)
    ensures
        upper_hex(value, width).len() > 0,
        upper_hex(value, width).len() >= width,
        read_hex(upper_hex(value, width)) == value,
        forall|i: int|
            0 <= i < upper_hex(value, width).len() ==> '0' <= #[trigger] upper_hex(value, width)[i] <= '9' || 'A'
                <= upper_hex(value, width)[i] <= 'F',
    decreases value, width,
{
    let digits = upper_hex(value, width);
    if value < 16 && width <= 1 {
        assert(digits.drop_last() =~= Seq::empty());
        assert(read_hex(digits.drop_last()) == 0);
    } else {
        let fewer = if width == 0 {
            0
        } else {
            (width - 1) as nat
        };
        digits_stand_for_their_value(value / 16, fewer);
        assert(digits.drop_last() =~= upper_hex(value / 16, fewer));
    }
}

} // verus!
