//! Text as sequences of characters: comparison, joining and decimal rendering.
use vstd::prelude::*;

use crate::integer::{decimal_digits, digit_char};

verus! {

/// `String::push` appends one character.
pub assume_specification[ String::push ](text: &mut String, ch: char)
    ensures
        final(text)@ == old(text)@.push(ch),
;

/// Lexicographic order of two texts by code point.
pub open spec fn text_lt(a: Seq<char>, b: Seq<char>) -> bool
    decreases a.len(),
{
    if b.len() == 0 {
        false
    } else if a.len() == 0 {
        true
    } else if a[0] != b[0] {
        (a[0] as int) < (b[0] as int)
    } else {
        text_lt(a.drop_first(), b.drop_first())
    }
}

/// No text precedes itself.
pub proof fn text_lt_irreflexive(a: Seq<char>)
    ensures
        !text_lt(a, a),
    decreases a.len(),
{
    if a.len() > 0 {
        text_lt_irreflexive(a.drop_first());
    }
}

/// The order of texts is transitive.
pub proof fn text_lt_transitive(a: Seq<char>, b: Seq<char>, c: Seq<char>)
    requires
        text_lt(a, b),
        text_lt(b, c),
    ensures
        text_lt(a, c),
    decreases a.len(),
{
    if a.len() > 0 && a[0] == b[0] && b[0] == c[0] {
        text_lt_transitive(a.drop_first(), b.drop_first(), c.drop_first());
    }
}

/// Of two different texts one precedes the other.
pub proof fn text_lt_total(a: Seq<char>, b: Seq<char>)
    ensures
        a == b || text_lt(a, b) || text_lt(b, a),
    decreases a.len(),
{
    if a.len() > 0 && b.len() > 0 && a[0] == b[0] {
        text_lt_total(a.drop_first(), b.drop_first());
        if a.drop_first() == b.drop_first() {
            assert(a =~= seq![a[0]] + a.drop_first());
            assert(b =~= seq![b[0]] + b.drop_first());
        }
    } else if a.len() == 0 && b.len() == 0 {
        assert(a =~= b);
    }
}

/// The characters of a text.
pub fn to_chars(text: &str) -> (result: Vec<char>)
    ensures
        result@ == text@,
{
    let length: usize = text.unicode_len();
    let mut result: Vec<char> = Vec::new();
    let mut i: usize = 0;
    while i < length
        invariant
            i <= length,
            length == text@.len(),
            result@ == text@.subrange(0, i as int),
        decreases length - i,
    {
        result.push(text.get_char(i));
        i += 1;
        assert(result@ =~= text@.subrange(0, i as int));
    }
    assert(result@ =~= text@);
    result
}

/// The text that consists of the given characters.
pub fn from_chars(chars: &[char]) -> (result: String)
    ensures
        result@ == chars@,
{
    let mut result = String::new();
    let mut i: usize = 0;
    while i < chars.len()
        invariant
            i <= chars.len(),
            result@ == chars@.subrange(0, i as int),
        decreases chars.len() - i,
    {
        result.push(chars[i]);
        i += 1;
        assert(result@ =~= chars@.subrange(0, i as int));
    }
    assert(result@ =~= chars@);
    result
}

/// Whether two texts hold the same characters.
pub fn same_text(a: &str, b: &str) -> (result: bool)
    ensures
        result == (a@ == b@),
{
    let left = to_chars(a);
    let right = to_chars(b);
    if left.len() != right.len() {
        return false;
    }
    let mut i: usize = 0;
    while i < left.len()
        invariant
            i <= left.len(),
            left.len() == right.len(),
            left@ == a@,
            right@ == b@,
            forall|j: int| 0 <= j < i ==> left@[j] == right@[j],
        decreases left.len() - i,
    {
        if left[i] != right[i] {
            return false;
        }
        i += 1;
    }
    assert(a@ =~= b@);
    true
}

/// Whether `a` precedes `b`.
pub fn text_less(a: &str, b: &str) -> (result: bool)
    ensures
        result == text_lt(a@, b@),
{
    let left = to_chars(a);
    let right = to_chars(b);
    let mut i: usize = 0;
    assert(a@.skip(0) =~= a@ && b@.skip(0) =~= b@);
    while i < left.len() && i < right.len() && left[i] == right[i]
        invariant
            i <= left.len(),
            i <= right.len(),
            left@ == a@,
            right@ == b@,
            text_lt(a@, b@) == text_lt(a@.skip(i as int), b@.skip(i as int)),
        decreases left.len() - i,
    {
        assert(a@.skip(i as int).drop_first() =~= a@.skip(i as int + 1));
        assert(b@.skip(i as int).drop_first() =~= b@.skip(i as int + 1));
        i += 1;
    }
    if i >= right.len() {
        false
    } else if i >= left.len() {
        true
    } else {
        let x: char = left[i];
        let y: char = right[i];
        x < y
    }
}


/// The outcome of a rendering, by its characters.
pub type TextResult = Result<Seq<char>, Seq<char>>;

/// The outcome of a rendering, by its characters.
pub open spec fn text_result(result: Result<String, String>) -> TextResult {
    match result {
        Ok(text) => Ok(text@),
        Err(text) => Err(text@),
    }
}

/// Four texts behind one another.
pub(crate) fn sentence(first: &str, second: &str, third: &str, fourth: &str) -> (result: String)
    ensures
        result@ == first@ + second@ + third@ + fourth@,
        fourth@ == ""@ ==> result@ == first@ + second@ + third@,
        third@ == ""@ && fourth@ == ""@ ==> result@ == first@ + second@,
{
    proof {
        reveal_strlit("");
        assert(first@ + second@ + third@ + ""@ =~= first@ + second@ + third@);
        assert(first@ + second@ + ""@ + ""@ =~= first@ + second@);
    }
    let mut output = to_chars(first);
    append_chars(&mut output, to_chars(second).as_slice());
    append_chars(&mut output, to_chars(third).as_slice());
    append_chars(&mut output, to_chars(fourth).as_slice());
    from_chars(output.as_slice())
}

/// Appends characters.
pub fn append_chars(target: &mut Vec<char>, source: &[char])
    ensures
        final(target)@ == old(target)@ + source@,
{
    let mut i: usize = 0;
    assert(target@ =~= old(target)@ + source@.take(0));
    while i < source.len()
        invariant
            i <= source@.len(),
            target@ == old(target)@ + source@.take(i as int),
        decreases source@.len() - i,
    {
        target.push(source[i]);
        i += 1;
        assert(target@ =~= old(target)@ + source@.take(i as int));
    }
    assert(source@.take(i as int) =~= source@);
}

/// The characters between two positions.
pub fn sub_chars(source: &[char], start: usize, end: usize) -> (result: Vec<char>)
    requires
        start <= end <= source@.len(),
    ensures
        result@ == source@.subrange(start as int, end as int),
{
    let mut target: Vec<char> = Vec::new();
    let mut i: usize = start;
    while i < end
        invariant
            start <= i <= end,
            end <= source@.len(),
            target@ == source@.subrange(start as int, i as int),
        decreases end - i,
    {
        target.push(source[i]);
        i += 1;
        assert(target@ =~= source@.subrange(start as int, i as int));
    }
    target
}

/// The code point of a character.
pub fn code_point(ch: char) -> (result: u32)
    ensures
        result as int == ch as int,
        result == ch as u32,
{
    ch as u32
}

/// Whether a character is an ASCII digit.
pub open spec fn is_digit(ch: char) -> bool {
    '0' <= ch <= '9'
}

/// The value of an ASCII digit.
pub open spec fn digit_value(ch: char) -> int {
    ch as int - 48
}

/// The value of a run of ASCII digits; zero for an empty run.
pub open spec fn digits_value(digits: Seq<char>) -> int
    decreases digits.len(),
{
    if digits.len() == 0 {
        0
    } else {
        digits_value(digits.drop_last()) * 10 + digit_value(digits.last())
    }
}

/// Whether a character is an ASCII digit.
pub fn digit(ch: char) -> (result: bool)
    ensures
        result == is_digit(ch),
{
    '0' <= ch && ch <= '9'
}

/// The value of an ASCII digit.
pub fn digit_number(ch: char) -> (result: usize)
    requires
        is_digit(ch),
    ensures
        result == digit_value(ch),
        0 <= result <= 9,
{
    (ch as u32 - 48) as usize
}

/// The decimal digits of a number.
pub fn decimal_chars(value: usize) -> (result: Vec<char>)
    ensures
        result@ == decimal_digits(value as nat),
    decreases value,
{
    let last: char = digit_of(value % 10);
    if value < 10 {
        let mut digits: Vec<char> = Vec::new();
        digits.push(last);
        assert(digits@ =~= decimal_digits(value as nat));
        digits
    } else {
        let mut digits = decimal_chars(value / 10);
        digits.push(last);
        digits
    }
}

fn digit_of(value: usize) -> (result: char)
    requires
        value < 10,
    ensures
        result == digit_char(value as int),
{
    if value == 0 {
        '0'
    } else if value == 1 {
        '1'
    } else if value == 2 {
        '2'
    } else if value == 3 {
        '3'
    } else if value == 4 {
        '4'
    } else if value == 5 {
        '5'
    } else if value == 6 {
        '6'
    } else if value == 7 {
        '7'
    } else if value == 8 {
        '8'
    } else {
        '9'
    }
}

/// A character a number of times.
pub open spec fn repeated(ch: char, count: nat) -> Seq<char> {
    Seq::new(count, |i: int| ch)
}

/// Appends a character a number of times.
pub fn append_repeated(target: &mut Vec<char>, ch: char, count: usize)
    ensures
        final(target)@ == old(target)@ + repeated(ch, count as nat),
{
    let mut i: usize = 0;
    assert(target@ =~= old(target)@ + repeated(ch, 0));
    while i < count
        invariant
            i <= count,
            target@ == old(target)@ + repeated(ch, i as nat),
        decreases count - i,
    {
        target.push(ch);
        i += 1;
        assert(target@ =~= old(target)@ + repeated(ch, i as nat));
    }
}

} // verus!
