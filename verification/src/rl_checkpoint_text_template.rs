//! Replacement fields of templates over code points.
use vstd::prelude::*;

use crate::format_spec::field_limit;
use crate::rl_checkpoint_name::is_scalar;
use crate::unicode::{decimal_digit, decimal_value};

verus! {

/// The first position at or after another one at which a character stands.
pub open spec fn find_char(text: Seq<u32>, at: int, ch: u32) -> Option<int>
    decreases text.len() - at,
{
    if at < 0 || at >= text.len() {
        None
    } else if text[at] == ch {
        Some(at)
    } else {
        find_char(text, at + 1, ch)
    }
}

/// Finds a character.
pub fn locate(text: &[u32], at: usize, ch: u32) -> (result: Option<usize>)
    requires
        at <= text@.len(),
    ensures
        match result {
            Some(place) => find_char(text@, at as int, ch) == Some(place as int) && at <= place < text@.len(),
            None => find_char(text@, at as int, ch) is None,
        },
{
    let mut i: usize = at;
    while i < text.len()
        invariant
            at <= i <= text@.len(),
            find_char(text@, at as int, ch) == find_char(text@, i as int, ch),
        decreases text@.len() - i,
    {
        if text[i] == ch {
            return Some(i);
        }
        i += 1;
    }
    None
}

/// The end of a field's name: the next closing brace, colon or exclamation mark outside brackets.
pub open spec fn name_end(text: Seq<u32>, at: int) -> Result<int, Seq<char>>
    decreases text.len() - at,
{
    if at < 0 || at >= text.len() {
        Err("unclosed checkpoint field"@)
    } else if text[at] == 91 {
        match find_char(text, at + 1, 93) {
            Some(close) => if at < close < text.len() {
                name_end(text, close + 1)
            } else {
                Err("unclosed checkpoint field"@)
            },
            None => Err("unclosed checkpoint field"@),
        }
    } else if text[at] == 125 || text[at] == 58 || text[at] == 33 {
        Ok(at)
    } else if text[at] == 123 {
        Err("unexpected '{' in checkpoint field"@)
    } else {
        name_end(text, at + 1)
    }
}

/// The closing brace that matches an opening depth.
pub open spec fn closing(text: Seq<u32>, at: int, depth: nat) -> Option<int>
    decreases text.len() - at,
{
    if at < 0 || at >= text.len() {
        None
    } else if text[at] == 123 {
        closing(text, at + 1, depth + 1)
    } else if text[at] == 125 {
        if depth <= 1 {
            Some(at)
        } else {
            closing(text, at + 1, (depth - 1) as nat)
        }
    } else {
        closing(text, at + 1, depth)
    }
}

/// Where the parts of a field are, and where the text goes on.
pub struct FieldCut {
    pub name_end: int,
    pub conversion: Option<u32>,
    pub spec_start: int,
    pub spec_end: int,
    pub next: int,
}

/// Where the specification of a field ends.
pub open spec fn spec_cut(text: Seq<u32>, name_end: int, conversion: Option<u32>, start: int) -> Result<
    FieldCut,
    Seq<char>,
> {
    match closing(text, start, 1) {
        Some(end) => Ok(FieldCut { name_end, conversion, spec_start: start, spec_end: end, next: end + 1 }),
        None => Err("unclosed checkpoint format specification"@),
    }
}

/// The parts of the field that starts at a position.
pub open spec fn field_cut(text: Seq<u32>, start: int) -> Result<FieldCut, Seq<char>> {
    match name_end(text, start) {
        Err(error) => Err(error),
        Ok(end) => {
            let after = end + 1;
            if text[end] == 125 {
                Ok(FieldCut { name_end: end, conversion: None, spec_start: after, spec_end: after, next: after })
            } else if text[end] == 58 {
                spec_cut(text, end, None, after)
            } else if after >= text.len() {
                Err("missing checkpoint conversion"@)
            } else if after + 1 < text.len() && text[after + 1] == 125 {
                Ok(
                    FieldCut {
                        name_end: end,
                        conversion: Some(text[after]),
                        spec_start: after + 2,
                        spec_end: after + 2,
                        next: after + 2,
                    },
                )
            } else if after + 1 < text.len() && text[after + 1] == 58 {
                spec_cut(text, end, Some(text[after]), after + 2)
            } else {
                Err("expected ':' after checkpoint conversion"@)
            }
        },
    }
}

/// A field of a template: positions of its name and its specification, and of what follows.
pub struct Field {
    pub name_end: usize,
    pub conversion: Option<u32>,
    pub spec_start: usize,
    pub spec_end: usize,
    pub next: usize,
}

impl View for Field {
    type V = FieldCut;

    open spec fn view(&self) -> FieldCut {
        FieldCut {
            name_end: self.name_end as int,
            conversion: self.conversion,
            spec_start: self.spec_start as int,
            spec_end: self.spec_end as int,
            next: self.next as int,
        }
    }
}

fn scan_name(text: &[u32], start: usize) -> (result: Result<usize, String>)
    requires
        start <= text@.len(),
    ensures
        match result {
            Ok(end) => name_end(text@, start as int) == Ok::<int, Seq<char>>(end as int) && start <= end < text@.len()
                && (text@[end as int] == 125 || text@[end as int] == 58 || text@[end as int] == 33),
            Err(error) => name_end(text@, start as int) == Err::<int, Seq<char>>(error@),
        },
{
    let mut at: usize = start;
    while at < text.len()
        invariant
            start <= at <= text@.len(),
            name_end(text@, start as int) == name_end(text@, at as int),
        decreases text@.len() - at,
    {
        let ch: u32 = text[at];
        if ch == 91 {
            match locate(text, at + 1, 93) {
                Some(close) => {
                    at = close + 1;
                },
                None => {
                    return Err("unclosed checkpoint field".to_owned());
                },
            }
        } else if ch == 125 || ch == 58 || ch == 33 {
            return Ok(at);
        } else if ch == 123 {
            return Err("unexpected '{' in checkpoint field".to_owned());
        } else {
            at += 1;
        }
    }
    Err("unclosed checkpoint field".to_owned())
}

fn scan_spec(text: &[u32], start: usize) -> (result: Option<usize>)
    requires
        1 <= start <= text@.len(),
    ensures
        match result {
            Some(end) => closing(text@, start as int, 1) == Some(end as int) && start <= end < text@.len(),
            None => closing(text@, start as int, 1) is None,
        },
{
    let mut depth: usize = 1;
    let mut at: usize = start;
    while at < text.len()
        invariant
            1 <= start <= at <= text@.len(),
            1 <= depth <= at - start + 1,
            closing(text@, start as int, 1) == closing(text@, at as int, depth as nat),
        decreases text@.len() - at,
    {
        if text[at] == 123 {
            depth += 1;
        } else if text[at] == 125 {
            if depth == 1 {
                return Some(at);
            }
            depth -= 1;
        }
        at += 1;
    }
    None
}

/// Reads one field and nothing after it.
pub fn field(text: &[u32], start: usize) -> (result: Result<Field, String>)
    requires
        start <= text@.len(),
    ensures
        match result {
            Ok(found) => {
                &&& field_cut(text@, start as int) == Ok::<FieldCut, Seq<char>>(found@)
                &&& start <= found.name_end < found.next
                &&& found.name_end <= found.spec_start <= found.spec_end <= found.next <= text@.len()
            },
            Err(error) => field_cut(text@, start as int) == Err::<FieldCut, Seq<char>>(error@),
        },
{
    let length: usize = text.len();
    let end: usize = match scan_name(text, start) {
        Ok(end) => end,
        Err(error) => return Err(error),
    };
    let after: usize = end + 1;
    if text[end] == 125 {
        return Ok(Field { name_end: end, conversion: None, spec_start: after, spec_end: after, next: after });
    }
    let mut conversion: Option<u32> = None;
    let mut spec_start: usize = after;
    if text[end] == 33 {
        if after >= text.len() {
            return Err("missing checkpoint conversion".to_owned());
        }
        conversion = Some(text[after]);
        if text.len() - after < 2 {
            return Err("expected ':' after checkpoint conversion".to_owned());
        }
        spec_start = after + 2;
        if text[after + 1] == 125 {
            return Ok(Field { name_end: end, conversion, spec_start, spec_end: spec_start, next: spec_start });
        }
        if text[after + 1] != 58 {
            return Err("expected ':' after checkpoint conversion".to_owned());
        }
    }
    match scan_spec(text, spec_start) {
        Some(close) => Ok(Field { name_end: end, conversion, spec_start, spec_end: close, next: close + 1 }),
        None => Err("unclosed checkpoint format specification".to_owned()),
    }
}

/// One attribute or item access: its kind, its name and where the path goes on.
pub struct PartCut {
    pub attribute: bool,
    pub start: int,
    pub end: int,
    pub next: int,
}

/// The end of an attribute: the next dot or opening bracket, or the end.
pub open spec fn attribute_end(text: Seq<u32>, at: int) -> int
    decreases text.len() - at,
{
    if at < 0 || at >= text.len() || text[at] == 46 || text[at] == 91 {
        at
    } else {
        attribute_end(text, at + 1)
    }
}

/// The access at a position of a path.
pub open spec fn part_cut(text: Seq<u32>, at: int) -> Result<PartCut, Seq<char>> {
    if text[at] == 46 {
        let end = attribute_end(text, at + 1);
        if end == at + 1 {
            Err("empty checkpoint attribute or index"@)
        } else {
            Ok(PartCut { attribute: true, start: at + 1, end, next: end })
        }
    } else if text[at] == 91 {
        match find_char(text, at + 1, 93) {
            None => Err("missing ']' in checkpoint field"@),
            Some(end) => if end == at + 1 {
                Err("empty checkpoint attribute or index"@)
            } else {
                Ok(PartCut { attribute: false, start: at + 1, end, next: end + 1 })
            },
        }
    } else {
        Err("only '.' or '[' may follow a checkpoint item"@)
    }
}

/// One attribute or item access.
pub struct Part {
    pub attribute: bool,
    pub start: usize,
    pub end: usize,
    pub next: usize,
}

impl View for Part {
    type V = PartCut;

    open spec fn view(&self) -> PartCut {
        PartCut {
            attribute: self.attribute,
            start: self.start as int,
            end: self.end as int,
            next: self.next as int,
        }
    }
}

/// Finds the end of an attribute.
pub fn skip_attribute(text: &[u32], at: usize) -> (result: usize)
    requires
        at <= text@.len(),
    ensures
        result == attribute_end(text@, at as int),
        at <= result <= text@.len(),
{
    let mut end: usize = at;
    while end < text.len() && text[end] != 46 && text[end] != 91
        invariant
            at <= end <= text@.len(),
            attribute_end(text@, at as int) == attribute_end(text@, end as int),
        decreases text@.len() - end,
    {
        end += 1;
    }
    end
}

/// Reads one access of a path and nothing after it.
pub fn part(text: &[u32], at: usize) -> (result: Result<Part, String>)
    requires
        at < text@.len(),
    ensures
        match result {
            Ok(found) => part_cut(text@, at as int) == Ok::<PartCut, Seq<char>>(found@) && at < found.start < found.end
                <= found.next <= text@.len(),
            Err(error) => part_cut(text@, at as int) == Err::<PartCut, Seq<char>>(error@),
        },
{
    if text[at] == 46 {
        let end: usize = skip_attribute(text, at + 1);
        if end == at + 1 {
            return Err("empty checkpoint attribute or index".to_owned());
        }
        Ok(Part { attribute: true, start: at + 1, end, next: end })
    } else if text[at] == 91 {
        match locate(text, at + 1, 93) {
            None => Err("missing ']' in checkpoint field".to_owned()),
            Some(end) => {
                if end == at + 1 {
                    return Err("empty checkpoint attribute or index".to_owned());
                }
                Ok(Part { attribute: false, start: at + 1, end, next: end + 1 })
            },
        }
    } else {
        Err("only '.' or '[' may follow a checkpoint item".to_owned())
    }
}

/// The value of a decimal digit of any script.
pub open spec fn point_value(point: u32) -> Option<int> {
    if is_scalar(point) {
        decimal_value(point as char)
    } else {
        None
    }
}

/// The position after a run of decimal digits of any script.
pub open spec fn after_points(text: Seq<u32>, at: int) -> int
    decreases text.len() - at,
{
    if 0 <= at < text.len() && point_value(text[at]) is Some {
        after_points(text, at + 1)
    } else {
        at
    }
}

/// The value of a run of decimal digits of any script.
pub open spec fn points_value(text: Seq<u32>, start: int, end: int) -> int
    decreases end - start,
{
    if end <= start {
        0
    } else {
        points_value(text, start, end - 1) * 10 + point_value(text[end - 1])->Some_0
    }
}

proof fn points_grow(text: Seq<u32>, start: int, middle: int, end: int)
    requires
        0 <= start <= middle <= end <= text.len(),
        forall|i: int| start <= i < end ==> point_value(#[trigger] text[i]) is Some,
    ensures
        0 <= points_value(text, start, middle) <= points_value(text, start, end),
    decreases end - start,
{
    if start < end {
        assert(point_value(text[end - 1]) is Some);
        if middle < end {
            points_grow(text, start, middle, end - 1);
        } else if start < middle {
            points_grow(text, start, end - 1, end - 1);
        }
    }
}

proof fn points_extend(text: Seq<u32>, at: int)
    requires
        0 <= at <= text.len(),
    ensures
        at <= after_points(text, at) <= text.len(),
        forall|i: int| at <= i < after_points(text, at) ==> point_value(#[trigger] text[i]) is Some,
    decreases text.len() - at,
{
    if at < text.len() && point_value(text[at]) is Some {
        points_extend(text, at + 1);
    }
}

fn point_digit(point: u32) -> (result: Option<usize>)
    ensures
        match result {
            Some(value) => point_value(point) == Some(value as int) && value <= 9,
            None => point_value(point) is None,
        },
{
    match char::from_u32(point) {
        Some(ch) => {
            proof {
                vstd::utf8::char_u32_cast(ch, point);
            }
            decimal_digit(ch)
        },
        None => None,
    }
}

/// The number that a text stands for, if it consists of decimal digits.
pub open spec fn index_of(text: Seq<u32>) -> Result<Option<int>, Seq<char>> {
    let end = after_points(text, 0);
    if text.len() == 0 {
        Ok(None)
    } else if points_value(text, 0, end) > field_limit() {
        Err("too many checkpoint index digits"@)
    } else if end < text.len() {
        Ok(None)
    } else {
        Ok(Some(points_value(text, 0, end)))
    }
}

/// Reads a decimal index.
pub fn integer_index(text: &[u32]) -> (result: Result<Option<usize>, String>)
    ensures
        match result {
            Ok(None) => index_of(text@) == Ok::<Option<int>, Seq<char>>(None),
            Ok(Some(value)) => index_of(text@) == Ok::<Option<int>, Seq<char>>(Some(value as int)),
            Err(error) => index_of(text@) == Err::<Option<int>, Seq<char>>(error@),
        },
{
    if text.len() == 0 {
        return Ok(None);
    }
    let limit: usize = isize::MAX as usize;
    let mut value: usize = 0;
    let mut end: usize = 0;
    while end < text.len()
        invariant
            text@.len() > 0,
            end <= text@.len(),
            limit == field_limit(),
            value <= limit,
            value == points_value(text@, 0, end as int),
            after_points(text@, 0) == after_points(text@, end as int),
            forall|i: int| 0 <= i < end ==> point_value(#[trigger] text@[i]) is Some,
        decreases text@.len() - end,
    {
        let d: usize = match point_digit(text[end]) {
            Some(d) => d,
            None => return Ok(None),
        };
        if value > limit / 10 || value * 10 > limit - d {
            proof {
                let last = after_points(text@, 0);
                points_extend(text@, end as int);
                points_extend(text@, end + 1);
                assert forall|i: int| 0 <= i < last implies point_value(#[trigger] text@[i]) is Some by {}
                points_grow(text@, 0, end + 1, last);
                assert(points_value(text@, 0, end + 1) == value * 10 + d);
            }
            return Err("too many checkpoint index digits".to_owned());
        }
        value = value * 10 + d;
        end += 1;
    }
    Ok(Some(value))
}

} // verus!
