//! Integers of any size.
use num_bigint::BigInt;
use num_traits::ToPrimitive;
use vstd::prelude::*;

verus! {

/// The value of little-endian bytes.
pub open spec fn unsigned_value(bytes: Seq<u8>) -> int
    decreases bytes.len(),
{
    if bytes.len() == 0 {
        0
    } else {
        bytes[0] + 256 * unsigned_value(bytes.drop_first())
    }
}

/// The number of values that bytes of the given length can hold.
pub open spec fn byte_range(length: nat) -> int
    decreases length,
{
    if length == 0 {
        1
    } else {
        256 * byte_range((length - 1) as nat)
    }
}

/// The value of little-endian bytes in two's complement.
pub open spec fn signed_value(bytes: Seq<u8>) -> int {
    if bytes.len() > 0 && bytes.last() >= 128 {
        unsigned_value(bytes) - byte_range(bytes.len())
    } else {
        unsigned_value(bytes)
    }
}

/// An integer of any size, held as little-endian bytes in two's complement.
#[derive(Debug)]
pub struct Integer {
    bytes: Vec<u8>,
}

impl View for Integer {
    type V = int;

    closed spec fn view(&self) -> int {
        signed_value(self.bytes@)
    }
}

/// The remainder of a division that rounds towards zero: it has the sign of the dividend.
pub open spec fn truncated_remainder(a: int, b: int) -> int {
    let magnitude = (if a < 0 { -a } else { a }) % (if b < 0 { -b } else { b });
    if a < 0 {
        -magnitude
    } else {
        magnitude
    }
}

/// The character of a decimal digit.
pub open spec fn digit_char(digit: int) -> char {
    (48 + digit) as char
}

/// The decimal digits of a number that is not negative.
pub open spec fn decimal_digits(value: nat) -> Seq<char>
    decreases value,
{
    if value < 10 {
        seq![digit_char(value as int)]
    } else {
        decimal_digits(value / 10).push(digit_char((value % 10) as int))
    }
}

/// The decimal text of a number.
pub open spec fn decimal_text(value: int) -> Seq<char> {
    if value < 0 {
        seq!['-'] + decimal_digits((-value) as nat)
    } else {
        decimal_digits(value as nat)
    }
}

/// `BigInt::from` for a `usize`: the same number.
#[verifier::external_body]
fn big_from_usize(value: usize) -> (result: Integer)
    ensures
        result@ == value,
{
    Integer { bytes: BigInt::from(value).to_signed_bytes_le() }
}

/// `BigInt::from` for an `i64`: the same number.
#[verifier::external_body]
fn big_from_i64(value: i64) -> (result: Integer)
    ensures
        result@ == value,
{
    Integer { bytes: BigInt::from(value).to_signed_bytes_le() }
}

/// `Add::add` of two `BigInt` values: their sum.
#[verifier::external_body]
fn big_add(a: &Integer, b: &Integer) -> (result: Integer)
    ensures
        result@ == a@ + b@,
{
    let sum = BigInt::from_signed_bytes_le(&a.bytes) + BigInt::from_signed_bytes_le(&b.bytes);
    Integer { bytes: sum.to_signed_bytes_le() }
}

/// `Rem::rem` of two `BigInt` values: the remainder of a division that rounds towards zero. A
/// divisor of zero panics and is left out.
#[verifier::external_body]
fn big_rem(a: &Integer, b: &Integer) -> (result: Integer)
    requires
        b@ != 0,
    ensures
        result@ == truncated_remainder(a@, b@),
{
    let rest = BigInt::from_signed_bytes_le(&a.bytes) % BigInt::from_signed_bytes_le(&b.bytes);
    Integer { bytes: rest.to_signed_bytes_le() }
}

/// `PartialOrd::lt` of two `BigInt` values: their numeric order.
#[verifier::external_body]
fn big_less(a: &Integer, b: &Integer) -> (result: bool)
    ensures
        result == (a@ < b@),
{
    BigInt::from_signed_bytes_le(&a.bytes) < BigInt::from_signed_bytes_le(&b.bytes)
}

/// `ToPrimitive::to_usize` of a `BigInt`: the same number where it fits.
#[verifier::external_body]
fn big_to_usize(value: &Integer) -> (result: Option<usize>)
    ensures
        match result {
            Some(number) => value@ == number,
            None => value@ < 0 || value@ > usize::MAX,
        },
{
    BigInt::from_signed_bytes_le(&value.bytes).to_usize()
}

/// `ToPrimitive::to_i128` of a `BigInt`: the same number where it fits.
#[verifier::external_body]
fn big_to_i128(value: &Integer) -> (result: Option<i128>)
    ensures
        match result {
            Some(number) => value@ == number,
            None => value@ < i128::MIN || value@ > i128::MAX,
        },
{
    BigInt::from_signed_bytes_le(&value.bytes).to_i128()
}

/// `ToString::to_string` of a `BigInt`: its decimal text.
#[verifier::external_body]
fn big_to_text(value: &Integer) -> (result: String)
    ensures
        result@ == decimal_text(value@),
{
    BigInt::from_signed_bytes_le(&value.bytes).to_string()
}

impl Integer {
    pub fn zero() -> (result: Integer)
        ensures
            result@ == 0,
    {
        big_from_usize(0)
    }

    pub fn from_usize(value: usize) -> (result: Integer)
        ensures
            result@ == value,
    {
        big_from_usize(value)
    }

    pub fn from_i64(value: i64) -> (result: Integer)
        ensures
            result@ == value,
    {
        big_from_i64(value)
    }

    /// The same number.
    pub fn copied(&self) -> (result: Integer)
        ensures
            result@ == self@,
    {
        let bytes = self.bytes.clone();
        assert(bytes@ =~= self.bytes@);
        Integer { bytes }
    }

    pub fn plus(&self, other: &Integer) -> (result: Integer)
        ensures
            result@ == self@ + other@,
    {
        big_add(self, other)
    }

    /// The next number.
    pub fn next(&self) -> (result: Integer)
        ensures
            result@ == self@ + 1,
    {
        big_add(self, &big_from_usize(1))
    }

    /// Whether the number is a multiple of another one.
    pub fn divisible_by(&self, divisor: &Integer) -> (result: bool)
        requires
            divisor@ != 0,
        ensures
            result == (truncated_remainder(self@, divisor@) == 0),
    {
        big_rem(self, divisor).is_zero()
    }

    pub fn less(&self, other: &Integer) -> (result: bool)
        ensures
            result == (self@ < other@),
    {
        big_less(self, other)
    }

    pub fn equals(&self, other: &Integer) -> (result: bool)
        ensures
            result == (self@ == other@),
    {
        !big_less(self, other) && !big_less(other, self)
    }

    pub fn is_zero(&self) -> (result: bool)
        ensures
            result == (self@ == 0),
    {
        self.equals(&big_from_usize(0))
    }

    pub fn is_positive(&self) -> (result: bool)
        ensures
            result == (self@ > 0),
    {
        big_less(&big_from_usize(0), self)
    }

    pub fn to_usize(&self) -> (result: Option<usize>)
        ensures
            match result {
                Some(number) => self@ == number,
                None => self@ < 0 || self@ > usize::MAX,
            },
    {
        big_to_usize(self)
    }

    pub fn to_i128(&self) -> (result: Option<i128>)
        ensures
            match result {
                Some(number) => self@ == number,
                None => self@ < i128::MIN || self@ > i128::MAX,
            },
    {
        big_to_i128(self)
    }

    /// The decimal text of the number.
    pub fn text(&self) -> (result: String)
        ensures
            result@ == decimal_text(self@),
    {
        big_to_text(self)
    }
}

/// The number that decimal digits stand for, read from the left.
pub open spec fn read_digits(digits: Seq<char>) -> int
    decreases digits.len(),
{
    if digits.len() == 0 {
        0
    } else {
        10 * read_digits(digits.drop_last()) + (digits.last() as int - '0' as int)
    }
}

/// The text of a number is read back: it is made of decimal digits, behind a minus sign where the number
/// is negative, stands for the number, and begins with no needless zero.
pub proof fn numbers_are_read_back(number: Integer, result: String)
    requires
        call_ensures(Integer::text, (&number,), result),
    ensures
        result@.len() > 0,
        result@[0] == '-' <==> number@ < 0,
        ({
            let digits = if number@ < 0 {
                result@.skip(1)
            } else {
                result@
            };
            &&& digits.len() > 0
            &&& forall|i: int| 0 <= i < digits.len() ==> '0' <= #[trigger] digits[i] <= '9'
            &&& read_digits(digits) == if number@ < 0 {
                -number@
            } else {
                number@
            }
            &&& digits.len() > 1 ==> digits[0] != '0'
        }),
{
    let size = (if number@ < 0 {
        -number@
    } else {
        number@
    }) as nat;
    digits_are_read_back(size);
    if number@ < 0 {
        assert(result@.skip(1) =~= decimal_digits(size));
    }
}

proof fn digits_are_read_back(value: nat)
    ensures
        decimal_digits(value).len() > 0,
        forall|i: int| 0 <= i < decimal_digits(value).len() ==> '0' <= #[trigger] decimal_digits(value)[i] <= '9',
        read_digits(decimal_digits(value)) == value,
        value > 0 ==> decimal_digits(value)[0] != '0',
        value == 0 ==> decimal_digits(value).len() == 1,
        value > 0 || decimal_digits(value).len() == 1,
    decreases value,
{
    let digits = decimal_digits(value);
    if value < 10 {
        assert(digits.drop_last() =~= Seq::empty());
        assert(read_digits(digits.drop_last()) == 0);
    } else {
        let front = decimal_digits(value / 10);
        digits_are_read_back(value / 10);
        assert(digits.drop_last() =~= front);
        assert(digits[0] == front[0]);
    }
}

/// A number is divisible by another one exactly where it is a multiple of it.
pub proof fn multiples_are_divisible(number: Integer, divisor: Integer, result: bool, times: int)
    requires
        call_ensures(Integer::divisible_by, (&number, &divisor), result),
        divisor@ > 0,
    ensures
        number@ == times * divisor@ ==> result,
        result ==> exists|whole: int| number@ == #[trigger] (whole * divisor@),
{
    let (a, b) = (number@, divisor@);
    let size = if a < 0 {
        -a
    } else {
        a
    };
    vstd::arithmetic::div_mod::lemma_fundamental_div_mod(size, b);
    if a == times * b {
        let count = if a < 0 {
            -times
        } else {
            times
        };
        assert(size == count * b) by (nonlinear_arith)
            requires
                a == times * b,
                size == if a < 0 { -a } else { a },
                count == if a < 0 { -times } else { times },
        ;
        vstd::arithmetic::div_mod::lemma_mod_multiples_basic(count, b);
    }
    if result {
        let whole = size / b;
        assert(b * whole == whole * b && (-whole) * b == -(whole * b)) by (nonlinear_arith);
        if a < 0 {
            assert(a == (-whole) * b);
        } else {
            assert(a == whole * b);
        }
    }
}

} // verus!
