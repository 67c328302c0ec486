//! Numbers written with a comma between every three digits, such as
//! `1,000,000`.

use vstd::prelude::*;
use crate::text::{append_chars, chars_of, slice_of, string_of};

verus! {

/// An integer of any size, without a sign.
#[verifier::external_type_specification]
#[verifier::external_body]
pub struct ExBigUint(num_bigint::BigUint);

/// An integer of any size.
#[verifier::external_type_specification]
#[verifier::external_body]
pub struct ExBigInt(num_bigint::BigInt);

/// The number that a `BigUint` holds.
pub uninterp spec fn magnitude_of(n: num_bigint::BigUint) -> nat;

/// The number that a `BigInt` holds.
pub uninterp spec fn value_of(n: num_bigint::BigInt) -> int;

/// The integer that a text is read as, if it is read as one.
pub uninterp spec fn parsed_integer(text: Seq<char>) -> Option<int>;

/// The decimal digit for `n`, which is below 10.
pub open spec fn decimal_digit(n: nat) -> char {
    (0x30 + n) as u8 as char
}

/// `n` in decimal digits, without a zero at the start unless `n` is zero.
pub open spec fn decimal(n: nat) -> Seq<char>
    decreases n,
{
    if n < 10 {
        seq![decimal_digit(n)]
    } else {
        decimal(n / 10).push(decimal_digit(n % 10))
    }
}

/// Whether a comma stands before the digit at `at` of `len` digits: before
/// every third digit counted from the end, but not before the first.
pub open spec fn comma_before(len: int, at: int) -> bool {
    at != 0 && (len - at) % 3 == 0
}

/// The first `upto` of `digits`, with the commas that stand before them.
pub open spec fn grouped_upto(digits: Seq<char>, upto: int) -> Seq<char>
    decreases upto,
{
    if upto <= 0 {
        Seq::<char>::empty()
    } else {
        grouped_upto(digits, upto - 1) + (if comma_before(digits.len() as int, upto - 1) {
            seq![',']
        } else {
            Seq::<char>::empty()
        }).push(digits[upto - 1])
    }
}

/// `digits` with a comma between every three of them, counted from the end.
pub open spec fn grouped(digits: Seq<char>) -> Seq<char> {
    grouped_upto(digits, digits.len() as int)
}

/// `-` before a negative number, nothing before another.
pub open spec fn sign_mark(negative: bool) -> Seq<char> {
    if negative {
        seq!['-']
    } else {
        Seq::<char>::empty()
    }
}

/// The size of `value`.
pub open spec fn magnitude(value: int) -> nat {
    if value < 0 {
        (-value) as nat
    } else {
        value as nat
    }
}

/// `value` in decimal digits with a comma between every three of them, and
/// `-` before it where it is negative.
pub open spec fn comma_separated_spec(value: int) -> Seq<char> {
    sign_mark(value < 0) + grouped(decimal(magnitude(value)))
}

/// Writes `digits` with a comma between every three of them, counted from
/// the end.
pub fn group_digits(digits: &Vec<char>) -> (r: Vec<char>)
    ensures
        r@ == grouped(digits@),
{
    let len: usize = digits.len();
    let rest: usize = len % 3;
    let mut r: Vec<char> = Vec::new();
    let mut i: usize = 0;
    while i < len
        invariant
            0 <= i <= len,
            len == digits.len(),
            rest == len % 3,
            r@ == grouped_upto(digits@, i as int),
        decreases len - i,
    {
        let ghost before = r@;
        assert(comma_before(len as int, i as int) == (i != 0 && i % 3 == rest));
        if i != 0 && i % 3 == rest {
            r.push(',');
        }
        r.push(digits[i]);
        i += 1;
        assert(r@ =~= before + (if comma_before(len as int, i - 1) {
            seq![',']
        } else {
            Seq::<char>::empty()
        }).push(digits@[i - 1]));
    }
    r
}

/// How a number stands to zero.
#[derive(Clone, Copy, PartialEq, Eq, Structural, Debug)]
pub enum Sign {
    Minus,
    NoSign,
    Plus,
}

/// `ToString::to_string` of a `BigUint`: the number in decimal digits, `0`
/// for zero and no zero at the start otherwise.
#[verifier::external_body]
fn biguint_to_string(n: &num_bigint::BigUint) -> (r: String)
    ensures
        r@ == decimal(magnitude_of(*n)),
{
    n.to_string()
}

/// `BigInt::sign`: minus below zero, no sign for zero, plus above.
#[verifier::external_body]
fn bigint_sign(n: &num_bigint::BigInt) -> (r: Sign)
    ensures
        r == Sign::Minus <==> value_of(*n) < 0,
        r == Sign::NoSign <==> value_of(*n) == 0,
        r == Sign::Plus <==> value_of(*n) > 0,
{
    match n.sign() {
        num_bigint::Sign::Minus => Sign::Minus,
        num_bigint::Sign::NoSign => Sign::NoSign,
        num_bigint::Sign::Plus => Sign::Plus,
    }
}

/// `Neg::neg` of a `&BigInt`: the number with the other sign.
#[verifier::external_body]
fn bigint_negate(n: &num_bigint::BigInt) -> (r: num_bigint::BigInt)
    ensures
        value_of(r) == -value_of(*n),
{
    -n
}

/// `BigInt::to_biguint`: the same number without a sign, where it is not
/// negative.
#[verifier::external_body]
fn bigint_to_biguint(n: &num_bigint::BigInt) -> (r: Option<num_bigint::BigUint>)
    ensures
        value_of(*n) < 0 ==> r is None,
        value_of(*n) >= 0 ==> r is Some && magnitude_of(r->0) == value_of(*n),
{
    n.to_biguint()
}

/// `BigInt::from` of an `i128`: the same number.
#[verifier::external_body]
fn bigint_from_i128(n: i128) -> (r: num_bigint::BigInt)
    ensures
        value_of(r) == n,
{
    num_bigint::BigInt::from(n)
}

/// `BigInt::from` of a `u128`: the same number.
#[verifier::external_body]
fn bigint_from_u128(n: u128) -> (r: num_bigint::BigInt)
    ensures
        value_of(r) == n,
{
    num_bigint::BigInt::from(n)
}

/// `BigInt::from_str`: the integer that `text` is read as, if it is read as
/// one.
#[verifier::external_body]
fn bigint_from_str(text: &str) -> (r: Option<num_bigint::BigInt>)
    ensures
        match r {
            Some(n) => parsed_integer(text@) == Some(value_of(n)),
            None => parsed_integer(text@) is None,
        },
{
    match text.parse::<num_bigint::BigInt>() {
        Ok(n) => Some(n),
        Err(_) => None,
    }
}

/// Numbers that can be written with a comma between every three digits.
pub trait CommaSeparated {
    /// The text that `comma_separated` gives.
    spec fn comma_separated_text(&self) -> Seq<char>;

    /// The number in decimal digits with a comma between every three of
    /// them, counted from the end, and `-` before it where it is negative.
    fn comma_separated(&self) -> (r: String)
        ensures
            r@ == self.comma_separated_text(),
    ;
}

impl CommaSeparated for num_bigint::BigUint {
    open spec fn comma_separated_text(&self) -> Seq<char> {
        grouped(decimal(magnitude_of(*self)))
    }

    fn comma_separated(&self) -> (r: String) {
        let digits = chars_of(biguint_to_string(self).as_str());
        string_of(&group_digits(&digits))
    }
}

impl CommaSeparated for num_bigint::BigInt {
    open spec fn comma_separated_text(&self) -> Seq<char> {
        comma_separated_spec(value_of(*self))
    }

    fn comma_separated(&self) -> (r: String) {
        let negative = bigint_sign(self) == Sign::Minus;
        let size = if negative {
            bigint_to_biguint(&bigint_negate(self))
        } else {
            bigint_to_biguint(self)
        };
        let mut r: Vec<char> = Vec::new();
        if negative {
            r.push('-');
        }
        assert(r@ == sign_mark(negative));
        match size {
            Some(n) => {
                let digits = chars_of(biguint_to_string(&n).as_str());
                append_chars(&mut r, &group_digits(&digits));
            },
            None => {},
        }
        string_of(&r)
    }
}

impl CommaSeparated for i128 {
    open spec fn comma_separated_text(&self) -> Seq<char> {
        comma_separated_spec(*self as int)
    }

    fn comma_separated(&self) -> (r: String) {
        bigint_from_i128(*self).comma_separated()
    }
}

impl CommaSeparated for u128 {
    open spec fn comma_separated_text(&self) -> Seq<char> {
        comma_separated_spec(*self as int)
    }

    fn comma_separated(&self) -> (r: String) {
        bigint_from_u128(*self).comma_separated()
    }
}

impl CommaSeparated for isize {
    open spec fn comma_separated_text(&self) -> Seq<char> {
        comma_separated_spec(*self as int)
    }

    fn comma_separated(&self) -> (r: String) {
        bigint_from_i128(*self as i128).comma_separated()
    }
}

impl CommaSeparated for usize {
    open spec fn comma_separated_text(&self) -> Seq<char> {
        comma_separated_spec(*self as int)
    }

    fn comma_separated(&self) -> (r: String) {
        bigint_from_u128(*self as u128).comma_separated()
    }
}

impl CommaSeparated for i64 {
    open spec fn comma_separated_text(&self) -> Seq<char> {
        comma_separated_spec(*self as int)
    }

    fn comma_separated(&self) -> (r: String) {
        bigint_from_i128(*self as i128).comma_separated()
    }
}

impl CommaSeparated for u64 {
    open spec fn comma_separated_text(&self) -> Seq<char> {
        comma_separated_spec(*self as int)
    }

    fn comma_separated(&self) -> (r: String) {
        bigint_from_u128(*self as u128).comma_separated()
    }
}

impl CommaSeparated for i32 {
    open spec fn comma_separated_text(&self) -> Seq<char> {
        comma_separated_spec(*self as int)
    }

    fn comma_separated(&self) -> (r: String) {
        bigint_from_i128(*self as i128).comma_separated()
    }
}

impl CommaSeparated for u32 {
    open spec fn comma_separated_text(&self) -> Seq<char> {
        comma_separated_spec(*self as int)
    }

    fn comma_separated(&self) -> (r: String) {
        bigint_from_u128(*self as u128).comma_separated()
    }
}

impl CommaSeparated for i16 {
    open spec fn comma_separated_text(&self) -> Seq<char> {
        comma_separated_spec(*self as int)
    }

    fn comma_separated(&self) -> (r: String) {
        bigint_from_i128(*self as i128).comma_separated()
    }
}

impl CommaSeparated for u16 {
    open spec fn comma_separated_text(&self) -> Seq<char> {
        comma_separated_spec(*self as int)
    }

    fn comma_separated(&self) -> (r: String) {
        bigint_from_u128(*self as u128).comma_separated()
    }
}

/// Where the first `.` of `text` stands, or its length where it holds none.
pub open spec fn point_at(text: Seq<char>) -> int
    decreases text.len(),
{
    if text.len() == 0 || text[0] == '.' {
        0
    } else {
        1 + point_at(text.drop_first())
    }
}

/// What stands between the first and the second `.` of `text`, with the `.`
/// before it; nothing where `text` holds no `.`.
pub open spec fn fraction_of(text: Seq<char>) -> Seq<char> {
    let at = point_at(text);
    if at >= text.len() {
        Seq::<char>::empty()
    } else {
        let rest = text.skip(at + 1);
        seq!['.'] + rest.take(point_at(rest))
    }
}

/// A number in decimal notation with commas in its integer part: what
/// stands before the first `.` is read as an integer and written with
/// commas, and the digits after the `.` follow as they are. Nothing where
/// the part before the `.` is read as no integer.
pub open spec fn comma_separated_decimal_spec(text: Seq<char>) -> Option<Seq<char>> {
    match parsed_integer(text.take(point_at(text))) {
        Some(value) => Some(comma_separated_spec(value) + fraction_of(text)),
        None => None,
    }
}

/// Where the first `.` of `text` stands at or after `from`.
fn find_point(text: &Vec<char>, from: usize) -> (r: usize)
    requires
        from <= text.len(),
    ensures
        r == from + point_at(text@.skip(from as int)),
        from <= r <= text.len(),
{
    let mut i: usize = from;
    assert(text@.skip(from as int).skip(0) == text@.skip(from as int));
    while i < text.len() && text[i] != '.'
        invariant
            from <= i <= text.len(),
            point_at(text@.skip(from as int)) == (i - from) + point_at(text@.skip(i as int)),
        decreases text.len() - i,
    {
        assert(text@.skip(i as int)[0] == text@[i as int]);
        assert(text@.skip(i as int).drop_first() == text@.skip(i + 1));
        i += 1;
    }
    proof {
        if i < text.len() {
            assert(text@.skip(i as int)[0] == text@[i as int]);
        }
    }
    i
}

/// Writes a number given in decimal notation, such as `-1000000.5`, with
/// commas in its integer part. The part before the first `.` is read as an
/// integer; where it is read as none, the result is `None`.
pub fn comma_separated_decimal(text: &str) -> (r: Option<String>)
    ensures
        match r {
            Some(written) => comma_separated_decimal_spec(text@) == Some(written@),
            None => comma_separated_decimal_spec(text@) is None,
        },
{
    let chars = chars_of(text);
    assert(chars@.skip(0) == chars@);
    let at = find_point(&chars, 0);
    let whole = string_of(&slice_of(&chars, 0, at));
    match bigint_from_str(whole.as_str()) {
        None => None,
        Some(value) => {
            let mut r = chars_of(value.comma_separated().as_str());
            if at < chars.len() {
                let end = find_point(&chars, at + 1);
                r.push('.');
                let digits = slice_of(&chars, at + 1, end);
                assert(digits@ == chars@.skip(at + 1).take(point_at(chars@.skip(at + 1))));
                append_chars(&mut r, &digits);
            }
            assert(r@ == comma_separated_spec(value_of(value)) + fraction_of(text@));
            Some(string_of(&r))
        },
    }
}

} // verus!
