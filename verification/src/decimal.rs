//! Decimal numbers with a fixed count of fractional digits.
//!
//! A `Decimal` stands for the number `mantissa / 10^scale`, negated when
//! `negative` is set. Its text is an optional `-`, the integer part
//! without leading zeros, and, when `scale` is not zero, a `.` followed by
//! exactly `scale` fractional digits. Every `Decimal` has one text, and
//! reading accepts exactly these texts.

use vstd::prelude::*;
use vstd::slice::slice_subrange;
use crate::digits::{
    all_digits, bounded_nat_of_text, digits_to_nat, digits_value, is_canonical, is_digit,
    lemma_digits_of_value, lemma_leading_zeros, lemma_nat_digits, lemma_pad_digits, nat_digits,
    nat_to_text, pad_zeros, text_to_nat, zeros,
};
use crate::text::{find_first, first_index, lacks, lemma_first_index, lemma_first_index_found};

verus! {

/// A signed decimal number.
#[derive(Clone, Copy, Debug, PartialEq, Eq, Structural)]
pub struct Decimal {
    /// True when the text starts with a minus sign.
    pub negative: bool,
    /// All digits of the number, read as one natural number.
    pub mantissa: u128,
    /// How many of the digits stand behind the decimal point.
    pub scale: u8,
}

/// The byte `-`.
pub const MINUS: u8 = 45;

/// The byte `.`.
pub const POINT: u8 = 46;

/// The sign in front of a decimal text.
pub open spec fn sign_text(negative: bool) -> Seq<u8> {
    if negative {
        seq![MINUS]
    } else {
        Seq::empty()
    }
}

/// The digits of a decimal text, those before and behind the point in one
/// row: the digits of `mantissa`, with zeros in front where it has no more
/// than `scale` digits.
pub open spec fn decimal_digits(mantissa: u128, scale: u8) -> Seq<u8> {
    pad_zeros(nat_digits(mantissa as nat), (scale + 1) as nat)
}

/// The text of a number without its sign: the digits, with a point in
/// front of the last `scale` of them where `scale` is not zero.
pub open spec fn unsigned_text(mantissa: u128, scale: u8) -> Seq<u8> {
    let digits = decimal_digits(mantissa, scale);
    let point = digits.len() - scale;
    if scale == 0 {
        digits
    } else {
        digits.take(point) + seq![POINT] + digits.skip(point)
    }
}

/// The text of `d`.
pub open spec fn decimal_text(d: Decimal) -> Seq<u8> {
    sign_text(d.negative) + unsigned_text(d.mantissa, d.scale)
}

/// The number that the unsigned text `body` stands for, with the sign
/// `negative`, if it stands for one.
pub open spec fn unsigned_decimal_of_text(negative: bool, body: Seq<u8>) -> Option<Decimal> {
    let point = first_index(body, POINT);
    let whole = body.take(point);
    let fraction = body.skip(point + 1);
    if point == body.len() {
        match bounded_nat_of_text(body, u128::MAX as nat) {
            Some(m) => Some(Decimal { negative, mantissa: m as u128, scale: 0 }),
            None => None,
        }
    } else if is_canonical(whole) && 1 <= fraction.len() <= u8::MAX && all_digits(fraction)
        && digits_value(whole + fraction) <= u128::MAX {
        Some(
            Decimal {
                negative,
                mantissa: digits_value(whole + fraction) as u128,
                scale: fraction.len() as u8,
            },
        )
    } else {
        None
    }
}

/// The number that the text `s` stands for, if it stands for one.
pub open spec fn decimal_of_text(s: Seq<u8>) -> Option<Decimal> {
    if s.len() > 0 && s[0] == MINUS {
        unsigned_decimal_of_text(true, s.skip(1))
    } else {
        unsigned_decimal_of_text(false, s)
    }
}

/// A row of digits is made of two rows of digits.
pub proof fn lemma_all_digits_concat(a: Seq<u8>, b: Seq<u8>)
    ensures
        all_digits(a + b) <==> all_digits(a) && all_digits(b),
{
    if all_digits(a + b) {
        assert forall|i: int| 0 <= i < a.len() implies is_digit(#[trigger] a[i]) by {
            assert(a[i] == (a + b)[i]);
        }
        assert forall|i: int| 0 <= i < b.len() implies is_digit(#[trigger] b[i]) by {
            assert(b[i] == (a + b)[a.len() + i]);
        }
    }
}

/// What `decimal_digits` gives: more digits than `scale`, which denote
/// `mantissa`, and whose part before the point is canonical.
pub proof fn lemma_decimal_digits(mantissa: u128, scale: u8)
    ensures
        decimal_digits(mantissa, scale).len() > scale,
        all_digits(decimal_digits(mantissa, scale)),
        digits_value(decimal_digits(mantissa, scale)) == mantissa,
        is_canonical(
            decimal_digits(mantissa, scale).take(decimal_digits(mantissa, scale).len() - scale),
        ),
{
    let plain = nat_digits(mantissa as nat);
    lemma_nat_digits(mantissa as nat);
    if plain.len() < scale + 1 {
        let k = (scale + 1 - plain.len()) as nat;
        lemma_leading_zeros(k, plain);
    }
}

/// The digits of `mantissa`, with zeros in front where it has no more
/// than `scale` digits.
fn padded_digits(mantissa: u128, scale: u8) -> (digits: Vec<u8>)
    ensures
        digits@ == decimal_digits(mantissa, scale),
        digits.len() > scale,
{
    let plain = nat_to_text(mantissa);
    let width: usize = scale as usize + 1;
    let mut digits: Vec<u8> = Vec::new();
    let mut k: usize = plain.len();
    while k < width
        invariant
            plain.len() <= k,
            k <= width || k == plain.len(),
            digits@ == zeros((k - plain.len()) as nat),
        decreases width - k,
    {
        digits.push(48);
        k = k + 1;
    }
    let ghost front = digits@;
    let mut i: usize = 0;
    while i < plain.len()
        invariant
            i <= plain.len(),
            digits@ == front + plain@.take(i as int),
        decreases plain.len() - i,
    {
        digits.push(plain[i]);
        i = i + 1;
    }
    digits
}

impl Decimal {
    /// The number zero, written `0`.
    pub fn zero() -> (d: Decimal)
        ensures
            d == (Decimal { negative: false, mantissa: 0, scale: 0 }),
    {
        Decimal { negative: false, mantissa: 0, scale: 0 }
    }

    /// Writes the number.
    pub fn to_text(&self) -> (text: Vec<u8>)
        ensures
            text@ == decimal_text(*self),
    {
        let digits = padded_digits(self.mantissa, self.scale);
        let point: usize = digits.len() - self.scale as usize;
        let mut text: Vec<u8> = Vec::new();
        if self.negative {
            text.push(MINUS);
        }
        let mut j: usize = 0;
        while j < point
            invariant
                j <= point <= digits.len(),
                text@ == sign_text(self.negative) + digits@.take(j as int),
            decreases point - j,
        {
            text.push(digits[j]);
            j = j + 1;
        }
        if self.scale > 0 {
            text.push(POINT);
        }
        let ghost front = text@;
        while j < digits.len()
            invariant
                point <= j <= digits.len(),
                text@ == front + digits@.subrange(point as int, j as int),
            decreases digits.len() - j,
        {
            text.push(digits[j]);
            j = j + 1;
        }
        text
    }

    /// Reads a number. The result is `None` unless `text` is what
    /// `to_text` writes for some number.
    pub fn from_text(text: &[u8]) -> (r: Option<Decimal>)
        ensures
            r == decimal_of_text(text@),
    {
        let negative = text.len() > 0 && text[0] == MINUS;
        let body = if negative {
            slice_subrange(text, 1, text.len())
        } else {
            text
        };
        let point = find_first(body, POINT);
        if point == body.len() {
            return match text_to_nat(body, u128::MAX) {
                Some(m) => Some(Decimal { negative, mantissa: m, scale: 0 }),
                None => None,
            };
        }
        let whole = slice_subrange(body, 0, point);
        let fraction = slice_subrange(body, point + 1, body.len());
        if whole.len() == 0 || (whole.len() > 1 && whole[0] == 48) {
            return None;
        }
        if fraction.len() == 0 || fraction.len() > 255 {
            return None;
        }
        let mut all: Vec<u8> = Vec::new();
        all.extend_from_slice(whole);
        all.extend_from_slice(fraction);
        proof {
            assert(all@ =~= whole@ + fraction@);
            lemma_all_digits_concat(whole@, fraction@);
        }
        match digits_to_nat(all.as_slice(), u128::MAX) {
            Some(m) => Some(Decimal { negative, mantissa: m, scale: fraction.len() as u8 }),
            None => None,
        }
    }
}

/// Reading the unsigned text of a number gives the number back.
pub proof fn lemma_unsigned_read_write(negative: bool, mantissa: u128, scale: u8)
    ensures
        unsigned_decimal_of_text(negative, unsigned_text(mantissa, scale)) == Some(
            Decimal { negative, mantissa, scale },
        ),
        is_digit(unsigned_text(mantissa, scale)[0]),
{
    let digits = decimal_digits(mantissa, scale);
    let point = digits.len() - scale;
    let whole = digits.take(point);
    let fraction = digits.skip(point);
    let body = unsigned_text(mantissa, scale);
    lemma_decimal_digits(mantissa, scale);
    assert(digits =~= whole + fraction);
    if scale == 0 {
        lemma_first_index(body, POINT, body.len() as int);
    } else {
        assert(body.take(point) =~= whole);
        assert(body.skip(point + 1) =~= fraction);
        lemma_first_index(body, POINT, point);
    }
}

/// Reading what was written gives the number back.
pub proof fn lemma_decimal_read_write(d: Decimal)
    ensures
        decimal_of_text(decimal_text(d)) == Some(d),
{
    let body = unsigned_text(d.mantissa, d.scale);
    let text = decimal_text(d);
    lemma_unsigned_read_write(d.negative, d.mantissa, d.scale);
    if d.negative {
        assert(text.skip(1) =~= body);
    }
}

/// An unsigned text without a point that stands for a number is the
/// unsigned text of that number.
proof fn lemma_whole_write_read(negative: bool, body: Seq<u8>, d: Decimal)
    requires
        lacks(body, POINT),
        unsigned_decimal_of_text(negative, body) == Some(d),
    ensures
        unsigned_text(d.mantissa, d.scale) == body,
{
    lemma_first_index_found(body, POINT);
    lemma_digits_of_value(body);
}

/// An unsigned text with a point that stands for a number is the
/// unsigned text of that number.
proof fn lemma_fraction_write_read(negative: bool, body: Seq<u8>, d: Decimal)
    requires
        !lacks(body, POINT),
        unsigned_decimal_of_text(negative, body) == Some(d),
    ensures
        unsigned_text(d.mantissa, d.scale) == body,
{
    let point = first_index(body, POINT);
    lemma_first_index_found(body, POINT);
    let whole = body.take(point);
    let fraction = body.skip(point + 1);
    let all = whole + fraction;
    if whole[0] != 48 {
        lemma_digits_of_value(all);
    } else {
        lemma_pad_digits(all);
    }
}

/// A text that stands for a number is the text of that number.
pub proof fn lemma_decimal_write_read(s: Seq<u8>, d: Decimal)
    requires
        decimal_of_text(s) == Some(d),
    ensures
        decimal_text(d) == s,
{
    let body = if s.len() > 0 && s[0] == MINUS {
        s.skip(1)
    } else {
        s
    };
    if lacks(body, POINT) {
        lemma_whole_write_read(d.negative, body, d);
    } else {
        lemma_fraction_write_read(d.negative, body, d);
    }
}

/// The text of a number holds digits, `-` and `.` only.
pub proof fn lemma_decimal_text_bytes(d: Decimal, i: int)
    requires
        0 <= i < decimal_text(d).len(),
    ensures
        is_digit(decimal_text(d)[i]) || decimal_text(d)[i] == MINUS || decimal_text(d)[i] == POINT,
{
    lemma_decimal_digits(d.mantissa, d.scale);
    let shift = sign_text(d.negative).len();
}

} // verus!
