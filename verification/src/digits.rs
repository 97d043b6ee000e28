//! Natural numbers as decimal text.
//!
//! A number is written with its decimal digits, most significant first,
//! without sign and without leading zeros; zero is written `0`. Reading
//! accepts exactly the texts that writing produces.

use vstd::prelude::*;

verus! {

/// True for the bytes `0` to `9`.
pub open spec fn is_digit(b: u8) -> bool {
    48 <= b <= 57
}

/// The byte that shows the digit `d`.
pub open spec fn digit_byte(d: int) -> u8
    recommends
        0 <= d < 10,
{
    (48 + d) as u8
}

/// True when `s` consists of digits only.
pub open spec fn all_digits(s: Seq<u8>) -> bool {
    forall|i: int| 0 <= i < s.len() ==> is_digit(#[trigger] s[i])
}

/// The decimal digits of `n`.
pub open spec fn nat_digits(n: nat) -> Seq<u8>
    decreases n,
{
    if n < 10 {
        seq![digit_byte(n as int)]
    } else {
        nat_digits(n / 10).push(digit_byte((n % 10) as int))
    }
}

/// The number that the digits `s` denote in base ten.
pub open spec fn digits_value(s: Seq<u8>) -> nat
    decreases s.len(),
{
    if s.len() == 0 {
        0
    } else {
        digits_value(s.drop_last()) * 10 + (s.last() - 48) as nat
    }
}

/// True when `s` is the way some number is written: at least one digit,
/// and no leading zero in front of another digit.
pub open spec fn is_canonical(s: Seq<u8>) -> bool {
    &&& s.len() > 0
    &&& all_digits(s)
    &&& s.len() > 1 ==> s[0] != 48
}

/// The number that the text `s` stands for, if it stands for one.
pub open spec fn nat_of_text(s: Seq<u8>) -> Option<nat> {
    if is_canonical(s) {
        Some(digits_value(s))
    } else {
        None
    }
}

/// `k` zero digits.
pub open spec fn zeros(k: nat) -> Seq<u8> {
    Seq::new(k, |i: int| 48u8)
}

/// `s`, with zero digits in front to make it at least `width` long.
pub open spec fn pad_zeros(s: Seq<u8>, width: nat) -> Seq<u8> {
    if s.len() >= width {
        s
    } else {
        zeros((width - s.len()) as nat) + s
    }
}

/// What is written for a number is canonical and denotes that number.
pub proof fn lemma_nat_digits(n: nat)
    ensures
        is_canonical(nat_digits(n)),
        digits_value(nat_digits(n)) == n,
        n > 0 ==> nat_digits(n)[0] != 48,
    decreases n,
{
    if n < 10 {
        let s = nat_digits(n);
        assert(digits_value(s.drop_last()) == 0);
    } else {
        lemma_nat_digits(n / 10);
        let p = nat_digits(n / 10);
        let s = nat_digits(n);
        assert(s.drop_last() =~= p);
    }
}

/// A digit string that does not start with zero denotes a positive number.
pub proof fn lemma_value_positive(s: Seq<u8>)
    requires
        s.len() > 0,
        all_digits(s),
        s[0] != 48,
    ensures
        digits_value(s) > 0,
    decreases s.len(),
{
    if s.len() > 1 {
        lemma_value_positive(s.drop_last());
    }
}

/// A canonical text is what is written for the number it denotes.
pub proof fn lemma_digits_of_value(s: Seq<u8>)
    requires
        is_canonical(s),
    ensures
        nat_digits(digits_value(s)) == s,
    decreases s.len(),
{
    let p = s.drop_last();
    if s.len() == 1 {
        assert(digits_value(p) == 0);
    } else {
        lemma_digits_of_value(p);
    }
}

/// A zero digit in front does not change what digits denote.
pub proof fn lemma_leading_zero(s: Seq<u8>)
    ensures
        digits_value(seq![48u8] + s) == digits_value(s),
    decreases s.len(),
{
    let t = seq![48u8] + s;
    if s.len() == 0 {
        assert(digits_value(t.drop_last()) == 0);
    } else {
        lemma_leading_zero(s.drop_last());
        assert(t.drop_last() =~= seq![48u8] + s.drop_last());
    }
}

/// Zero digits in front do not change what digits denote.
pub proof fn lemma_leading_zeros(k: nat, s: Seq<u8>)
    ensures
        digits_value(zeros(k) + s) == digits_value(s),
    decreases k,
{
    if k > 0 {
        lemma_leading_zeros((k - 1) as nat, s);
        lemma_leading_zero(zeros((k - 1) as nat) + s);
        assert(zeros(k) + s =~= seq![48u8] + (zeros((k - 1) as nat) + s));
    }
}

/// Writing the number that digits denote, and padding it with zeros to
/// their length, gives the digits back.
pub proof fn lemma_pad_digits(s: Seq<u8>)
    requires
        s.len() > 0,
        all_digits(s),
    ensures
        nat_digits(digits_value(s)).len() <= s.len(),
        pad_zeros(nat_digits(digits_value(s)), s.len()) == s,
    decreases s.len(),
{
    if s[0] != 48 || s.len() == 1 {
        lemma_digits_of_value(s);
    } else {
        let rest = s.drop_first();
        assert(s =~= seq![48u8] + rest);
        lemma_leading_zero(rest);
        lemma_pad_digits(rest);
    }
}

/// The value of the first digits of a digit string never exceeds the
/// value of the whole.
pub proof fn lemma_prefix_value(s: Seq<u8>, k: int)
    requires
        0 <= k <= s.len(),
        all_digits(s),
    ensures
        digits_value(s.take(k)) <= digits_value(s),
    decreases s.len() - k,
{
    if k == s.len() {
        assert(s.take(k) =~= s);
    } else {
        lemma_prefix_value(s, k + 1);
        let t = s.take(k + 1);
        assert(t.drop_last() =~= s.take(k));
    }
}

/// The number that the text `s` stands for, if it stands for one that is
/// at most `max`.
pub open spec fn bounded_nat_of_text(s: Seq<u8>, max: nat) -> Option<nat> {
    match nat_of_text(s) {
        Some(v) => if v <= max {
            Some(v)
        } else {
            None
        },
        None => None,
    }
}

/// Appends the decimal digits of `n` to `out`.
pub fn append_nat(n: u128, out: &mut Vec<u8>)
    ensures
        final(out)@ == old(out)@ + nat_digits(n as nat),
    decreases n,
{
    if n >= 10 {
        append_nat(n / 10, out);
    }
    let d: u8 = (n % 10) as u8;
    out.push(48 + d);
}

/// Writes `n` in decimal.
pub fn nat_to_text(n: u128) -> (text: Vec<u8>)
    ensures
        text@ == nat_digits(n as nat),
{
    let mut text: Vec<u8> = Vec::new();
    append_nat(n, &mut text);
    text
}

/// Tells whether `b` is a decimal digit.
pub fn byte_is_digit(b: u8) -> (r: bool)
    ensures
        r == is_digit(b),
{
    48 <= b && b <= 57
}

/// Reads the digits `text` as a number, most significant digit first.
/// Leading zeros are accepted here; the result is `None` when a byte is
/// no digit or the number exceeds `max`.
pub fn digits_to_nat(text: &[u8], max: u128) -> (r: Option<u128>)
    ensures
        match r {
            Some(v) => all_digits(text@) && v == digits_value(text@) && v <= max,
            None => !all_digits(text@) || digits_value(text@) > max,
        },
{
    let mut acc: u128 = 0;
    let mut i: usize = 0;
    while i < text.len()
        invariant
            i <= text.len(),
            all_digits(text@.take(i as int)),
            acc == digits_value(text@.take(i as int)),
            acc <= max,
        decreases text.len() - i,
    {
        let b = text[i];
        if !byte_is_digit(b) {
            return None;
        }
        let d: u128 = (b - 48) as u128;
        proof {
            let t = text@.take(i + 1);
            assert(t.drop_last() =~= text@.take(i as int));
            if all_digits(text@) {
                lemma_prefix_value(text@, i + 1);
            }
        }
        if d > max || acc > (max - d) / 10 {
            return None;
        }
        acc = acc * 10 + d;
        i = i + 1;
    }
    proof {
        assert(text@.take(i as int) =~= text@);
    }
    Some(acc)
}

/// Reads `text` as a number of at most `max`. The text must be what
/// `nat_to_text` writes for that number: digits only, at least one, and
/// no leading zero in front of another digit.
pub fn text_to_nat(text: &[u8], max: u128) -> (r: Option<u128>)
    ensures
        match r {
            Some(v) => bounded_nat_of_text(text@, max as nat) == Some(v as nat),
            None => bounded_nat_of_text(text@, max as nat) is None,
        },
{
    if text.len() == 0 {
        return None;
    }
    if text.len() > 1 && text[0] == 48 {
        return None;
    }
    digits_to_nat(text, max)
}

} // verus!
