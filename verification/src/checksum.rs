//! The one-byte checksum of a sentence and its two-digit hexadecimal form.

use vstd::prelude::*;
use vstd::utf8::encode_utf8;
use crate::text::ascii_string;

verus! {

/// The exclusive-or of all bytes of `payload`, folded from left to right
/// starting at zero.
pub open spec fn xor_fold(payload: Seq<u8>) -> u8
    decreases payload.len(),
{
    if payload.len() == 0 {
        0u8
    } else {
        xor_fold(payload.drop_last()) ^ payload.last()
    }
}

/// Computes the checksum of `payload`: the bytes strictly between the
/// leading `$` and the trailing `*` of a sentence.
pub fn compute(payload: &[u8]) -> (sum: u8)
    ensures
        sum == xor_fold(payload@),
{
    let mut sum: u8 = 0;
    let mut i: usize = 0;
    while i < payload.len()
        invariant
            i <= payload.len(),
            sum == xor_fold(payload@.take(i as int)),
        decreases payload.len() - i,
    {
        proof {
            assert(payload@.take(i + 1).drop_last() =~= payload@.take(i as int));
        }
        sum = sum ^ payload[i];
        i = i + 1;
    }
    proof {
        assert(payload@.take(i as int) =~= payload@);
    }
    sum
}

/// The checksum of two payloads set one behind the other is the
/// exclusive-or of their checksums.
pub proof fn lemma_xor_fold_concat(a: Seq<u8>, b: Seq<u8>)
    ensures
        xor_fold(a + b) == xor_fold(a) ^ xor_fold(b),
    decreases b.len(),
{
    if b.len() == 0 {
        let x = xor_fold(a);
        assert(x ^ 0u8 == x) by (bit_vector);
    } else {
        lemma_xor_fold_concat(a, b.drop_last());
        assert((a + b).drop_last() =~= a + b.drop_last());
        let x = xor_fold(a);
        let y = xor_fold(b.drop_last());
        let z = b.last();
        assert((x ^ y) ^ z == x ^ (y ^ z)) by (bit_vector);
    }
}

/// Determinism: payloads that hold the same bytes in the same order have
/// the same checksum.
pub proof fn lemma_xor_fold_deterministic(a: Seq<u8>, b: Seq<u8>)
    requires
        a.len() == b.len(),
        forall|i: int| 0 <= i < a.len() ==> a[i] == b[i],
    ensures
        xor_fold(a) == xor_fold(b),
{
    assert(a =~= b);
}

/// The checksum does not tell in which order two parts of a payload
/// stand.
pub proof fn lemma_xor_fold_commutes(a: Seq<u8>, b: Seq<u8>)
    ensures
        xor_fold(a + b) == xor_fold(b + a),
{
    lemma_xor_fold_concat(a, b);
    lemma_xor_fold_concat(b, a);
    let x = xor_fold(a);
    let y = xor_fold(b);
    assert(x ^ y == y ^ x) by (bit_vector);
}

/// The upper-case hexadecimal digit for `n`.
pub open spec fn hex_digit(n: u8) -> u8
    recommends
        n < 16,
{
    if n < 10 {
        (48 + n) as u8
    } else {
        (55 + n) as u8
    }
}

/// The two upper-case hexadecimal digits of `checksum`, zero-padded.
pub open spec fn hex_text(checksum: u8) -> Seq<u8> {
    seq![hex_digit(checksum / 16), hex_digit(checksum % 16)]
}

/// The value of the hexadecimal digit `b`, in either case.
pub open spec fn hex_value(b: u8) -> Option<u8> {
    if 48 <= b <= 57 {
        Some((b - 48) as u8)
    } else if 65 <= b <= 70 {
        Some((b - 55) as u8)
    } else if 97 <= b <= 102 {
        Some((b - 87) as u8)
    } else {
        None
    }
}

/// The checksum that the text `s` claims: `s` must be exactly two
/// hexadecimal digits.
pub open spec fn checksum_of_text(s: Seq<u8>) -> Option<u8> {
    if s.len() == 2 && hex_value(s[0]) is Some && hex_value(s[1]) is Some {
        Some((hex_value(s[0])->Some_0 * 16 + hex_value(s[1])->Some_0) as u8)
    } else {
        None
    }
}

/// Reading a formatted checksum gives the checksum back.
pub proof fn lemma_checksum_read_write(checksum: u8)
    ensures
        checksum_of_text(hex_text(checksum)) == Some(checksum),
{
}

/// The two digits of `checksum` as bytes.
pub fn format_bytes(checksum: u8) -> (text: Vec<u8>)
    ensures
        text@ == hex_text(checksum),
{
    let high: u8 = checksum / 16;
    let low: u8 = checksum % 16;
    let mut text: Vec<u8> = Vec::new();
    text.push(if high < 10 { 48 + high } else { 55 + high });
    text.push(if low < 10 { 48 + low } else { 55 + low });
    text
}

/// Formats `checksum` as two upper-case hexadecimal digits.
pub fn format(checksum: u8) -> (text: String)
    ensures
        encode_utf8(text@) == hex_text(checksum),
{
    let bytes = format_bytes(checksum);
    ascii_string(bytes.as_slice())
}

/// The value of one hexadecimal digit.
pub fn hex_digit_value(b: u8) -> (r: Option<u8>)
    ensures
        r == hex_value(b),
{
    if 48 <= b && b <= 57 {
        Some(b - 48)
    } else if 65 <= b && b <= 70 {
        Some(b - 55)
    } else if 97 <= b && b <= 102 {
        Some(b - 87)
    } else {
        None
    }
}

/// Reads a claimed checksum: exactly two hexadecimal digits, in either
/// case.
pub fn parse(text: &[u8]) -> (r: Option<u8>)
    ensures
        r == checksum_of_text(text@),
{
    if text.len() != 2 {
        return None;
    }
    match (hex_digit_value(text[0]), hex_digit_value(text[1])) {
        (Some(high), Some(low)) => Some(high * 16 + low),
        _ => None,
    }
}

} // verus!
