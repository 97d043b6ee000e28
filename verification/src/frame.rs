//! The frame of a sentence.
//!
//! A sentence on the wire is
//!
//! ```text
//! $<payload>*<checksum>\r\n
//! ```
//!
//! where the checksum is taken over the payload, the bytes strictly
//! between `$` and the last `*`, and written as two hexadecimal digits.

use vstd::prelude::*;
use vstd::slice::slice_subrange;
use vstd::utf8::encode_utf8;
use crate::checksum::{
    checksum_of_text, compute, format_bytes, hex_text, hex_value, parse, xor_fold,
};
use crate::errors::DecodeError;
use crate::text::{
    find_last, last_index, lemma_last_index, lemma_last_index_found, push_ascii, push_ascii_bytes,
    push_text,
};

verus! {

/// The byte `$`, which starts a sentence.
pub const DOLLAR: u8 = 36;

/// The byte `*`, which ends the payload.
pub const STAR: u8 = 42;

/// The byte `,`, which separates fields.
pub const COMMA: u8 = 44;

/// Carriage return, the last byte but one of a sentence.
pub const CR: u8 = 13;

/// Line feed, the last byte of a sentence.
pub const LF: u8 = 10;

/// The sentence around `payload`.
pub open spec fn frame(payload: Seq<u8>) -> Seq<u8> {
    seq![DOLLAR] + payload + seq![STAR] + hex_text(xor_fold(payload)) + seq![CR, LF]
}

/// True when `line` has the frame of a sentence: `$` in front, a `*`
/// somewhere, carriage return and line feed at the end.
pub open spec fn is_framed(line: Seq<u8>) -> bool {
    &&& line.len() >= 2
    &&& line[0] == DOLLAR
    &&& last_index(line, STAR) >= 0
    &&& line[line.len() - 2] == CR
    &&& line[line.len() - 1] == LF
}

/// The payload of the sentence `line`, or why `line` is no sentence.
pub open spec fn payload_of_line(line: Seq<u8>) -> Result<Seq<u8>, DecodeError> {
    let star = last_index(line, STAR);
    let payload = line.subrange(1, star);
    if !is_framed(line) {
        Err(DecodeError::MalformedFrame)
    } else {
        match checksum_of_text(line.subrange(star + 1, line.len() - 2)) {
            None => Err(DecodeError::BadChecksumFormat),
            Some(claimed) => if claimed == xor_fold(payload) {
                Ok(payload)
            } else {
                Err(DecodeError::ChecksumMismatch { expected: xor_fold(payload), actual: claimed })
            },
        }
    }
}

/// Writes the sentence around `payload`.
pub fn write_frame(payload: &str) -> (line: String)
    ensures
        encode_utf8(line@) == frame(encode_utf8(payload@)),
{
    let digits = format_bytes(compute(payload.as_bytes()));
    let mut line = String::new();
    push_ascii(&mut line, DOLLAR);
    push_text(&mut line, payload);
    push_ascii(&mut line, STAR);
    push_ascii_bytes(&mut line, digits.as_slice());
    push_ascii(&mut line, CR);
    push_ascii(&mut line, LF);
    line
}

/// Checks the frame and the checksum of the sentence `line`, and gives
/// its payload.
pub fn read_frame(line: &[u8]) -> (r: Result<&[u8], DecodeError>)
    ensures
        match r {
            Ok(payload) => payload_of_line(line@) == Ok::<Seq<u8>, DecodeError>(payload@),
            Err(e) => payload_of_line(line@) == Err::<Seq<u8>, DecodeError>(e),
        },
{
    let n = line.len();
    if n < 2 || line[0] != DOLLAR {
        return Err(DecodeError::MalformedFrame);
    }
    let star = match find_last(line, STAR) {
        Some(star) => star,
        None => {
            return Err(DecodeError::MalformedFrame);
        },
    };
    if line[n - 2] != CR || line[n - 1] != LF {
        return Err(DecodeError::MalformedFrame);
    }
    proof {
        lemma_last_index_found(line@, STAR);
    }
    let payload = slice_subrange(line, 1, star);
    let claimed = match parse(slice_subrange(line, star + 1, n - 2)) {
        Some(claimed) => claimed,
        None => {
            return Err(DecodeError::BadChecksumFormat);
        },
    };
    let expected = compute(payload);
    if claimed != expected {
        return Err(DecodeError::ChecksumMismatch { expected, actual: claimed });
    }
    Ok(payload)
}

/// The payload of a framed payload is that payload.
pub proof fn lemma_frame_read_write(payload: Seq<u8>)
    ensures
        payload_of_line(frame(payload)) == Ok::<Seq<u8>, DecodeError>(payload),
{
    let line = frame(payload);
    let star: int = payload.len() as int + 1;
    lemma_last_index(line, STAR, star);
    assert(line.subrange(1, star) =~= payload);
}

/// A line with a payload is the frame of that payload, but for the case
/// of its two checksum digits.
pub proof fn lemma_frame_write_read(line: Seq<u8>)
    requires
        payload_of_line(line) is Ok,
    ensures
        ({
            let sent = frame(payload_of_line(line)->Ok_0);
            let n = line.len();
            &&& sent.len() == n
            &&& forall|i: int| 0 <= i < n && i != n - 4 && i != n - 3 ==> sent[i] == line[i]
            &&& hex_value(sent[n - 4]) == hex_value(line[n - 4])
            &&& hex_value(sent[n - 3]) == hex_value(line[n - 3])
        }),
{
    lemma_last_index_found(line, STAR);
}

/// Checksum rejection: when one of the two checksum digits of a sentence
/// is replaced by a byte `b`, the sentence has no payload any more,
/// unless `b` is the same hexadecimal digit in the other case. It fails
/// with a checksum mismatch where `b` is another hexadecimal digit, and
/// with a bad checksum format where `b` is no hexadecimal digit at all.
pub proof fn lemma_checksum_digit_replaced(payload: Seq<u8>, k: int, b: u8)
    requires
        0 <= k < 2,
    ensures
        ({
            let at: int = payload.len() + 2 + k;
            let line = frame(payload).update(at, b);
            let expected = xor_fold(payload);
            match hex_value(b) {
                None => payload_of_line(line) == Err::<Seq<u8>, DecodeError>(
                    DecodeError::BadChecksumFormat,
                ),
                Some(v) => if Some(v) == hex_value(frame(payload)[at]) {
                    payload_of_line(line) == Ok::<Seq<u8>, DecodeError>(payload)
                } else {
                    &&& payload_of_line(line) matches Err(
                        DecodeError::ChecksumMismatch { expected: e, actual: a },
                    )
                    &&& e == expected
                    &&& a != expected
                },
            }
        }),
{
    let at: int = payload.len() + 2 + k;
    let sent = frame(payload);
    let line = sent.update(at, b);
    let expected = xor_fold(payload);
    if b == STAR {
        lemma_last_index(line, STAR, at);
    } else {
        let star: int = payload.len() as int + 1;
        lemma_last_index(line, STAR, star);
        assert(line.subrange(1, star) =~= payload);
    }
}

} // verus!
