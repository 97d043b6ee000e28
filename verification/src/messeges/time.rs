//! The time of day of a position.

use vstd::prelude::*;
use vstd::slice::slice_subrange;
use crate::devices::NmeaBuff;
use crate::digits::{
    all_digits, append_nat, digit_byte, digits_to_nat, digits_value, lemma_nat_digits, nat_digits,
    pad_zeros,
};
use crate::errors::{DecodeError, EncodeError};
use crate::text::ascii_string;

verus! {

/// A time of day.
#[derive(Clone, Copy, Debug, PartialEq, Eq, Structural)]
pub struct NmeaTime {
    /// The hour.
    pub hour: u8,
    /// The minute of the hour.
    pub minute: u8,
    /// The second of the minute.
    pub second: u8,
}

impl View for NmeaTime {
    type V = NmeaTime;

    open spec fn view(&self) -> NmeaTime {
        *self
    }
}

/// The digits of `v`, with a zero in front where it has only one.
pub open spec fn two_digits(v: u8) -> Seq<u8> {
    pad_zeros(nat_digits(v as nat), 2)
}

/// The text of a time: hour, minute and second, two digits each.
pub open spec fn time_text(t: NmeaTime) -> Seq<u8> {
    two_digits(t.hour) + two_digits(t.minute) + two_digits(t.second)
}

/// True when the text of `t` has exactly six digits.
pub open spec fn valid_time(t: NmeaTime) -> bool {
    t.hour < 100 && t.minute < 100 && t.second < 100
}

/// The time that the text `s` stands for: `s` must be exactly six digits.
pub open spec fn time_of_text(s: Seq<u8>) -> Option<NmeaTime> {
    if s.len() == 6 && all_digits(s) {
        Some(
            NmeaTime {
                hour: digits_value(s.subrange(0, 2)) as u8,
                minute: digits_value(s.subrange(2, 4)) as u8,
                second: digits_value(s.subrange(4, 6)) as u8,
            },
        )
    } else {
        None
    }
}

/// What two digits denote.
pub proof fn lemma_pair_value(s: Seq<u8>)
    requires
        s.len() == 2,
        all_digits(s),
    ensures
        digits_value(s) == (s[0] - 48) * 10 + (s[1] - 48),
        digits_value(s) < 100,
{
    reveal_with_fuel(digits_value, 3);
}

/// A number below one hundred is written with a digit for the tens and a
/// digit for the ones.
pub proof fn lemma_two_digits(v: u8)
    requires
        v < 100,
    ensures
        two_digits(v) == seq![digit_byte(v as int / 10), digit_byte(v as int % 10)],
{
    reveal_with_fuel(nat_digits, 2);
}

/// Reading the text of a valid time gives the time back.
pub proof fn lemma_time_read_write(t: NmeaTime)
    requires
        valid_time(t),
    ensures
        time_of_text(time_text(t)) == Some(t),
{
    let s = time_text(t);
    lemma_two_digits(t.hour);
    lemma_two_digits(t.minute);
    lemma_two_digits(t.second);
    assert(s.subrange(0, 2) =~= two_digits(t.hour));
    assert(s.subrange(2, 4) =~= two_digits(t.minute));
    assert(s.subrange(4, 6) =~= two_digits(t.second));
    lemma_pair_value(two_digits(t.hour));
    lemma_pair_value(two_digits(t.minute));
    lemma_pair_value(two_digits(t.second));
}

/// A text that stands for a time is the text of that time, and the time
/// is valid.
pub proof fn lemma_time_write_read(s: Seq<u8>, t: NmeaTime)
    requires
        time_of_text(s) == Some(t),
    ensures
        time_text(t) == s,
        valid_time(t),
{
    let h = s.subrange(0, 2);
    let m = s.subrange(2, 4);
    let x = s.subrange(4, 6);
    lemma_pair_value(h);
    lemma_pair_value(m);
    lemma_pair_value(x);
    lemma_two_digits(t.hour);
    lemma_two_digits(t.minute);
    lemma_two_digits(t.second);
}

/// Appends the digits of `v` to `out`, with a zero in front where `v` has
/// only one.
fn append_two_digits(v: u8, out: &mut Vec<u8>)
    ensures
        final(out)@ == old(out)@ + two_digits(v),
{
    proof {
        reveal_with_fuel(nat_digits, 2);
    }
    if v < 10 {
        out.push(48);
    }
    append_nat(v as u128, out);
}

impl NmeaTime {
    /// Midnight.
    pub fn new() -> (t: NmeaTime)
        ensures
            t == (NmeaTime { hour: 0, minute: 0, second: 0 }),
    {
        NmeaTime { hour: 0, minute: 0, second: 0 }
    }

    /// The time with the given hour, minute and second.
    pub fn from_hms(hour: u8, minute: u8, second: u8) -> (t: NmeaTime)
        ensures
            t == (NmeaTime { hour, minute, second }),
    {
        NmeaTime { hour, minute, second }
    }

    /// Tells whether the text of this time has exactly six digits.
    pub fn is_valid(&self) -> (r: bool)
        ensures
            r == valid_time(*self),
    {
        self.hour < 100 && self.minute < 100 && self.second < 100
    }

    /// Writes the time.
    pub fn to_text(&self) -> (text: Vec<u8>)
        ensures
            text@ == time_text(*self),
    {
        let mut text: Vec<u8> = Vec::new();
        append_two_digits(self.hour, &mut text);
        append_two_digits(self.minute, &mut text);
        append_two_digits(self.second, &mut text);
        text
    }

    /// Reads a time: exactly six digits.
    pub fn from_text(text: &[u8]) -> (r: Option<NmeaTime>)
        ensures
            r == time_of_text(text@),
    {
        if text.len() != 6 {
            return None;
        }
        let hour = digits_to_nat(slice_subrange(text, 0, 2), 99);
        let minute = digits_to_nat(slice_subrange(text, 2, 4), 99);
        let second = digits_to_nat(slice_subrange(text, 4, 6), 99);
        proof {
            let h = text@.subrange(0, 2);
            let m = text@.subrange(2, 4);
            let s = text@.subrange(4, 6);
            if all_digits(h) {
                lemma_pair_value(h);
            }
            if all_digits(m) {
                lemma_pair_value(m);
            }
            if all_digits(s) {
                lemma_pair_value(s);
            }
        }
        match (hour, minute, second) {
            (Some(h), Some(m), Some(s)) => Some(
                NmeaTime { hour: h as u8, minute: m as u8, second: s as u8 },
            ),
            _ => None,
        }
    }
}

impl NmeaBuff for NmeaTime {
    open spec fn text_of(value: NmeaTime) -> Result<Seq<u8>, EncodeError> {
        Ok(time_text(value))
    }

    open spec fn value_of(text: Seq<u8>) -> Result<NmeaTime, DecodeError> {
        match time_of_text(text) {
            Some(t) => Ok(t),
            None => Err(DecodeError::FieldTypeMismatch { position: 0 }),
        }
    }

    open spec fn valid(value: NmeaTime) -> bool {
        valid_time(value)
    }

    fn as_string(&self) -> (r: Result<String, EncodeError>) {
        let text = self.to_text();
        proof {
            lemma_time_text_ascii(*self);
        }
        Ok(ascii_string(text.as_slice()))
    }

    fn parse_payload(msg: &[u8]) -> (r: Result<NmeaTime, DecodeError>) {
        match NmeaTime::from_text(msg) {
            Some(t) => Ok(t),
            None => Err(DecodeError::FieldTypeMismatch { position: 0 }),
        }
    }

    proof fn lemma_read_write(value: NmeaTime) {
        lemma_time_read_write(value);
    }

    proof fn lemma_value_valid(text: Seq<u8>) {
        lemma_time_write_read(text, time_of_text(text)->Some_0);
    }

    proof fn lemma_write_read(text: Seq<u8>) {
        lemma_time_write_read(text, time_of_text(text)->Some_0);
    }
}

/// The text of a time holds digits only.
pub proof fn lemma_time_text_ascii(t: NmeaTime)
    ensures
        all_digits(time_text(t)),
{
    lemma_all_two_digits(t.hour);
    lemma_all_two_digits(t.minute);
    lemma_all_two_digits(t.second);
}

/// What `two_digits` gives holds digits only.
pub proof fn lemma_all_two_digits(v: u8)
    ensures
        all_digits(two_digits(v)),
{
    lemma_nat_digits(v as nat);
}

} // verus!
