//! The values that stand between the commas of a sentence.

use vstd::prelude::*;
use vstd::utf8::encode_utf8;
use crate::decimal::{
    decimal_of_text, decimal_text, lemma_decimal_read_write, lemma_decimal_text_bytes,
    lemma_decimal_write_read, Decimal,
};
use crate::frame::{COMMA, DOLLAR, STAR};
use crate::digits::{
    bounded_nat_of_text, lemma_digits_of_value, lemma_nat_digits, nat_digits, nat_to_text,
    text_to_nat,
};
use crate::messeges::time::{
    lemma_time_read_write, lemma_time_text_ascii, lemma_time_write_read, time_of_text, time_text,
    valid_time, NmeaTime,
};
use crate::schema::FieldType;
use crate::text::{ascii_string, lemma_utf8_ascii_char, push_char};

verus! {

/// One field of a sentence.
#[derive(Clone, Copy, Debug, PartialEq, Eq, Structural)]
pub enum NmeaFields {
    /// A decimal number, such as a latitude or a dilution of precision.
    Float(Decimal),
    /// A single character, such as a hemisphere or a unit.
    Char(char),
    /// A small count or identifier.
    UInt8(u8),
    /// A larger count or identifier.
    UInt16(u16),
    /// The time of a position.
    TimeOfDay(NmeaTime),
}

/// The type of a field.
pub open spec fn field_type(f: NmeaFields) -> FieldType {
    match f {
        NmeaFields::Float(_) => FieldType::Float,
        NmeaFields::Char(_) => FieldType::Char,
        NmeaFields::UInt8(_) => FieldType::UInt8,
        NmeaFields::UInt16(_) => FieldType::UInt16,
        NmeaFields::TimeOfDay(_) => FieldType::TimeOfDay,
    }
}

/// The text of a field: a decimal number as `decimal_text` writes it, a
/// character as itself, an unsigned number in decimal without leading
/// zeros, a time as six digits.
pub open spec fn field_text(f: NmeaFields) -> Seq<u8> {
    match f {
        NmeaFields::Float(d) => decimal_text(d),
        NmeaFields::Char(c) => encode_utf8(seq![c]),
        NmeaFields::UInt8(v) => nat_digits(v as nat),
        NmeaFields::UInt16(v) => nat_digits(v as nat),
        NmeaFields::TimeOfDay(t) => time_text(t),
    }
}

/// True when `b` may be the text of a character field: an ASCII byte
/// other than `,`, `*` and `$`.
pub open spec fn is_field_byte(b: u8) -> bool {
    b < 128 && b != COMMA && b != STAR && b != DOLLAR
}

/// True for the fields that can be sent and read back: a character field
/// holds an ASCII character other than `,`, `*` and `$`, and a time has
/// two digits for each of its parts.
pub open spec fn valid_field(f: NmeaFields) -> bool {
    match f {
        NmeaFields::Char(c) => (c as u32) < 128 && is_field_byte(c as u8),
        NmeaFields::TimeOfDay(t) => valid_time(t),
        _ => true,
    }
}

/// The field of type `ty` that the text `s` stands for, if it stands for
/// one.
pub open spec fn field_of_text(ty: FieldType, s: Seq<u8>) -> Option<NmeaFields> {
    match ty {
        FieldType::Float => match decimal_of_text(s) {
            Some(d) => Some(NmeaFields::Float(d)),
            None => None,
        },
        FieldType::Char => if s.len() == 1 && is_field_byte(s[0]) {
            Some(NmeaFields::Char(s[0] as char))
        } else {
            None
        },
        FieldType::UInt8 => match bounded_nat_of_text(s, u8::MAX as nat) {
            Some(v) => Some(NmeaFields::UInt8(v as u8)),
            None => None,
        },
        FieldType::UInt16 => match bounded_nat_of_text(s, u16::MAX as nat) {
            Some(v) => Some(NmeaFields::UInt16(v as u16)),
            None => None,
        },
        FieldType::TimeOfDay => match time_of_text(s) {
            Some(t) => Some(NmeaFields::TimeOfDay(t)),
            None => None,
        },
    }
}

/// Reading the text of a valid field, as its own type, gives the field
/// back.
pub proof fn lemma_field_read_write(f: NmeaFields)
    requires
        valid_field(f),
    ensures
        field_of_text(field_type(f), field_text(f)) == Some(f),
{
    match f {
        NmeaFields::Float(d) => {
            lemma_decimal_read_write(d);
        },
        NmeaFields::Char(c) => {
            lemma_utf8_ascii_char(c);
        },
        NmeaFields::UInt8(v) => {
            lemma_nat_digits(v as nat);
        },
        NmeaFields::UInt16(v) => {
            lemma_nat_digits(v as nat);
        },
        NmeaFields::TimeOfDay(t) => {
            lemma_time_read_write(t);
        },
    }
}

/// A text that stands for a field is the text of that field, and the
/// field is valid and of the type asked for.
pub proof fn lemma_field_write_read(ty: FieldType, s: Seq<u8>, f: NmeaFields)
    requires
        field_of_text(ty, s) == Some(f),
    ensures
        field_text(f) == s,
        field_type(f) == ty,
        valid_field(f),
{
    match ty {
        FieldType::Float => {
            lemma_decimal_write_read(s, f->Float_0);
        },
        FieldType::Char => {
            let c = s[0] as char;
            lemma_utf8_ascii_char(c);
        },
        FieldType::UInt8 => {
            lemma_digits_of_value(s);
        },
        FieldType::UInt16 => {
            lemma_digits_of_value(s);
        },
        FieldType::TimeOfDay => {
            lemma_time_write_read(s, f->TimeOfDay_0);
        },
    }
}

/// The text of a valid field holds ASCII bytes only, and none of `,`,
/// `*` and `$`.
pub proof fn lemma_field_text_bytes(f: NmeaFields, i: int)
    requires
        valid_field(f),
        0 <= i < field_text(f).len(),
    ensures
        is_field_byte(field_text(f)[i]),
{
    match f {
        NmeaFields::Float(d) => {
            lemma_decimal_text_bytes(d, i);
        },
        NmeaFields::Char(c) => {
            lemma_utf8_ascii_char(c);
        },
        NmeaFields::UInt8(v) => {
            lemma_nat_digits(v as nat);
        },
        NmeaFields::UInt16(v) => {
            lemma_nat_digits(v as nat);
        },
        NmeaFields::TimeOfDay(t) => {
            lemma_time_text_ascii(t);
        },
    }
}

impl NmeaFields {
    /// The type of the field.
    pub fn field_type(&self) -> (ty: FieldType)
        ensures
            ty == field_type(*self),
    {
        match self {
            NmeaFields::Float(_) => FieldType::Float,
            NmeaFields::Char(_) => FieldType::Char,
            NmeaFields::UInt8(_) => FieldType::UInt8,
            NmeaFields::UInt16(_) => FieldType::UInt16,
            NmeaFields::TimeOfDay(_) => FieldType::TimeOfDay,
        }
    }

    /// Tells whether the field can be sent and read back.
    pub fn is_valid(&self) -> (r: bool)
        ensures
            r == valid_field(*self),
    {
        match self {
            NmeaFields::Char(c) => {
                let code: u32 = *c as u32;
                code < 128 && code != COMMA as u32 && code != STAR as u32 && code != DOLLAR as u32
            },
            NmeaFields::TimeOfDay(t) => t.is_valid(),
            _ => true,
        }
    }

    /// Writes the field.
    pub fn unwrap(&self) -> (text: String)
        ensures
            encode_utf8(text@) == field_text(*self),
    {
        match self {
            NmeaFields::Float(d) => {
                let bytes = d.to_text();
                proof {
                    assert forall|i: int| 0 <= i < bytes@.len() implies #[trigger] bytes@[i]
                        < 128 by {
                        lemma_decimal_text_bytes(*d, i);
                    }
                }
                ascii_string(bytes.as_slice())
            },
            NmeaFields::Char(c) => {
                let mut text = String::new();
                push_char(&mut text, *c);
                text
            },
            NmeaFields::UInt8(v) => {
                let bytes = nat_to_text(*v as u128);
                proof {
                    lemma_nat_digits(*v as nat);
                }
                ascii_string(bytes.as_slice())
            },
            NmeaFields::UInt16(v) => {
                let bytes = nat_to_text(*v as u128);
                proof {
                    lemma_nat_digits(*v as nat);
                }
                ascii_string(bytes.as_slice())
            },
            NmeaFields::TimeOfDay(t) => {
                let bytes = t.to_text();
                proof {
                    lemma_time_text_ascii(*t);
                }
                ascii_string(bytes.as_slice())
            },
        }
    }

    /// Reads a field of type `ty`. The result is `None` unless `text` is
    /// what `unwrap` writes for some valid field of that type.
    pub fn from_text(ty: FieldType, text: &[u8]) -> (r: Option<NmeaFields>)
        ensures
            r == field_of_text(ty, text@),
    {
        match ty {
            FieldType::Float => match Decimal::from_text(text) {
                Some(d) => Some(NmeaFields::Float(d)),
                None => None,
            },
            FieldType::Char => {
                if text.len() == 1 && text[0] < 128 && text[0] != COMMA && text[0] != STAR
                    && text[0] != DOLLAR {
                    Some(NmeaFields::Char(text[0] as char))
                } else {
                    None
                }
            },
            FieldType::UInt8 => match text_to_nat(text, 255) {
                Some(v) => Some(NmeaFields::UInt8(v as u8)),
                None => None,
            },
            FieldType::UInt16 => match text_to_nat(text, 65535) {
                Some(v) => Some(NmeaFields::UInt16(v as u16)),
                None => None,
            },
            FieldType::TimeOfDay => match NmeaTime::from_text(text) {
                Some(t) => Some(NmeaFields::TimeOfDay(t)),
                None => None,
            },
        }
    }
}

} // verus!
