//! The kinds of sentences and, for each kind, the types of its fields.

use vstd::prelude::*;
use vstd::utf8::encode_utf8;
use crate::text::lemma_utf8_ascii_text;

verus! {

/// The type of a field, as a schema names it.
#[derive(Clone, Copy, Debug, PartialEq, Eq, Structural)]
pub enum FieldType {
    /// A decimal number.
    Float,
    /// A single character.
    Char,
    /// An unsigned number of eight bits.
    UInt8,
    /// An unsigned number of sixteen bits.
    UInt16,
    /// A time of day.
    TimeOfDay,
}

/// The kind of a sentence.
#[derive(Clone, Copy, Debug, PartialEq, Eq, Structural)]
pub enum SentenceKind {
    /// Fix data.
    GGA,
    /// Geographic position.
    GLL,
    /// Active satellites and dilution of precision.
    GSA,
    /// Satellites in view.
    GSV,
}

/// The number of fields of a sentence of the given kind.
pub open spec fn arity(kind: SentenceKind) -> nat {
    match kind {
        SentenceKind::GGA => 14,
        SentenceKind::GLL => 6,
        SentenceKind::GSA => 17,
        SentenceKind::GSV => 19,
    }
}

/// The types of the fields of a sentence of the given kind, in order.
pub open spec fn schema(kind: SentenceKind) -> Seq<FieldType> {
    match kind {
        SentenceKind::GGA => seq![
            FieldType::Float,
            FieldType::Char,
            FieldType::Float,
            FieldType::Char,
            FieldType::TimeOfDay,
            FieldType::UInt8,
            FieldType::UInt8,
            FieldType::Float,
            FieldType::Float,
            FieldType::Char,
            FieldType::Float,
            FieldType::Char,
            FieldType::Float,
            FieldType::UInt16,
        ],
        SentenceKind::GLL => seq![
            FieldType::Float,
            FieldType::Char,
            FieldType::Float,
            FieldType::Char,
            FieldType::TimeOfDay,
            FieldType::Char,
        ],
        SentenceKind::GSA => seq![
            FieldType::Char,
            FieldType::UInt8,
            FieldType::UInt8,
            FieldType::UInt8,
            FieldType::UInt8,
            FieldType::UInt8,
            FieldType::UInt8,
            FieldType::UInt8,
            FieldType::UInt8,
            FieldType::UInt8,
            FieldType::UInt8,
            FieldType::UInt8,
            FieldType::UInt8,
            FieldType::UInt8,
            FieldType::Float,
            FieldType::Float,
            FieldType::Float,
        ],
        SentenceKind::GSV => seq![
            FieldType::UInt8,
            FieldType::UInt8,
            FieldType::UInt8,
            FieldType::UInt8,
            FieldType::UInt8,
            FieldType::UInt16,
            FieldType::UInt8,
            FieldType::UInt8,
            FieldType::UInt8,
            FieldType::UInt16,
            FieldType::UInt8,
            FieldType::UInt8,
            FieldType::UInt8,
            FieldType::UInt16,
            FieldType::UInt8,
            FieldType::UInt8,
            FieldType::UInt8,
            FieldType::UInt16,
            FieldType::UInt8,
        ],
    }
}

/// The three letters that name a kind on the wire.
pub open spec fn kind_name(kind: SentenceKind) -> Seq<u8> {
    match kind {
        // G G A
        SentenceKind::GGA => seq![71u8, 71u8, 65u8],
        // G L L
        SentenceKind::GLL => seq![71u8, 76u8, 76u8],
        // G S A
        SentenceKind::GSA => seq![71u8, 83u8, 65u8],
        // G S V
        SentenceKind::GSV => seq![71u8, 83u8, 86u8],
    }
}

/// The kind that `name` names, if it names one.
pub open spec fn kind_of_name(name: Seq<u8>) -> Option<SentenceKind> {
    if name == kind_name(SentenceKind::GGA) {
        Some(SentenceKind::GGA)
    } else if name == kind_name(SentenceKind::GLL) {
        Some(SentenceKind::GLL)
    } else if name == kind_name(SentenceKind::GSA) {
        Some(SentenceKind::GSA)
    } else if name == kind_name(SentenceKind::GSV) {
        Some(SentenceKind::GSV)
    } else {
        None
    }
}

/// A schema names as many types as its kind has fields.
pub proof fn lemma_schema_len(kind: SentenceKind)
    ensures
        schema(kind).len() == arity(kind),
{
}

/// Each kind is the one that its name names.
pub proof fn lemma_kind_of_name(kind: SentenceKind)
    ensures
        kind_of_name(kind_name(kind)) == Some(kind),
{
}

/// The number of fields of a sentence of the given kind.
pub fn elements_count(kind: SentenceKind) -> (count: u8)
    ensures
        count == arity(kind),
{
    match kind {
        SentenceKind::GGA => 14,
        SentenceKind::GLL => 6,
        SentenceKind::GSA => 17,
        SentenceKind::GSV => 19,
    }
}

/// The types of the fields of a sentence of the given kind, in order.
pub fn schema_for(kind: SentenceKind) -> (types: Vec<FieldType>)
    ensures
        types@ == schema(kind),
        types.len() == arity(kind),
{
    match kind {
        SentenceKind::GGA => vec![
            FieldType::Float,
            FieldType::Char,
            FieldType::Float,
            FieldType::Char,
            FieldType::TimeOfDay,
            FieldType::UInt8,
            FieldType::UInt8,
            FieldType::Float,
            FieldType::Float,
            FieldType::Char,
            FieldType::Float,
            FieldType::Char,
            FieldType::Float,
            FieldType::UInt16,
        ],
        SentenceKind::GLL => vec![
            FieldType::Float,
            FieldType::Char,
            FieldType::Float,
            FieldType::Char,
            FieldType::TimeOfDay,
            FieldType::Char,
        ],
        SentenceKind::GSA => vec![
            FieldType::Char,
            FieldType::UInt8,
            FieldType::UInt8,
            FieldType::UInt8,
            FieldType::UInt8,
            FieldType::UInt8,
            FieldType::UInt8,
            FieldType::UInt8,
            FieldType::UInt8,
            FieldType::UInt8,
            FieldType::UInt8,
            FieldType::UInt8,
            FieldType::UInt8,
            FieldType::UInt8,
            FieldType::Float,
            FieldType::Float,
            FieldType::Float,
        ],
        SentenceKind::GSV => vec![
            FieldType::UInt8,
            FieldType::UInt8,
            FieldType::UInt8,
            FieldType::UInt8,
            FieldType::UInt8,
            FieldType::UInt16,
            FieldType::UInt8,
            FieldType::UInt8,
            FieldType::UInt8,
            FieldType::UInt16,
            FieldType::UInt8,
            FieldType::UInt8,
            FieldType::UInt8,
            FieldType::UInt16,
            FieldType::UInt8,
            FieldType::UInt8,
            FieldType::UInt8,
            FieldType::UInt16,
            FieldType::UInt8,
        ],
    }
}

impl SentenceKind {
    /// The three letters that name this kind on the wire.
    pub fn name(&self) -> (name: &'static str)
        ensures
            encode_utf8(name@) == kind_name(*self),
    {
        proof {
            reveal_strlit("GGA");
            reveal_strlit("GLL");
            reveal_strlit("GSA");
            reveal_strlit("GSV");
        }
        let name = match self {
            SentenceKind::GGA => "GGA",
            SentenceKind::GLL => "GLL",
            SentenceKind::GSA => "GSA",
            SentenceKind::GSV => "GSV",
        };
        proof {
            lemma_utf8_ascii_text(name@);
        }
        name
    }

    /// The kind that `name` names, if it names one.
    pub fn from_name(name: &[u8]) -> (kind: Option<SentenceKind>)
        ensures
            kind == kind_of_name(name@),
    {
        // Every name starts with G.
        if name.len() != 3 || name[0] != 71 {
            return None;
        }
        let kind = if name[1] == 71 && name[2] == 65 {
            // G A
            Some(SentenceKind::GGA)
        } else if name[1] == 76 && name[2] == 76 {
            // L L
            Some(SentenceKind::GLL)
        } else if name[1] == 83 && name[2] == 65 {
            // S A
            Some(SentenceKind::GSA)
        } else if name[1] == 83 && name[2] == 86 {
            // S V
            Some(SentenceKind::GSV)
        } else {
            None
        };
        proof {
            match kind {
                Some(k) => {
                    assert(name@ =~= kind_name(k));
                },
                None => {},
            }
        }
        kind
    }
}

} // verus!
