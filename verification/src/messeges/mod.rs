//! The bodies of sentences: a kind and its fields.
//!
//! On the wire a body is the name of its kind followed by its fields,
//! each with a comma in front: `GLL,0,N,0,E,000000,A`.

pub mod fields;
pub mod laws;
pub mod time;
pub mod tokens;

pub use crate::messeges::fields::NmeaFields;
pub use crate::messeges::time::NmeaTime;

use vstd::prelude::*;
use vstd::utf8::encode_utf8;
use crate::decimal::Decimal;
use crate::devices::NmeaBuff;
use crate::errors::{DecodeError, EncodeError};
use crate::frame::COMMA;
use crate::messeges::fields::{field_of_text, field_text, field_type, valid_field};
use crate::messeges::laws::{
    lemma_fields_of_tokens_prefix, lemma_first_mismatch_prefix, lemma_message_read_write,
    lemma_message_valid, lemma_message_write_read,
};
use crate::messeges::tokens::{split, split_at, token_texts};
use crate::schema::{
    arity, elements_count, kind_name, kind_of_name, schema, schema_for, FieldType, SentenceKind,
};
use crate::text::{push_ascii, push_text};

verus! {

/// The body of a sentence.
#[derive(Clone, Debug, PartialEq)]
pub enum NmeaMessages {
    /// Fix data.
    GGA(Vec<NmeaFields>),
    /// Geographic position.
    GLL(Vec<NmeaFields>),
    /// Active satellites and dilution of precision.
    GSA(Vec<NmeaFields>),
    /// Satellites in view.
    GSV(Vec<NmeaFields>),
}

/// What a body is: its kind and its fields in order.
pub struct MessageView {
    /// The kind of the sentence.
    pub kind: SentenceKind,
    /// The fields of the sentence.
    pub fields: Seq<NmeaFields>,
}

impl View for NmeaMessages {
    type V = MessageView;

    open spec fn view(&self) -> MessageView {
        match self {
            NmeaMessages::GGA(fields) => MessageView { kind: SentenceKind::GGA, fields: fields@ },
            NmeaMessages::GLL(fields) => MessageView { kind: SentenceKind::GLL, fields: fields@ },
            NmeaMessages::GSA(fields) => MessageView { kind: SentenceKind::GSA, fields: fields@ },
            NmeaMessages::GSV(fields) => MessageView { kind: SentenceKind::GSV, fields: fields@ },
        }
    }
}

/// The texts of `fields`, each with a comma in front.
pub open spec fn fields_text(fields: Seq<NmeaFields>) -> Seq<u8>
    decreases fields.len(),
{
    if fields.len() == 0 {
        Seq::<u8>::empty()
    } else {
        fields_text(fields.drop_last()) + seq![COMMA] + field_text(fields.last())
    }
}

/// The first position at which a field is not of the type that `types`
/// names, if there is one.
pub open spec fn first_mismatch(types: Seq<FieldType>, fields: Seq<NmeaFields>) -> Option<int>
    recommends
        types.len() == fields.len(),
    decreases fields.len(),
{
    if fields.len() == 0 {
        None
    } else {
        match first_mismatch(types.drop_last(), fields.drop_last()) {
            Some(i) => Some(i),
            None => if field_type(fields.last()) != types[fields.len() - 1] {
                Some(fields.len() - 1)
            } else {
                None
            },
        }
    }
}

/// The text of a body, or why it has none: the number of fields is
/// checked first, then the type of each field, in order.
pub open spec fn message_text(m: MessageView) -> Result<Seq<u8>, EncodeError> {
    if m.fields.len() != arity(m.kind) {
        Err(
            EncodeError::ArityMismatch {
                expected: arity(m.kind) as usize,
                actual: m.fields.len() as usize,
            },
        )
    } else {
        match first_mismatch(schema(m.kind), m.fields) {
            Some(i) => Err(
                EncodeError::FieldTypeMismatch {
                    position: i as usize,
                    expected: schema(m.kind)[i],
                    actual: field_type(m.fields[i]),
                },
            ),
            None => Ok(kind_name(m.kind) + fields_text(m.fields)),
        }
    }
}

/// The fields that the texts `tokens` stand for, read as the types that
/// `types` names, or the first position at which a text stands for none.
pub open spec fn fields_of_tokens(types: Seq<FieldType>, tokens: Seq<Seq<u8>>) -> Result<
    Seq<NmeaFields>,
    DecodeError,
>
    recommends
        types.len() == tokens.len(),
    decreases types.len(),
{
    if types.len() == 0 {
        Ok(Seq::<NmeaFields>::empty())
    } else {
        match fields_of_tokens(types.drop_last(), tokens.drop_last()) {
            Err(e) => Err(e),
            Ok(fields) => match field_of_text(types.last(), tokens.last()) {
                None => Err(
                    DecodeError::FieldTypeMismatch { position: (types.len() - 1) as usize },
                ),
                Some(f) => Ok(fields.push(f)),
            },
        }
    }
}

/// The body that the text `s` stands for, or why it stands for none. The
/// text is cut at its commas; the first part names the kind, the others
/// are the fields.
pub open spec fn message_of_text(s: Seq<u8>) -> Result<MessageView, DecodeError> {
    let tokens = split(s, COMMA);
    match kind_of_name(tokens[0]) {
        None => Err(DecodeError::UnknownSentenceKind),
        Some(kind) => if tokens.len() - 1 != arity(kind) {
            Err(
                DecodeError::ArityMismatch {
                    expected: arity(kind) as usize,
                    actual: (tokens.len() - 1) as usize,
                },
            )
        } else {
            match fields_of_tokens(schema(kind), tokens.skip(1)) {
                Err(e) => Err(e),
                Ok(fields) => Ok(MessageView { kind, fields }),
            }
        },
    }
}

/// True for the bodies that can be sent and read back: as many fields as
/// the kind has, each valid and of the type that the schema names.
pub open spec fn valid_message(m: MessageView) -> bool {
    &&& m.fields.len() == arity(m.kind)
    &&& forall|i: int|
        0 <= i < m.fields.len() ==> field_type(#[trigger] m.fields[i]) == schema(m.kind)[i]
            && valid_field(m.fields[i])
}

/// The fields of the sentence that `new_gga` and its like make: every
/// number zero but the mode of a GSA sentence.
pub open spec fn default_fields(kind: SentenceKind) -> Seq<NmeaFields> {
    let zero = NmeaFields::Float(Decimal { negative: false, mantissa: 0, scale: 0 });
    let midnight = NmeaFields::TimeOfDay(NmeaTime { hour: 0, minute: 0, second: 0 });
    match kind {
        SentenceKind::GGA => seq![
            zero,
            NmeaFields::Char('N'),
            zero,
            NmeaFields::Char('E'),
            midnight,
            NmeaFields::UInt8(0),
            NmeaFields::UInt8(0),
            zero,
            zero,
            NmeaFields::Char('M'),
            zero,
            NmeaFields::Char('M'),
            zero,
            NmeaFields::UInt16(0),
        ],
        SentenceKind::GLL => seq![
            zero,
            NmeaFields::Char('N'),
            zero,
            NmeaFields::Char('E'),
            midnight,
            NmeaFields::Char('A'),
        ],
        SentenceKind::GSA => seq![
            NmeaFields::Char('A'),
            NmeaFields::UInt8(1),
            NmeaFields::UInt8(0),
            NmeaFields::UInt8(0),
            NmeaFields::UInt8(0),
            NmeaFields::UInt8(0),
            NmeaFields::UInt8(0),
            NmeaFields::UInt8(0),
            NmeaFields::UInt8(0),
            NmeaFields::UInt8(0),
            NmeaFields::UInt8(0),
            NmeaFields::UInt8(0),
            NmeaFields::UInt8(0),
            NmeaFields::UInt8(0),
            zero,
            zero,
            zero,
        ],
        SentenceKind::GSV => seq![
            NmeaFields::UInt8(0),
            NmeaFields::UInt8(0),
            NmeaFields::UInt8(0),
            NmeaFields::UInt8(0),
            NmeaFields::UInt8(0),
            NmeaFields::UInt16(0),
            NmeaFields::UInt8(0),
            NmeaFields::UInt8(0),
            NmeaFields::UInt8(0),
            NmeaFields::UInt16(0),
            NmeaFields::UInt8(0),
            NmeaFields::UInt8(0),
            NmeaFields::UInt8(0),
            NmeaFields::UInt16(0),
            NmeaFields::UInt8(0),
            NmeaFields::UInt8(0),
            NmeaFields::UInt8(0),
            NmeaFields::UInt16(0),
            NmeaFields::UInt8(0),
        ],
    }
}

impl NmeaMessages {
    /// A GGA sentence with every number zero.
    pub fn new_gga() -> (m: NmeaMessages)
        ensures
            m@.kind == SentenceKind::GGA,
            m@.fields == default_fields(SentenceKind::GGA),
    {
        let fields = vec![
            NmeaFields::Float(Decimal::zero()),
            NmeaFields::Char('N'),
            NmeaFields::Float(Decimal::zero()),
            NmeaFields::Char('E'),
            NmeaFields::TimeOfDay(NmeaTime::new()),
            NmeaFields::UInt8(0),
            NmeaFields::UInt8(0),
            NmeaFields::Float(Decimal::zero()),
            NmeaFields::Float(Decimal::zero()),
            NmeaFields::Char('M'),
            NmeaFields::Float(Decimal::zero()),
            NmeaFields::Char('M'),
            NmeaFields::Float(Decimal::zero()),
            NmeaFields::UInt16(0),
        ];
        NmeaMessages::GGA(fields)
    }

    /// A GLL sentence with every number zero.
    pub fn new_gll() -> (m: NmeaMessages)
        ensures
            m@.kind == SentenceKind::GLL,
            m@.fields == default_fields(SentenceKind::GLL),
    {
        let fields = vec![
            NmeaFields::Float(Decimal::zero()),
            NmeaFields::Char('N'),
            NmeaFields::Float(Decimal::zero()),
            NmeaFields::Char('E'),
            NmeaFields::TimeOfDay(NmeaTime::new()),
            NmeaFields::Char('A'),
        ];
        NmeaMessages::GLL(fields)
    }

    /// A GSA sentence in automatic mode without a fix, with no satellite
    /// and every dilution zero.
    pub fn new_gsa() -> (m: NmeaMessages)
        ensures
            m@.kind == SentenceKind::GSA,
            m@.fields == default_fields(SentenceKind::GSA),
    {
        let fields = vec![
            NmeaFields::Char('A'),
            NmeaFields::UInt8(1),
            NmeaFields::UInt8(0),
            NmeaFields::UInt8(0),
            NmeaFields::UInt8(0),
            NmeaFields::UInt8(0),
            NmeaFields::UInt8(0),
            NmeaFields::UInt8(0),
            NmeaFields::UInt8(0),
            NmeaFields::UInt8(0),
            NmeaFields::UInt8(0),
            NmeaFields::UInt8(0),
            NmeaFields::UInt8(0),
            NmeaFields::UInt8(0),
            NmeaFields::Float(Decimal::zero()),
            NmeaFields::Float(Decimal::zero()),
            NmeaFields::Float(Decimal::zero()),
        ];
        NmeaMessages::GSA(fields)
    }

    /// A GSV sentence with every number zero.
    pub fn new_gsv() -> (m: NmeaMessages)
        ensures
            m@.kind == SentenceKind::GSV,
            m@.fields == default_fields(SentenceKind::GSV),
    {
        let fields = vec![
            NmeaFields::UInt8(0),
            NmeaFields::UInt8(0),
            NmeaFields::UInt8(0),
            NmeaFields::UInt8(0),
            NmeaFields::UInt8(0),
            NmeaFields::UInt16(0),
            NmeaFields::UInt8(0),
            NmeaFields::UInt8(0),
            NmeaFields::UInt8(0),
            NmeaFields::UInt16(0),
            NmeaFields::UInt8(0),
            NmeaFields::UInt8(0),
            NmeaFields::UInt8(0),
            NmeaFields::UInt16(0),
            NmeaFields::UInt8(0),
            NmeaFields::UInt8(0),
            NmeaFields::UInt8(0),
            NmeaFields::UInt16(0),
            NmeaFields::UInt8(0),
        ];
        NmeaMessages::GSV(fields)
    }

    /// The body of the given kind with the given fields.
    pub fn from_fields(kind: SentenceKind, fields: Vec<NmeaFields>) -> (m: NmeaMessages)
        ensures
            m@.kind == kind,
            m@.fields == fields@,
    {
        match kind {
            SentenceKind::GGA => NmeaMessages::GGA(fields),
            SentenceKind::GLL => NmeaMessages::GLL(fields),
            SentenceKind::GSA => NmeaMessages::GSA(fields),
            SentenceKind::GSV => NmeaMessages::GSV(fields),
        }
    }

    /// The kind of the sentence.
    pub fn kind(&self) -> (kind: SentenceKind)
        ensures
            kind == self@.kind,
    {
        match self {
            NmeaMessages::GGA(_) => SentenceKind::GGA,
            NmeaMessages::GLL(_) => SentenceKind::GLL,
            NmeaMessages::GSA(_) => SentenceKind::GSA,
            NmeaMessages::GSV(_) => SentenceKind::GSV,
        }
    }

    /// The name of the kind, with which the body starts.
    pub fn message_identifier(&self) -> (name: String)
        ensures
            encode_utf8(name@) == kind_name(self@.kind),
    {
        self.kind().name().to_owned()
    }

    /// Writes the body: the name of the kind and, each with a comma in
    /// front, the fields. Nothing is written unless the fields are as many
    /// and of such types as the kind asks for.
    pub fn convert_to_string(&self) -> (r: Result<String, EncodeError>)
        ensures
            match r {
                Ok(s) => message_text(self@) == Ok::<Seq<u8>, EncodeError>(encode_utf8(s@)),
                Err(e) => message_text(self@) == Err::<Seq<u8>, EncodeError>(e),
            },
    {
        let kind = self.kind();
        let fields = self.get_pyload();
        let count: usize = elements_count(kind) as usize;
        if fields.len() != count {
            return Err(EncodeError::ArityMismatch { expected: count, actual: fields.len() });
        }
        let types = schema_for(kind);
        let mut i: usize = 0;
        while i < count
            invariant
                i <= count,
                count == fields.len(),
                count == arity(kind),
                kind == self@.kind,
                fields@ == self@.fields,
                types@ == schema(kind),
                types.len() == count,
                first_mismatch(types@.take(i as int), fields@.take(i as int)) is None,
            decreases count - i,
        {
            let actual = fields[i].field_type();
            let expected = types[i];
            proof {
                assert(types@.take(i + 1).drop_last() =~= types@.take(i as int));
                assert(fields@.take(i + 1).drop_last() =~= fields@.take(i as int));
            }
            if actual != expected {
                proof {
                    lemma_first_mismatch_prefix(types@, fields@, i + 1);
                }
                return Err(EncodeError::FieldTypeMismatch { position: i, expected, actual });
            }
            i = i + 1;
        }
        proof {
            assert(types@.take(i as int) =~= types@);
            assert(fields@.take(i as int) =~= fields@);
        }
        let mut text = self.message_identifier();
        let mut j: usize = 0;
        while j < fields.len()
            invariant
                j <= fields.len(),
                encode_utf8(text@) == kind_name(kind) + fields_text(fields@.take(j as int)),
            decreases fields.len() - j,
        {
            let field = fields[j].unwrap();
            push_ascii(&mut text, COMMA);
            push_text(&mut text, field.as_str());
            proof {
                assert(fields@.take(j + 1).drop_last() =~= fields@.take(j as int));
            }
            j = j + 1;
        }
        Ok(text)
    }

    /// The fields of the sentence.
    pub fn get_pyload(&self) -> (fields: &Vec<NmeaFields>)
        ensures
            fields@ == self@.fields,
    {
        match self {
            NmeaMessages::GGA(x) | NmeaMessages::GLL(x) | NmeaMessages::GSA(x) | NmeaMessages::GSV(
                x,
            ) => x,
        }
    }

    /// The number of fields that a sentence of this kind has.
    pub fn elements_count(&self) -> (count: u8)
        ensures
            count == arity(self@.kind),
    {
        elements_count(self.kind())
    }

    /// Reads a body: the name of a kind and, each with a comma in front,
    /// as many fields as the kind has, of the types that its schema names.
    pub fn from_text(text: &[u8]) -> (r: Result<NmeaMessages, DecodeError>)
        ensures
            match r {
                Ok(m) => message_of_text(text@) == Ok::<MessageView, DecodeError>(m@),
                Err(e) => message_of_text(text@) == Err::<MessageView, DecodeError>(e),
            },
    {
        let tokens = split_at(text, COMMA);
        let ghost texts = token_texts(tokens@);
        let kind = match SentenceKind::from_name(tokens[0]) {
            Some(kind) => kind,
            None => {
                return Err(DecodeError::UnknownSentenceKind);
            },
        };
        let count: usize = elements_count(kind) as usize;
        if tokens.len() - 1 != count {
            return Err(DecodeError::ArityMismatch { expected: count, actual: tokens.len() - 1 });
        }
        let types = schema_for(kind);
        let mut fields: Vec<NmeaFields> = Vec::new();
        let mut i: usize = 0;
        while i < count
            invariant
                i <= count,
                count == arity(kind),
                tokens.len() == count + 1,
                texts == token_texts(tokens@),
                texts == split(text@, COMMA),
                kind_of_name(texts[0]) == Some(kind),
                types@ == schema(kind),
                types.len() == count,
                fields_of_tokens(types@.take(i as int), texts.skip(1).take(i as int)) == Ok::<
                    Seq<NmeaFields>,
                    DecodeError,
                >(fields@),
            decreases count - i,
        {
            proof {
                assert(types@.take(i + 1).drop_last() =~= types@.take(i as int));
                assert(texts.skip(1).take(i + 1).drop_last() =~= texts.skip(1).take(i as int));
            }
            match NmeaFields::from_text(types[i], tokens[i + 1]) {
                Some(field) => {
                    fields.push(field);
                },
                None => {
                    proof {
                        lemma_fields_of_tokens_prefix(types@, texts.skip(1), i + 1);
                    }
                    return Err(DecodeError::FieldTypeMismatch { position: i });
                },
            }
            i = i + 1;
        }
        proof {
            assert(types@.take(i as int) =~= types@);
            assert(texts.skip(1).take(i as int) =~= texts.skip(1));
        }
        Ok(NmeaMessages::from_fields(kind, fields))
    }

    /// Tells whether the body can be sent and read back.
    pub fn is_valid(&self) -> (r: bool)
        ensures
            r == valid_message(self@),
    {
        let kind = self.kind();
        let fields = self.get_pyload();
        let count: usize = elements_count(kind) as usize;
        if fields.len() != count {
            return false;
        }
        let types = schema_for(kind);
        let mut i: usize = 0;
        while i < count
            invariant
                i <= count,
                count == fields.len(),
                count == arity(kind),
                kind == self@.kind,
                fields@ == self@.fields,
                types@ == schema(kind),
                forall|j: int|
                    0 <= j < i ==> field_type(#[trigger] fields@[j]) == types@[j] && valid_field(
                        fields@[j],
                    ),
            decreases count - i,
        {
            if fields[i].field_type() != types[i] || !fields[i].is_valid() {
                return false;
            }
            i = i + 1;
        }
        true
    }
}

impl NmeaBuff for NmeaMessages {
    open spec fn text_of(value: MessageView) -> Result<Seq<u8>, EncodeError> {
        message_text(value)
    }

    open spec fn value_of(text: Seq<u8>) -> Result<MessageView, DecodeError> {
        message_of_text(text)
    }

    open spec fn valid(value: MessageView) -> bool {
        valid_message(value)
    }

    fn as_string(&self) -> (r: Result<String, EncodeError>) {
        self.convert_to_string()
    }

    fn parse_payload(msg: &[u8]) -> (r: Result<NmeaMessages, DecodeError>) {
        NmeaMessages::from_text(msg)
    }

    proof fn lemma_read_write(value: MessageView) {
        lemma_message_read_write(value);
    }

    proof fn lemma_value_valid(text: Seq<u8>) {
        lemma_message_valid(text);
    }

    proof fn lemma_write_read(text: Seq<u8>) {
        lemma_message_write_read(text);
    }
}

} // verus!
