//! The sentence codec: from a talker, a kind and fields to a wire
//! sentence, and back.

use vstd::prelude::*;
use vstd::utf8::encode_utf8;
use crate::checksum::hex_value;
use crate::devices::{
    lemma_sentence_checksum_rejected, lemma_sentence_read_write, lemma_sentence_valid,
    lemma_sentence_write_read, sentence_of_text, sentence_text, talker_code, DeviceId,
    DeviceMessage,
};
use crate::errors::{DecodeError, EncodeError};
use crate::frame::lemma_frame_write_read;
use crate::messeges::{message_text, valid_message, MessageView, NmeaFields, NmeaMessages};
use crate::schema::{arity, SentenceKind};

verus! {

/// The wire sentence for a talker, a kind and fields, or why there is
/// none. The number of fields is checked first, then their types in
/// order, then the talker.
pub open spec fn encoding(talker: DeviceId, kind: SentenceKind, fields: Seq<NmeaFields>) -> Result<
    Seq<u8>,
    EncodeError,
> {
    sentence_text::<NmeaMessages>(talker, MessageView { kind, fields })
}

/// The talker, kind and fields of the wire sentence `line`, or why `line`
/// is none. The frame is checked first, then the checksum, the talker, the
/// kind, the number of fields, and last the fields in order.
pub open spec fn decoding(line: Seq<u8>) -> Result<(DeviceId, MessageView), DecodeError> {
    sentence_of_text::<NmeaMessages>(line)
}

/// Encodes a sentence. Nothing is returned unless the whole sentence can
/// be. The fields are written as they are: whether they can be read back
/// is told by `NmeaMessages::is_valid`.
pub fn encode(talker: DeviceId, kind: SentenceKind, fields: Vec<NmeaFields>) -> (r: Result<
    String,
    EncodeError,
>)
    ensures
        match r {
            Ok(line) => encoding(talker, kind, fields@) == Ok::<Seq<u8>, EncodeError>(
                encode_utf8(line@),
            ),
            Err(e) => encoding(talker, kind, fields@) == Err::<Seq<u8>, EncodeError>(e),
        },
{
    let message = DeviceMessage::new(talker, NmeaMessages::from_fields(kind, fields));
    message.create_message()
}

/// Decodes a sentence. Nothing is returned unless the whole line is a
/// sentence, from `$` to the line feed, and its checksum is right.
pub fn decode(line: &str) -> (r: Result<DeviceMessage<NmeaMessages>, DecodeError>)
    ensures
        match r {
            Ok(m) => decoding(encode_utf8(line@)) == Ok::<(DeviceId, MessageView), DecodeError>(m@),
            Err(e) => decoding(encode_utf8(line@)) == Err::<(DeviceId, MessageView), DecodeError>(
                e,
            ),
        },
{
    DeviceMessage::parse_message(line)
}

/// Round trip: a sentence with a known talker and valid fields, as many
/// and of such types as its kind asks for, is encoded, and decoding what
/// was encoded gives the same talker, kind and fields.
pub proof fn lemma_decode_encode(talker: DeviceId, kind: SentenceKind, fields: Seq<NmeaFields>)
    requires
        talker != DeviceId::Unknown,
        valid_message(MessageView { kind, fields }),
    ensures
        encoding(talker, kind, fields) is Ok,
        decoding(encoding(talker, kind, fields)->Ok_0) == Ok::<
            (DeviceId, MessageView),
            DecodeError,
        >((talker, MessageView { kind, fields })),
{
    lemma_sentence_read_write::<NmeaMessages>(talker, MessageView { kind, fields });
}

/// What is decoded is valid: the talker is known, and the fields are
/// valid, as many and of such types as the kind asks for.
pub proof fn lemma_decoded_is_valid(line: Seq<u8>)
    requires
        decoding(line) is Ok,
    ensures
        decoding(line)->Ok_0.0 != DeviceId::Unknown,
        valid_message(decoding(line)->Ok_0.1),
{
    lemma_sentence_valid::<NmeaMessages>(line);
}

/// Decoding accepts nothing but what encoding writes: a decoded line is
/// the encoding of what it decodes to, but for the case of its two
/// checksum digits.
pub proof fn lemma_encode_decode(line: Seq<u8>)
    requires
        decoding(line) is Ok,
    ensures
        ({
            let (talker, m) = decoding(line)->Ok_0;
            let n = line.len();
            &&& encoding(talker, m.kind, m.fields) is Ok
            &&& encoding(talker, m.kind, m.fields)->Ok_0.len() == n
            &&& forall|i: int|
                0 <= i < n && i != n - 4 && i != n - 3 ==> encoding(
                    talker,
                    m.kind,
                    m.fields,
                )->Ok_0[i] == line[i]
            &&& hex_value(encoding(talker, m.kind, m.fields)->Ok_0[n - 4]) == hex_value(
                line[n - 4],
            )
            &&& hex_value(encoding(talker, m.kind, m.fields)->Ok_0[n - 3]) == hex_value(
                line[n - 3],
            )
        }),
{
    lemma_sentence_write_read::<NmeaMessages>(line);
    lemma_frame_write_read(line);
}

/// Arity enforcement: fields that are not as many as the kind asks for
/// are never encoded, whatever they hold and whoever the talker is.
pub proof fn lemma_arity_enforced(talker: DeviceId, kind: SentenceKind, fields: Seq<NmeaFields>)
    requires
        fields.len() != arity(kind),
    ensures
        encoding(talker, kind, fields) == Err::<Seq<u8>, EncodeError>(
            EncodeError::ArityMismatch {
                expected: arity(kind) as usize,
                actual: fields.len() as usize,
            },
        ),
{
}

/// Checksum rejection: an encoded sentence in which one checksum digit is
/// replaced by another hexadecimal digit of another value decodes to a
/// checksum mismatch.
pub proof fn lemma_checksum_rejected(
    talker: DeviceId,
    kind: SentenceKind,
    fields: Seq<NmeaFields>,
    at: int,
    b: u8,
)
    requires
        encoding(talker, kind, fields) is Ok,
        ({
            let line = encoding(talker, kind, fields)->Ok_0;
            &&& line.len() - 4 <= at < line.len() - 2
            &&& hex_value(b) is Some
            &&& hex_value(b) != hex_value(line[at])
        }),
    ensures
        decoding(encoding(talker, kind, fields)->Ok_0.update(at, b)) is Err,
        decoding(encoding(talker, kind, fields)->Ok_0.update(at, b))->Err_0 matches
            DecodeError::ChecksumMismatch { expected, actual } && actual != expected,
{
    let text = message_text(MessageView { kind, fields })->Ok_0;
    let code = talker_code(talker)->Some_0;
    let payload = code + text;
    lemma_sentence_checksum_rejected::<NmeaMessages>(payload, at - payload.len() - 2, b);
}

} // verus!
