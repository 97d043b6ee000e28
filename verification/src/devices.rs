//! Devices and the sentences they send.
//!
//! The payload of a sentence is the two-letter talker code of the sending
//! device followed by the body of the message.

use vstd::prelude::*;
use vstd::slice::slice_subrange;
use vstd::utf8::encode_utf8;
use crate::checksum::{compute, hex_value, xor_fold};
use crate::errors::{DecodeError, EncodeError};
use crate::frame::{
    frame, lemma_checksum_digit_replaced, lemma_frame_read_write, payload_of_line, read_frame,
    write_frame,
};
use crate::text::{lemma_utf8_ascii_text, push_text};

verus! {

/// A value that has a text on the wire.
pub trait NmeaBuff: Sized + View {
    /// The text of `value`, or why it has none.
    spec fn text_of(value: Self::V) -> Result<Seq<u8>, EncodeError>;

    /// The value that `text` stands for, or why it stands for none.
    spec fn value_of(text: Seq<u8>) -> Result<Self::V, DecodeError>;

    /// True for the values that can be sent and read back.
    spec fn valid(value: Self::V) -> bool;

    /// Writes the value: serialization, from the inner structures
    /// outwards.
    fn as_string(&self) -> (r: Result<String, EncodeError>)
        ensures
            match r {
                Ok(s) => Self::text_of(self@) == Ok::<Seq<u8>, EncodeError>(encode_utf8(s@)),
                Err(e) => Self::text_of(self@) == Err::<Seq<u8>, EncodeError>(e),
            },
    ;

    /// Reads a value: parsing, from the outer structures inwards.
    fn parse_payload(msg: &[u8]) -> (r: Result<Self, DecodeError>)
        ensures
            match r {
                Ok(v) => Self::value_of(msg@) == Ok::<Self::V, DecodeError>(v@),
                Err(e) => Self::value_of(msg@) == Err::<Self::V, DecodeError>(e),
            },
    ;

    /// A valid value has a text, and that text stands for the value.
    proof fn lemma_read_write(value: Self::V)
        requires
            Self::valid(value),
        ensures
            Self::text_of(value) is Ok,
            Self::value_of(Self::text_of(value)->Ok_0) == Ok::<Self::V, DecodeError>(value),
    ;

    /// What a text stands for is valid.
    proof fn lemma_value_valid(text: Seq<u8>)
        requires
            Self::value_of(text) is Ok,
        ensures
            Self::valid(Self::value_of(text)->Ok_0),
    ;

    /// A text that stands for a value is the text of that value.
    proof fn lemma_write_read(text: Seq<u8>)
        requires
            Self::value_of(text) is Ok,
        ensures
            Self::text_of(Self::value_of(text)->Ok_0) == Ok::<Seq<u8>, EncodeError>(text),
    ;
}

/// The device that sends a sentence.
#[derive(Clone, Copy, Debug, PartialEq, Eq, Structural)]
pub enum DeviceId {
    /// No device. It has no talker code.
    Unknown,
    /// A satellite positioning receiver, `GP`.
    GPS,
    /// An echo sounder, `ES`.
    EchoSounder,
    /// A radar, `RD`.
    Radar,
}

/// The two letters that stand for a device on the wire.
pub open spec fn talker_code(id: DeviceId) -> Option<Seq<u8>> {
    match id {
        DeviceId::Unknown => None,
        // G P
        DeviceId::GPS => Some(seq![71u8, 80u8]),
        // E S
        DeviceId::EchoSounder => Some(seq![69u8, 83u8]),
        // R D
        DeviceId::Radar => Some(seq![82u8, 68u8]),
    }
}

/// The device that `code` stands for, if it stands for one.
pub open spec fn device_of_code(code: Seq<u8>) -> Option<DeviceId> {
    if Some(code) == talker_code(DeviceId::GPS) {
        Some(DeviceId::GPS)
    } else if Some(code) == talker_code(DeviceId::EchoSounder) {
        Some(DeviceId::EchoSounder)
    } else if Some(code) == talker_code(DeviceId::Radar) {
        Some(DeviceId::Radar)
    } else {
        None
    }
}

/// Each device with a code is the one that its code stands for, and a
/// code has two letters.
pub proof fn lemma_device_of_code(id: DeviceId)
    requires
        id != DeviceId::Unknown,
    ensures
        talker_code(id) is Some,
        talker_code(id)->Some_0.len() == 2,
        device_of_code(talker_code(id)->Some_0) == Some(id),
{
}

impl DeviceId {
    /// The talker code of the device.
    pub fn id_string(&self) -> (r: Result<String, EncodeError>)
        ensures
            match r {
                Ok(s) => talker_code(*self) == Some(encode_utf8(s@)),
                Err(e) => e == EncodeError::UnknownTalker && talker_code(*self) is None,
            },
    {
        proof {
            reveal_strlit("GP");
            reveal_strlit("ES");
            reveal_strlit("RD");
        }
        let code = match self {
            DeviceId::GPS => "GP",
            DeviceId::EchoSounder => "ES",
            DeviceId::Radar => "RD",
            DeviceId::Unknown => {
                return Err(EncodeError::UnknownTalker);
            },
        };
        proof {
            lemma_utf8_ascii_text(code@);
        }
        Ok(code.to_owned())
    }

    /// The device that the talker code `code` stands for.
    pub fn from_code(code: &[u8]) -> (r: Option<DeviceId>)
        ensures
            r == device_of_code(code@),
    {
        if code.len() != 2 {
            return None;
        }
        let id = if code[0] == 71 && code[1] == 80 {
            // G P
            DeviceId::GPS
        } else if code[0] == 69 && code[1] == 83 {
            // E S
            DeviceId::EchoSounder
        } else if code[0] == 82 && code[1] == 68 {
            // R D
            DeviceId::Radar
        } else {
            return None;
        };
        proof {
            assert(code@ =~= talker_code(id)->Some_0);
        }
        Some(id)
    }
}

/// The text of the sentence in which the device `id` sends `body`.
pub open spec fn sentence_text<T: NmeaBuff>(id: DeviceId, body: T::V) -> Result<
    Seq<u8>,
    EncodeError,
> {
    match T::text_of(body) {
        Err(e) => Err(e),
        Ok(text) => match talker_code(id) {
            None => Err(EncodeError::UnknownTalker),
            Some(code) => Ok(frame(code + text)),
        },
    }
}

/// The device and the body of the sentence `line`.
pub open spec fn sentence_of_text<T: NmeaBuff>(line: Seq<u8>) -> Result<
    (DeviceId, T::V),
    DecodeError,
> {
    match payload_of_line(line) {
        Err(e) => Err(e),
        Ok(payload) => if payload.len() < 2 {
            Err(DecodeError::UnknownTalker)
        } else {
            match device_of_code(payload.take(2)) {
                None => Err(DecodeError::UnknownTalker),
                Some(id) => match T::value_of(payload.skip(2)) {
                    Err(e) => Err(e),
                    Ok(body) => Ok((id, body)),
                },
            }
        },
    }
}

/// A message of a device.
#[derive(Clone, Debug, PartialEq)]
pub struct DeviceMessage<T> {
    /// The device that sends the message.
    pub device_id: DeviceId,
    /// What the device reports.
    pub message_body: T,
}

impl<T: NmeaBuff> View for DeviceMessage<T> {
    type V = (DeviceId, T::V);

    open spec fn view(&self) -> (DeviceId, T::V) {
        (self.device_id, self.message_body@)
    }
}

impl<T> DeviceMessage<T> where T: NmeaBuff {
    /// The message in which the device `id` reports `payload`.
    pub fn new(id: DeviceId, payload: T) -> (message: DeviceMessage<T>)
        ensures
            message.device_id == id,
            message.message_body == payload,
    {
        DeviceMessage { device_id: id, message_body: payload }
    }

    /// A message of no device. It cannot be sent.
    pub fn empty(payload: T) -> (message: DeviceMessage<T>)
        ensures
            message.device_id == DeviceId::Unknown,
            message.message_body == payload,
    {
        DeviceMessage { device_id: DeviceId::Unknown, message_body: payload }
    }

    /// The checksum of `payload`, the text between `$` and `*`.
    pub fn checksum(payload: &str) -> (sum: u8)
        ensures
            sum == xor_fold(encode_utf8(payload@)),
    {
        compute(payload.as_bytes())
    }

    /// Writes the sentence for this message. Nothing is written unless the
    /// body has a text and the device a talker code.
    pub fn create_message(&self) -> (r: Result<String, EncodeError>)
        ensures
            match r {
                Ok(s) => sentence_text::<T>(self.device_id, self.message_body@) == Ok::<
                    Seq<u8>,
                    EncodeError,
                >(encode_utf8(s@)),
                Err(e) => sentence_text::<T>(self.device_id, self.message_body@) == Err::<
                    Seq<u8>,
                    EncodeError,
                >(e),
            },
    {
        let body = match self.message_body.as_string() {
            Ok(body) => body,
            Err(e) => {
                return Err(e);
            },
        };
        let mut payload = match self.device_id.id_string() {
            Ok(code) => code,
            Err(e) => {
                return Err(e);
            },
        };
        push_text(&mut payload, body.as_str());
        Ok(write_frame(payload.as_str()))
    }

    /// Reads the sentence `line`, given as bytes: the frame and the
    /// checksum first, then the talker code, then the body.
    pub fn parse_bytes(line: &[u8]) -> (r: Result<DeviceMessage<T>, DecodeError>)
        ensures
            match r {
                Ok(m) => sentence_of_text::<T>(line@) == Ok::<(DeviceId, T::V), DecodeError>(m@),
                Err(e) => sentence_of_text::<T>(line@) == Err::<(DeviceId, T::V), DecodeError>(e),
            },
    {
        let payload = match read_frame(line) {
            Ok(payload) => payload,
            Err(e) => {
                return Err(e);
            },
        };
        if payload.len() < 2 {
            return Err(DecodeError::UnknownTalker);
        }
        let id = match DeviceId::from_code(slice_subrange(payload, 0, 2)) {
            Some(id) => id,
            None => {
                return Err(DecodeError::UnknownTalker);
            },
        };
        match T::parse_payload(slice_subrange(payload, 2, payload.len())) {
            Ok(body) => Ok(DeviceMessage { device_id: id, message_body: body }),
            Err(e) => Err(e),
        }
    }

    /// Reads the sentence `line`, as `parse_bytes` reads its bytes.
    pub fn parse_message(line: &str) -> (r: Result<DeviceMessage<T>, DecodeError>)
        ensures
            match r {
                Ok(m) => sentence_of_text::<T>(encode_utf8(line@)) == Ok::<
                    (DeviceId, T::V),
                    DecodeError,
                >(m@),
                Err(e) => sentence_of_text::<T>(encode_utf8(line@)) == Err::<
                    (DeviceId, T::V),
                    DecodeError,
                >(e),
            },
    {
        Self::parse_bytes(line.as_bytes())
    }
}

/// Round trip: a valid body, sent by a device that has a talker code,
/// has a sentence, and that sentence reads back as the same device and
/// body.
pub proof fn lemma_sentence_read_write<T: NmeaBuff>(id: DeviceId, body: T::V)
    requires
        id != DeviceId::Unknown,
        T::valid(body),
    ensures
        sentence_text::<T>(id, body) is Ok,
        sentence_of_text::<T>(sentence_text::<T>(id, body)->Ok_0) == Ok::<
            (DeviceId, T::V),
            DecodeError,
        >((id, body)),
{
    T::lemma_read_write(body);
    let text = T::text_of(body)->Ok_0;
    let code = talker_code(id)->Some_0;
    let payload = code + text;
    lemma_frame_read_write(payload);
    assert(payload.take(2) =~= code);
    assert(payload.skip(2) =~= text);
}

/// What is read from a line is a device with a talker code and a valid
/// body.
pub proof fn lemma_sentence_valid<T: NmeaBuff>(line: Seq<u8>)
    requires
        sentence_of_text::<T>(line) is Ok,
    ensures
        sentence_of_text::<T>(line)->Ok_0.0 != DeviceId::Unknown,
        T::valid(sentence_of_text::<T>(line)->Ok_0.1),
{
    let payload = payload_of_line(line)->Ok_0;
    T::lemma_value_valid(payload.skip(2));
}

/// What is read from a line has that line for its sentence, but for the
/// case of the two checksum digits.
pub proof fn lemma_sentence_write_read<T: NmeaBuff>(line: Seq<u8>)
    requires
        sentence_of_text::<T>(line) is Ok,
    ensures
        ({
            let (id, body) = sentence_of_text::<T>(line)->Ok_0;
            sentence_text::<T>(id, body) == Ok::<Seq<u8>, EncodeError>(
                frame(payload_of_line(line)->Ok_0),
            )
        }),
{
    let payload = payload_of_line(line)->Ok_0;
    T::lemma_write_read(payload.skip(2));
    assert(payload =~= payload.take(2) + payload.skip(2));
}

/// Checksum rejection: a sentence in which one of the two checksum digits
/// is replaced by another hexadecimal digit of another value is not read:
/// it fails with a checksum mismatch, which names the checksum of the
/// payload.
pub proof fn lemma_sentence_checksum_rejected<T: NmeaBuff>(payload: Seq<u8>, k: int, b: u8)
    requires
        0 <= k < 2,
        hex_value(b) is Some,
        hex_value(b) != hex_value(frame(payload)[payload.len() + 2 + k]),
    ensures
        sentence_of_text::<T>(frame(payload).update(payload.len() + 2 + k, b)) is Err,
        sentence_of_text::<T>(frame(payload).update(payload.len() + 2 + k, b))->Err_0 matches
            DecodeError::ChecksumMismatch { expected, actual } && expected == xor_fold(payload)
            && actual != expected,
{
    lemma_checksum_digit_replaced(payload, k, b);
}

} // verus!
