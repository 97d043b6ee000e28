//! Encoding and decoding of NMEA-0183 style sentences.
//!
//! A sentence reports navigation data of a device as one line of ASCII
//! text:
//!
//! ```text
//! $GPGLL,0,N,0,E,000000,A*1A\r\n
//! ```
//!
//! It names the device (`GP`) and the kind of the sentence (`GLL`), holds
//! the fields that the kind asks for, separated by commas, and ends with a
//! checksum of everything between `$` and `*`.
//!
//! - `codec` encodes and decodes whole sentences.
//! - `devices` holds the devices and their messages, `messeges` the bodies
//!   of the messages and their fields, `schema` the kinds of sentences and
//!   the types of their fields.
//! - `frame` and `checksum` put a payload into a sentence and take it out
//!   again.
//! - `decimal`, `digits` and `text` write and read numbers and search
//!   bytes.
//! - `errors` names the ways in which encoding and decoding fail.
//!
//! Every function states what it returns over sequences of bytes, and
//! the proof functions state what holds between them: what was encoded
//! decodes to itself, and nothing is decoded that encoding would not
//! write.

pub mod checksum;
pub mod codec;
pub mod decimal;
pub mod devices;
pub mod digits;
pub mod errors;
pub mod frame;
pub mod messeges;
pub mod schema;
pub mod text;
