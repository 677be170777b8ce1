//! The control messages and their binary encoding.
//!
//! A message is a little-endian `u32` tag, followed for the two variants that
//! carry a domain by the domain's UTF-8 length as a little-endian `u64` and the
//! UTF-8 bytes themselves. The primitive fields are written and read by
//! `bincode`; the framing of the variants around them is verified here.

use vstd::bytes::*;
use vstd::prelude::*;
use vstd::slice::slice_subrange;
use vstd::utf8::*;

verus! {

/// One control message, as exchanged on control and data connections.
#[derive(Debug, PartialEq, Eq)]
pub enum Packet {
    /// Client to server: the handshake is complete.
    Ack,
    /// Client to server: begin a handshake.
    Init,
    /// Server to client: the handshake succeeded, with the assigned domain.
    Success(String),
    /// Data connection to server: the domain this fresh connection serves.
    DataInit(String),
    /// Server to data connection: raw relaying starts after this message.
    DataForward,
}

/// The mathematical value of a [`Packet`].
pub enum Message {
    Ack,
    Init,
    Success(Seq<char>),
    DataInit(Seq<char>),
    DataForward,
}

impl View for Packet {
    type V = Message;

    open spec fn view(&self) -> Message {
        match self {
            Packet::Ack => Message::Ack,
            Packet::Init => Message::Init,
            Packet::Success(domain) => Message::Success(domain@),
            Packet::DataInit(domain) => Message::DataInit(domain@),
            Packet::DataForward => Message::DataForward,
        }
    }
}

impl Clone for Packet {
    fn clone(&self) -> (copy: Self)
        ensures
            copy@ == self@,
    {
        match self {
            Packet::Ack => Packet::Ack,
            Packet::Init => Packet::Init,
            Packet::Success(domain) => Packet::Success(domain.clone()),
            Packet::DataInit(domain) => Packet::DataInit(domain.clone()),
            Packet::DataForward => Packet::DataForward,
        }
    }
}

/// Why a byte sequence does not start with a message.
#[derive(Debug, Clone, Copy, PartialEq, Eq, Structural)]
pub enum DecodeError {
    /// The bytes end before the message does; more input may complete it.
    Truncated,
    /// The tag names no message variant.
    UnknownTag(u32),
    /// The domain's bytes are all present but are not valid UTF-8.
    InvalidUtf8,
}

pub const TAG_ACK: u32 = 0;

pub const TAG_INIT: u32 = 1;

pub const TAG_SUCCESS: u32 = 2;

pub const TAG_DATA_INIT: u32 = 3;

pub const TAG_DATA_FORWARD: u32 = 4;

/// The tag that opens the encoding of `m`.
pub open spec fn tag_of(m: Message) -> u32 {
    match m {
        Message::Ack => TAG_ACK,
        Message::Init => TAG_INIT,
        Message::Success(_) => TAG_SUCCESS,
        Message::DataInit(_) => TAG_DATA_INIT,
        Message::DataForward => TAG_DATA_FORWARD,
    }
}

/// The encoding of a text field: its UTF-8 length in eight bytes, then the UTF-8 bytes.
pub open spec fn text_bytes(text: Seq<char>) -> Seq<u8> {
    spec_u64_to_le_bytes(encode_utf8(text).len() as u64) + encode_utf8(text)
}

/// What follows the tag in the encoding of `m`.
pub open spec fn payload_bytes(m: Message) -> Seq<u8> {
    match m {
        Message::Success(domain) | Message::DataInit(domain) => text_bytes(domain),
        _ => Seq::empty(),
    }
}

/// The encoding of `m`.
pub open spec fn wire_bytes(m: Message) -> Seq<u8> {
    spec_u32_to_le_bytes(tag_of(m)) + payload_bytes(m)
}

/// A message whose text, if it has one, is short enough for its length to be written down.
pub open spec fn encodable(m: Message) -> bool {
    match m {
        Message::Success(domain) | Message::DataInit(domain) => encode_utf8(domain).len()
            <= u64::MAX,
        _ => true,
    }
}

/// The length that the first eight bytes of `bytes` announce.
pub open spec fn announced_len(bytes: Seq<u8>) -> nat
    recommends
        bytes.len() >= 8,
{
    spec_u64_from_le_bytes(bytes.subrange(0, 8)) as nat
}

/// True when `bytes` starts with a whole text field: its length and that many bytes.
pub open spec fn text_complete(bytes: Seq<u8>) -> bool {
    bytes.len() >= 8 && announced_len(bytes) <= bytes.len() - 8
}

/// The bytes of the text field that `bytes` starts with, without the length.
pub open spec fn text_body(bytes: Seq<u8>) -> Seq<u8>
    recommends
        text_complete(bytes),
{
    bytes.subrange(8, 8 + announced_len(bytes) as int)
}

/// True when `bytes` starts with a whole text field whose bytes are UTF-8.
pub open spec fn text_readable(bytes: Seq<u8>) -> bool {
    text_complete(bytes) && valid_utf8(text_body(bytes))
}

/// The text field at the front of `bytes` and the number of bytes it takes.
pub open spec fn decode_text(bytes: Seq<u8>) -> Result<(Seq<char>, nat), DecodeError> {
    if !text_complete(bytes) {
        Err(DecodeError::Truncated)
    } else if !valid_utf8(text_body(bytes)) {
        Err(DecodeError::InvalidUtf8)
    } else {
        Ok((decode_utf8(text_body(bytes)), 8 + announced_len(bytes)))
    }
}

/// The message at the front of `bytes` and the number of bytes it takes.
/// Bytes after the message are left alone.
pub open spec fn decode(bytes: Seq<u8>) -> Result<(Message, nat), DecodeError> {
    if bytes.len() < 4 {
        Err(DecodeError::Truncated)
    } else {
        let tag = spec_u32_from_le_bytes(bytes.subrange(0, 4));
        let rest = bytes.subrange(4, bytes.len() as int);
        if tag == TAG_ACK {
            Ok((Message::Ack, 4))
        } else if tag == TAG_INIT {
            Ok((Message::Init, 4))
        } else if tag == TAG_SUCCESS {
            match decode_text(rest) {
                Ok((domain, n)) => Ok((Message::Success(domain), 4 + n)),
                Err(e) => Err(e),
            }
        } else if tag == TAG_DATA_INIT {
            match decode_text(rest) {
                Ok((domain, n)) => Ok((Message::DataInit(domain), 4 + n)),
                Err(e) => Err(e),
            }
        } else if tag == TAG_DATA_FORWARD {
            Ok((Message::DataForward, 4))
        } else {
            Err(DecodeError::UnknownTag(tag))
        }
    }
}

/// `bincode::ErrorKind`, the error of every `bincode` call. It is carried, never looked into.
#[verifier::external_type_specification]
#[verifier::external_body]
pub struct ExBincodeErrorKind(bincode::ErrorKind);

/// `bincode::serialize` on a `u32`: the four bytes of the value, lowest first.
/// It writes into a fresh `Vec` with no size limit, which cannot fail.
#[verifier::external_body]
fn write_u32(value: u32) -> (r: Result<Vec<u8>, Box<bincode::ErrorKind>>)
    ensures
        r is Ok,
        r matches Ok(bytes) ==> bytes@ == spec_u32_to_le_bytes(value),
{
    bincode::serialize(&value)
}

/// `bincode::serialize` on a `str`: the length of its UTF-8 form as a `u64`,
/// lowest byte first, then the UTF-8 bytes. It writes into a fresh `Vec` with
/// no size limit, which cannot fail.
#[verifier::external_body]
fn write_text(text: &str) -> (r: Result<Vec<u8>, Box<bincode::ErrorKind>>)
    ensures
        r is Ok,
        r matches Ok(bytes) ==> bytes@ == text_bytes(text@),
{
    bincode::serialize(text)
}

/// `bincode::deserialize` to a `u32`: fails when fewer than four bytes are
/// there, else reads the first four, lowest first, and ignores the rest.
#[verifier::external_body]
fn read_u32(bytes: &[u8]) -> (r: Result<u32, Box<bincode::ErrorKind>>)
    ensures
        r is Ok <==> bytes@.len() >= 4,
        r matches Ok(value) ==> value == spec_u32_from_le_bytes(bytes@.subrange(0, 4)),
{
    bincode::deserialize::<u32>(bytes)
}

/// `bincode::deserialize` to a `u64`: fails when fewer than eight bytes are
/// there, else reads the first eight, lowest first, and ignores the rest.
#[verifier::external_body]
fn read_u64(bytes: &[u8]) -> (r: Result<u64, Box<bincode::ErrorKind>>)
    ensures
        r is Ok <==> bytes@.len() >= 8,
        r matches Ok(value) ==> value == spec_u64_from_le_bytes(bytes@.subrange(0, 8)),
{
    bincode::deserialize::<u64>(bytes)
}

/// `bincode::deserialize` to a `String`: reads a `u64` length, takes that many
/// of the bytes that follow and checks that they are UTF-8. It fails when the
/// length or the announced bytes are not all there, or when they are not UTF-8;
/// bytes after the text are ignored.
#[verifier::external_body]
fn read_text(bytes: &[u8]) -> (r: Result<String, Box<bincode::ErrorKind>>)
    ensures
        r is Ok <==> text_readable(bytes@),
        r matches Ok(text) ==> text@ == decode_utf8(text_body(bytes@)),
{
    bincode::deserialize::<String>(bytes)
}

/// Reads the text field at the front of `bytes`.
fn parse_text(bytes: &[u8]) -> (r: Result<(String, usize), DecodeError>)
    ensures
        match r {
            Ok((text, n)) => decode_text(bytes@) == Ok::<(Seq<char>, nat), DecodeError>(
                (text@, n as nat),
            ),
            Err(e) => decode_text(bytes@) == Err::<(Seq<char>, nat), DecodeError>(e),
        },
{
    let len = match read_u64(bytes) {
        Ok(len) => len,
        Err(_) => {
            return Err(DecodeError::Truncated);
        },
    };
    if len > (bytes.len() - 8) as u64 {
        return Err(DecodeError::Truncated);
    }
    match read_text(bytes) {
        Ok(text) => Ok((text, 8 + len as usize)),
        Err(_) => Err(DecodeError::InvalidUtf8),
    }
}

impl Packet {
    /// The tag that opens this message's encoding.
    pub fn tag(&self) -> (t: u32)
        ensures
            t == tag_of(self@),
    {
        match self {
            Packet::Ack => TAG_ACK,
            Packet::Init => TAG_INIT,
            Packet::Success(_) => TAG_SUCCESS,
            Packet::DataInit(_) => TAG_DATA_INIT,
            Packet::DataForward => TAG_DATA_FORWARD,
        }
    }

    /// Encodes the message.
    pub fn encode(&self) -> (bytes: Vec<u8>)
        ensures
            bytes@ == wire_bytes(self@),
            encodable(self@),
    {
        let mut out = match write_u32(self.tag()) {
            Ok(bytes) => bytes,
            Err(_) => unreached(),
        };
        match self {
            Packet::Success(domain) | Packet::DataInit(domain) => {
                let text = domain.as_str();
                // A text in memory has a length that fits the length field.
                let _: usize = text.as_bytes().len();
                let mut payload = match write_text(text) {
                    Ok(bytes) => bytes,
                    Err(_) => unreached(),
                };
                out.append(&mut payload);
            },
            _ => {
                assert(out@ + Seq::<u8>::empty() == out@);
            },
        }
        out
    }

    /// Decodes the message at the front of `bytes` and says how many bytes it
    /// took. What follows the message is not looked at, so a buffer that holds
    /// one message and the start of the next decodes to the first.
    pub fn parse_prefix(bytes: &[u8]) -> (r: Result<(Packet, usize), DecodeError>)
        ensures
            match r {
                Ok((packet, n)) => decode(bytes@) == Ok::<(Message, nat), DecodeError>(
                    (packet@, n as nat),
                ),
                Err(e) => decode(bytes@) == Err::<(Message, nat), DecodeError>(e),
            },
    {
        let tag = match read_u32(bytes) {
            Ok(tag) => tag,
            Err(_) => {
                return Err(DecodeError::Truncated);
            },
        };
        if tag == TAG_ACK {
            Ok((Packet::Ack, 4))
        } else if tag == TAG_INIT {
            Ok((Packet::Init, 4))
        } else if tag == TAG_SUCCESS {
            match parse_text(slice_subrange(bytes, 4, bytes.len())) {
                Ok((domain, n)) => Ok((Packet::Success(domain), 4 + n)),
                Err(e) => Err(e),
            }
        } else if tag == TAG_DATA_INIT {
            match parse_text(slice_subrange(bytes, 4, bytes.len())) {
                Ok((domain, n)) => Ok((Packet::DataInit(domain), 4 + n)),
                Err(e) => Err(e),
            }
        } else if tag == TAG_DATA_FORWARD {
            Ok((Packet::DataForward, 4))
        } else {
            Err(DecodeError::UnknownTag(tag))
        }
    }

    /// Decodes the message at the front of `bytes`. Malformed or truncated
    /// input is an error, never a wrong message.
    pub fn parse(bytes: &[u8]) -> (r: Result<Packet, DecodeError>)
        ensures
            match r {
                Ok(packet) => decode(bytes@) is Ok && decode(bytes@)->Ok_0.0 == packet@,
                Err(e) => decode(bytes@) == Err::<(Message, nat), DecodeError>(e),
            },
    {
        match Packet::parse_prefix(bytes) {
            Ok((packet, _)) => Ok(packet),
            Err(e) => Err(e),
        }
    }
}

/// Round trip: the encoding of a message, whatever follows it, decodes to that
/// message and to the length of its encoding.
pub proof fn lemma_decode_encode(m: Message, tail: Seq<u8>)
    requires
        encodable(m),
    ensures
        decode(wire_bytes(m) + tail) == Ok::<(Message, nat), DecodeError>(
            (m, wire_bytes(m).len()),
        ),
{
    lemma_auto_spec_u32_to_from_le_bytes();
    lemma_auto_spec_u64_to_from_le_bytes();
    let bytes = wire_bytes(m) + tail;
    let head = spec_u32_to_le_bytes(tag_of(m));
    assert(bytes.subrange(0, 4) == head);
    let rest = bytes.subrange(4, bytes.len() as int);
    assert(rest == payload_bytes(m) + tail);
    match m {
        Message::Success(domain) | Message::DataInit(domain) => {
            lemma_text_round_trip(domain, tail);
        },
        _ => {},
    }
}

proof fn lemma_text_round_trip(text: Seq<char>, tail: Seq<u8>)
    requires
        encode_utf8(text).len() <= u64::MAX,
    ensures
        decode_text(text_bytes(text) + tail) == Ok::<(Seq<char>, nat), DecodeError>(
            (text, text_bytes(text).len()),
        ),
{
    lemma_auto_spec_u64_to_from_le_bytes();
    let body = encode_utf8(text);
    let bytes = text_bytes(text) + tail;
    assert(bytes.subrange(0, 8) == spec_u64_to_le_bytes(body.len() as u64));
    assert(text_body(bytes) == body);
    encode_utf8_valid_utf8(text);
    encode_utf8_decode_utf8(text);
}

/// No wrong success: where bytes decode to a message, the bytes consumed are
/// exactly that message's encoding.
pub proof fn lemma_decode_sound(bytes: Seq<u8>)
    ensures
        decode(bytes) matches Ok((m, n)) ==> {
            &&& n <= bytes.len()
            &&& encodable(m)
            &&& bytes.subrange(0, n as int) == wire_bytes(m)
        },
{
    lemma_auto_spec_u32_to_from_le_bytes();
    if let Ok((m, n)) = decode(bytes) {
        let rest = bytes.subrange(4, bytes.len() as int);
        assert(spec_u32_to_le_bytes(tag_of(m)) == bytes.subrange(0, 4));
        match m {
            Message::Success(_) | Message::DataInit(_) => {
                lemma_text_sound(rest);
                assert(bytes.subrange(0, n as int) == bytes.subrange(0, 4) + rest.subrange(
                    0,
                    n - 4,
                ));
            },
            _ => {
                assert(bytes.subrange(0, 4) + Seq::<u8>::empty() == bytes.subrange(0, 4));
            },
        }
    }
}

proof fn lemma_text_sound(bytes: Seq<u8>)
    ensures
        decode_text(bytes) matches Ok((text, n)) ==> {
            &&& n <= bytes.len()
            &&& encode_utf8(text).len() <= u64::MAX
            &&& bytes.subrange(0, n as int) == text_bytes(text)
        },
{
    lemma_auto_spec_u64_to_from_le_bytes();
    if let Ok((text, n)) = decode_text(bytes) {
        let body = text_body(bytes);
        decode_utf8_encode_utf8(body);
        assert(spec_u64_to_le_bytes(spec_u64_from_le_bytes(bytes.subrange(0, 8)))
            == bytes.subrange(0, 8));
        assert(bytes.subrange(0, n as int) == bytes.subrange(0, 8) + body);
    }
}

/// Truncation: no proper prefix of a message's encoding decodes; each fails as
/// truncated.
pub proof fn lemma_truncated(m: Message, k: int)
    requires
        encodable(m),
        0 <= k < wire_bytes(m).len(),
    ensures
        decode(wire_bytes(m).subrange(0, k)) == Err::<(Message, nat), DecodeError>(
            DecodeError::Truncated,
        ),
{
    lemma_auto_spec_u32_to_from_le_bytes();
    lemma_auto_spec_u64_to_from_le_bytes();
    let whole = wire_bytes(m);
    let bytes = whole.subrange(0, k);
    if k >= 4 {
        assert(bytes.subrange(0, 4) == spec_u32_to_le_bytes(tag_of(m)));
        let rest = bytes.subrange(4, bytes.len() as int);
        assert(rest == payload_bytes(m).subrange(0, k - 4));
        if rest.len() >= 8 {
            let text = match m {
                Message::Success(domain) | Message::DataInit(domain) => domain,
                _ => Seq::empty(),
            };
            assert(rest.subrange(0, 8) == spec_u64_to_le_bytes(encode_utf8(text).len() as u64));
        }
    }
}

} // verus!
