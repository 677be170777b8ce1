//! Reassembly of messages from a byte stream.
//!
//! A read from a socket may end in the middle of a message or hold more than
//! one. The buffer collects what was read and gives out whole messages, each
//! once, in the order of their bytes.

use crate::packet::{
    decode, encodable, lemma_decode_encode, lemma_decode_sound, wire_bytes, DecodeError, Message,
    Packet,
};
use bytes::BytesMut;
use vstd::prelude::*;
use vstd::slice::slice_to_vec;

verus! {

/// `bytes::BytesMut`, a growable byte buffer. What it holds is spoken of
/// through [`buffered`].
#[verifier::external_type_specification]
#[verifier::external_body]
pub struct ExBytesMut(BytesMut);

/// The bytes that a `BytesMut` holds, first to last.
pub uninterp spec fn buffered(buf: BytesMut) -> Seq<u8>;

/// `BytesMut::new`: a buffer that holds nothing.
#[verifier::external_body]
fn buffer_new() -> (buf: BytesMut)
    ensures
        buffered(buf) == Seq::<u8>::empty(),
{
    BytesMut::new()
}

/// `BytesMut::len`: the number of bytes held.
#[verifier::external_body]
fn buffer_len(buf: &BytesMut) -> (n: usize)
    ensures
        n == buffered(*buf).len(),
{
    buf.len()
}

/// `BytesMut::extend_from_slice`: appends the bytes of `chunk`. It panics
/// where the new length is more than an allocation can have.
#[verifier::external_body]
fn buffer_extend(buf: &mut BytesMut, chunk: &[u8])
    requires
        buffered(*old(buf)).len() + chunk@.len() <= isize::MAX,
    ensures
        buffered(*final(buf)) == buffered(*old(buf)) + chunk@,
{
    buf.extend_from_slice(chunk)
}

/// `BytesMut::as_ref`: the bytes held, as a slice.
#[verifier::external_body]
fn buffer_bytes(buf: &BytesMut) -> (bytes: &[u8])
    ensures
        bytes@ == buffered(*buf),
{
    buf.as_ref()
}

/// `Buf::advance` on a `BytesMut`: drops the first `n` bytes. It panics where
/// `n` is more than the buffer holds.
#[verifier::external_body]
fn buffer_advance(buf: &mut BytesMut, n: usize)
    requires
        n <= buffered(*old(buf)).len(),
    ensures
        buffered(*final(buf)) == buffered(*old(buf)).skip(n as int),
{
    bytes::Buf::advance(buf, n)
}

/// The bytes received on a connection and not yet decoded.
#[derive(Debug)]
pub struct FrameBuffer {
    buf: BytesMut,
}

impl View for FrameBuffer {
    type V = Seq<u8>;

    closed spec fn view(&self) -> Seq<u8> {
        buffered(self.buf)
    }
}

impl FrameBuffer {
    /// An empty buffer.
    pub fn new() -> (buffer: Self)
        ensures
            buffer@ == Seq::<u8>::empty(),
    {
        FrameBuffer { buf: buffer_new() }
    }

    /// The number of bytes that wait.
    pub fn len(&self) -> (n: usize)
        ensures
            n == self@.len(),
    {
        buffer_len(&self.buf)
    }

    /// Appends what a read returned. Returns `false`, and leaves the buffer
    /// as it is, where the bytes would not fit in one allocation.
    pub fn extend(&mut self, chunk: &[u8]) -> (stored: bool)
        ensures
            stored <==> old(self)@.len() + chunk@.len() <= isize::MAX,
            stored ==> final(self)@ == old(self)@ + chunk@,
            !stored ==> final(self)@ == old(self)@,
    {
        let held = buffer_len(&self.buf);
        let limit = isize::MAX as usize;
        if held > limit || chunk.len() > limit - held {
            return false;
        }
        buffer_extend(&mut self.buf, chunk);
        true
    }

    /// Takes everything out of the buffer. After the message that ends the
    /// framed part of a connection, this is payload that arrived early.
    pub fn drain(&mut self) -> (rest: Vec<u8>)
        ensures
            rest@ == old(self)@,
            final(self)@ == Seq::<u8>::empty(),
    {
        let rest = slice_to_vec(buffer_bytes(&self.buf));
        buffer_advance(&mut self.buf, rest.len());
        rest
    }

    /// Takes the next whole message off the front of the buffer. Where the
    /// buffer ends within a message it returns `None` and waits for more;
    /// where the front is no message at all it fails, and the connection is
    /// to be dropped. In both cases the buffer stays as it is.
    pub fn next_packet(&mut self) -> (r: Result<Option<Packet>, DecodeError>)
        ensures
            match decode(old(self)@) {
                Ok((message, n)) => {
                    &&& r matches Ok(Some(packet))
                    &&& packet@ == message
                    &&& final(self)@ == old(self)@.skip(n as int)
                },
                Err(DecodeError::Truncated) => r matches Ok(None) && final(self)@ == old(self)@,
                Err(e) => r == Err::<Option<Packet>, DecodeError>(e) && final(self)@ == old(
                    self,
                )@,
            },
    {
        match Packet::parse_prefix(buffer_bytes(&self.buf)) {
            Ok((packet, n)) => {
                proof {
                    lemma_decode_sound(self@);
                }
                buffer_advance(&mut self.buf, n);
                Ok(Some(packet))
            },
            Err(DecodeError::Truncated) => Ok(None),
            Err(e) => Err(e),
        }
    }
}

/// The switch from messages to payload loses nothing: where the bytes of a
/// message are followed by payload, taking the message off the front leaves the
/// payload, byte for byte and in order.
pub proof fn lemma_payload_is_left_alone(m: Message, payload: Seq<u8>)
    requires
        encodable(m),
    ensures
        decode(wire_bytes(m) + payload) == Ok::<(Message, nat), DecodeError>(
            (m, wire_bytes(m).len()),
        ),
        (wire_bytes(m) + payload).skip(wire_bytes(m).len() as int) == payload,
{
    lemma_decode_encode(m, payload);
}

} // verus!
