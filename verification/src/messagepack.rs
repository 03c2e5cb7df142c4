//! MessagePack messages framed for a stream: each message is written behind
//! a five-byte header, the MessagePack `u32` marker `0xce` and the payload
//! length as a big-endian `u32`.

use vstd::prelude::*;

use core::marker::PhantomData;

verus! {

/// The MessagePack encoding of a `u32` written in full: the marker `0xce`
/// and the value big-endian.
pub open spec fn msgpack_u32(value: u32) -> Seq<u8> {
    seq![0xceu8, (value / 16777216) as u8, ((value / 65536) % 256) as u8, ((value / 256) % 256) as u8, (value % 256) as u8]
}

/// The framed buffer: `buffer` with five placeholder bytes and the payload
/// appended, its first five bytes then replaced by the header announcing the
/// length of all that less five.
pub open spec fn framed(buffer: Seq<u8>, payload: Seq<u8>) -> Seq<u8> {
    let body = buffer + seq![0u8, 0u8, 0u8, 0u8, 0u8] + payload;
    msgpack_u32((body.len() - 5) as u32) + body.subrange(5, body.len() as int)
}

/// `rmp::encode::write_u32` into a vector: appends the marker `0xce` and the
/// value big-endian. Writing into a vector does not fail. (The error type,
/// generic over an outside trait, is carried as `()`.)
#[verifier::external_body]
fn write_u32(buffer: &mut Vec<u8>, value: u32) -> (result: Result<(), ()>)
    ensures
        result is Ok,
        final(buffer)@ == old(buffer)@ + msgpack_u32(value),
{
    rmp::encode::write_u32(buffer, value).map_err(|_| ())
}

/// `rmp_serde::encode::write` into a vector: appends the compact MessagePack
/// encoding of `message`. What it appends is not stated; on failure some
/// bytes may have been appended. (Its error, whose name this crate also
/// uses, is carried as `()`.)
#[verifier::external_body]
fn write_message<T: serde::Serialize>(buffer: &mut Vec<u8>, message: &T) -> (result: Result<(), ()>)
    ensures
        final(buffer)@.len() >= old(buffer)@.len(),
        final(buffer)@.subrange(0, old(buffer)@.len() as int) == old(buffer)@,
{
    rmp_serde::encode::write(buffer, message).map_err(|_| ())
}

/// A serializer that writes `serde::Serialize` messages as framed
/// MessagePack.
pub struct MessagePackSerializer<T> {
    _phantom: PhantomData<T>,
    payloads: Ghost<Seq<Option<Seq<u8>>>>,
}

impl<T> MessagePackSerializer<T> {
    /// What `rmp_serde` wrote at each call, in order: the encoding of the
    /// message, or `None` when it reported an error.
    pub closed spec fn payloads_written(&self) -> Seq<Option<Seq<u8>>> {
        self.payloads@
    }

    /// A new serializer.
    pub fn new() -> (serializer: Self)
        ensures
            serializer.payloads_written() == Seq::<Option<Seq<u8>>>::empty(),
    {
        MessagePackSerializer { _phantom: PhantomData, payloads: Ghost(Seq::empty()) }
    }

    /// Replace the first five bytes of `buffer` with the header announcing
    /// `buffer.len() - 5` bytes.
    pub fn write_header(buffer: &mut Vec<u8>)
        requires
            5 <= old(buffer)@.len() <= u32::MAX,
        ensures
            final(buffer)@ == msgpack_u32((old(buffer)@.len() - 5) as u32)
                + old(buffer)@.subrange(5, old(buffer)@.len() as int),
    {
        let length = (buffer.len() - 5) as u32;
        let mut header: Vec<u8> = Vec::new();
        let _ = write_u32(&mut header, length);
        assert(header@ == msgpack_u32(length));
        let mut i: usize = 0;
        while i < 5
            invariant
                i <= 5,
                header@ == msgpack_u32(length),
                buffer@.len() == old(buffer)@.len(),
                5 <= old(buffer)@.len(),
                forall|j: int| 0 <= j < i ==> #[trigger] buffer@[j] == header@[j],
                forall|j: int| i <= j < buffer@.len() ==> #[trigger] buffer@[j] == old(buffer)@[j],
            decreases 5 - i,
        {
            buffer.set(i, header[i]);
            i = i + 1;
        }
        assert(buffer@ =~= msgpack_u32(length) + old(buffer)@.subrange(5, old(buffer)@.len() as int));
    }

    /// Finish a frame whose payload encoding was attempted behind five
    /// placeholder bytes at `start`: when the encoding succeeded and the
    /// buffer's length fits in a `u32`, the header announcing the buffer's
    /// length less five replaces its first five bytes; otherwise the buffer
    /// is cut back to `start`.
    pub fn finish_frame(buffer: &mut Vec<u8>, start: usize, encoded: bool)
        requires
            start + 5 <= old(buffer)@.len(),
        ensures
            encoded && old(buffer)@.len() <= u32::MAX ==> final(buffer)@ == msgpack_u32((old(buffer)@.len() - 5) as u32)
                + old(buffer)@.subrange(5, old(buffer)@.len() as int),
            !(encoded && old(buffer)@.len() <= u32::MAX) ==> final(buffer)@ == old(buffer)@.subrange(0, start as int),
    {
        let ghost before = buffer@.subrange(0, start as int);
        if encoded && buffer.len() <= u32::MAX as usize {
            Self::write_header(buffer);
        } else {
            buffer.truncate(start);
            assert(buffer@ =~= before);
        }
    }

    /// Write `message` into `buffer` as a frame: five placeholder bytes, the
    /// MessagePack encoding, then the header over the first five bytes of
    /// the buffer. On an empty buffer this is the header followed by the
    /// encoding. When the message cannot be encoded, or the buffer would
    /// outgrow a `u32` length, the buffer is left as it was
    /// ([`Self::finish_frame`] with the encoder's answer).
    pub fn serialize_into_buffer(&mut self, message: T, buffer: &mut Vec<u8>)
        where T: serde::Serialize,
        requires
            old(buffer)@.len() + 5 <= usize::MAX,
        ensures
            final(buffer)@ == old(buffer)@ || exists|payload: Seq<u8>|
                final(buffer)@ == #[trigger] framed(old(buffer)@, payload),
            final(self).payloads_written().len() == old(self).payloads_written().len() + 1,
            final(self).payloads_written().subrange(0, old(self).payloads_written().len() as int) == old(
                self).payloads_written(),
            match final(self).payloads_written().last() {
                Some(payload) => if old(buffer)@.len() + 5 + payload.len() <= u32::MAX {
                    final(buffer)@ == framed(old(buffer)@, payload)
                } else {
                    final(buffer)@ == old(buffer)@
                },
                None => final(buffer)@ == old(buffer)@,
            },
    {
        let start = buffer.len();
        let ghost before = buffer@;
        buffer.push(0u8);
        buffer.push(0u8);
        buffer.push(0u8);
        buffer.push(0u8);
        buffer.push(0u8);
        let ghost padded = buffer@;
        assert(padded =~= before + seq![0u8, 0u8, 0u8, 0u8, 0u8]);
        let (outcome, Ghost(written)) = (write_message(buffer, &message), Ghost(buffer@));
        proof {
            let payload = if outcome is Ok { Some(written.subrange(start + 5, written.len() as int)) } else { None };
            self.payloads@ = self.payloads@.push(payload);
        }
        let encoded = outcome.is_ok();
        assert(written.subrange(0, start as int) =~= before);
        Self::finish_frame(buffer, start, encoded);
        proof {
            let payload = written.subrange(start + 5, written.len() as int);
            if encoded && written.len() <= u32::MAX {
                assert(written =~= before + seq![0u8, 0u8, 0u8, 0u8, 0u8] + payload);
                assert(buffer@ == framed(before, payload));
            } else {
                assert(buffer@ =~= before);
            }
        }
    }
}

/// A frame holds the whole payload: it is the buffer's length, five header
/// bytes and the payload long, the payload fills it from just after the
/// placeholders to the end, and the header announces everything after the
/// first five bytes.
pub proof fn lemma_framed_holds_payload(buffer: Seq<u8>, payload: Seq<u8>)
    requires
        buffer.len() + 5 + payload.len() <= u32::MAX,
    ensures
        framed(buffer, payload).len() == buffer.len() + 5 + payload.len(),
        framed(buffer, payload).subrange(buffer.len() + 5int, framed(buffer, payload).len() as int) == payload,
        framed(buffer, payload).subrange(0, 5) == msgpack_u32((buffer.len() + payload.len()) as u32),
{
    let body = buffer + seq![0u8, 0u8, 0u8, 0u8, 0u8] + payload;
    let f = framed(buffer, payload);
    assert(f == msgpack_u32((body.len() - 5) as u32) + body.subrange(5, body.len() as int));
    assert(f.subrange(buffer.len() + 5int, f.len() as int) =~= payload);
    assert(f.subrange(0, 5) =~= msgpack_u32((body.len() - 5) as u32));
}

/// Framing into an empty buffer gives the header announcing the payload's
/// length, followed by the payload.
pub proof fn lemma_framed_empty(payload: Seq<u8>)
    requires
        payload.len() <= u32::MAX,
    ensures
        framed(Seq::empty(), payload) == msgpack_u32(payload.len() as u32) + payload,
{
    let body = Seq::<u8>::empty() + seq![0u8, 0u8, 0u8, 0u8, 0u8] + payload;
    assert(body.subrange(5, body.len() as int) =~= payload);
}

impl<T> Default for MessagePackSerializer<T> {
    fn default() -> Self {
        Self::new()
    }
}

} // verus!
