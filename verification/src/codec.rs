//! The codec contracts between a connection and its application: decoders
//! turn inbound bytes into messages, encoders turn messages into outbound
//! buffers, and reactors receive decoded messages.
//!
//! ## Buffer lifecycles
//! A message is decoded by `Decoder::decode()`, processed by the
//! application, encoded by `Encoder::encode()`, and once its bytes are on the
//! wire the serialized buffer goes back through `Encoder::return_buffer()`
//! so that it can be reused.

use vstd::prelude::*;

verus! {

/// Errors that can occur when deserializing a message.
#[derive(Debug, PartialEq, Eq, Structural)]
pub enum DeserializeError {
    /// The buffer is retained and the decoder is called again later with more bytes.
    IncompleteBuffer {
        /// Total bytes the next message occupies on the wire, inclusive of framing.
        /// The connection disconnects when this exceeds its max buffer length.
        next_message_size: usize,
    },
    /// The buffer is discarded and the connection is closed.
    InvalidBuffer,
    /// `distance` bytes are skipped.
    SkipMessage {
        /// How many bytes to skip. The decoder may be called again before the
        /// skip happens, and may need to repeat it.
        distance: usize,
    },
}

/// What the connection should do after processing an inbound message.
#[derive(Debug, PartialEq, Eq, Structural)]
pub enum ReactorStatus {
    /// Continue processing messages.
    Continue,
    /// Disconnect the connection.
    Disconnect,
}

/// A decoder takes inbound bytes and produces messages.
pub trait Decoder {
    /// The message type produced by this decoder.
    type Message;

    /// Whether this decoder keeps `decodes()` as `decode` says. A decoder
    /// that keeps no such record says nothing (the default), and nothing is
    /// then claimed of its decodes.
    open spec fn obeys_decodes() -> bool {
        false
    }

    /// Every decode this decoder has made, when it keeps the record: the
    /// bytes it was offered and what it answered, in order.
    open spec fn decodes(&self) -> Seq<(Seq<u8>, Result<(usize, Self::Message), DeserializeError>)> {
        Seq::empty()
    }

    /// Decode a message from the front of `buffer`, or tell why you can't.
    ///
    /// The returned length is the number of bytes the message occupied; it
    /// must not exceed the bytes offered. The decode is added to `decodes()`.
    fn decode(&mut self, buffer: &[u8]) -> (decoded: Result<(usize, Self::Message), DeserializeError>)
        ensures
            Self::obeys_decodes() ==> final(self).decodes() == old(self).decodes().push((buffer@, decoded)),
    ;
}

/// A buffer of outbound bytes that is written to the wire front first.
pub trait OutboundBuffer {
    /// The bytes of this buffer that have not been written yet.
    spec fn unsent(&self) -> Seq<u8>;

    /// How many bytes have not been written yet.
    fn remaining(&self) -> (count: usize)
        ensures
            count == self.unsent().len(),
    ;

    /// The unsent bytes, in one piece: a vectored write lays the chunks of
    /// the queued buffers end to end, so each chunk must be its buffer's
    /// whole unsent part for the written bytes to be the queue's bytes.
    fn chunk(&self) -> (bytes: &[u8])
        ensures
            bytes@.len() <= self.unsent().len(),
            bytes@ == self.unsent().subrange(0, bytes@.len() as int),
            self.unsent().len() > 0 ==> bytes@.len() > 0,
            bytes@ == self.unsent(),
    ;

    /// Mark the first `count` unsent bytes as written.
    fn advance(&mut self, count: usize)
        requires
            count <= old(self).unsent().len(),
        ensures
            final(self).unsent() == old(self).unsent().subrange(count as int, old(self).unsent().len() as int),
    ;
}

/// An encoder takes messages and produces outbound buffers.
pub trait Encoder {
    /// The message type consumed by this encoder.
    type Message;

    /// The buffer type this encoder produces.
    type Serialized: OutboundBuffer;

    /// Whether this encoder keeps `encoded()` and `takes_back` as `encode`
    /// and `return_buffer` say. An encoder that keeps no such record says
    /// nothing (the default), and nothing is then claimed of it.
    open spec fn obeys_encoded() -> bool {
        false
    }

    /// Every message this encoder has encoded, when it keeps the record, with
    /// the bytes of the buffer it made, in order.
    open spec fn encoded(&self) -> Seq<(Self::Message, Seq<u8>)> {
        Seq::empty()
    }

    /// Whether `after` is this encoder once it has taken back `buffer`. By
    /// default nothing is said of it.
    open spec fn takes_back(&self, buffer: Self::Serialized, after: &Self) -> bool {
        true
    }

    /// Encode a message into a buffer. The message and the buffer's bytes
    /// are added to `encoded()`.
    fn encode(&mut self, message: Self::Message) -> (serialized: Self::Serialized)
        ensures
            Self::obeys_encoded() ==> final(self).encoded() == old(self).encoded().push((message, serialized.unsent())),
    ;

    /// Buffers are sent back to the encoder once the message is sent. They
    /// are not guaranteed to be advanced to the end; reset and reuse them if
    /// appropriate, or drop them.
    fn return_buffer(&mut self, buffer: Self::Serialized)
        ensures
            Self::obeys_encoded() ==> old(self).takes_back(buffer, final(self)),
            Self::obeys_encoded() ==> final(self).encoded() == old(self).encoded(),
    ;
}

/// The encoder states `states` take back `buffers` one after another: the
/// encoder in each state, given the next buffer, becomes the next state.
pub open spec fn takes_back_in_order<E: Encoder>(states: Seq<E>, buffers: Seq<E::Serialized>) -> bool {
    &&& states.len() == buffers.len() + 1
    &&& forall|i: int| 0 <= i < buffers.len() ==> #[trigger] states[i].takes_back(buffers[i], &states[i + 1])
}

/// A codec combines an encoder and decoder for a message type.
///
/// You can make a codec with a tuple `(Encoder, Decoder)` or by implementing
/// one yourself.
pub trait Codec: Encoder + Decoder {
}

impl<E: Encoder, D: Decoder> Codec for (E, D) {
}

impl<E: Encoder, D: Decoder> Encoder for (E, D) {
    type Message = E::Message;
    type Serialized = E::Serialized;

    open spec fn obeys_encoded() -> bool {
        E::obeys_encoded()
    }

    open spec fn encoded(&self) -> Seq<(Self::Message, Seq<u8>)> {
        self.0.encoded()
    }

    open spec fn takes_back(&self, buffer: Self::Serialized, after: &Self) -> bool {
        self.0.takes_back(buffer, &after.0) && after.1 == self.1
    }

    fn encode(&mut self, message: Self::Message) -> (encoded: Self::Serialized)
        ensures
            final(self).1 == old(self).1,
    {
        self.0.encode(message)
    }

    fn return_buffer(&mut self, buffer: Self::Serialized)
        ensures
            final(self).1 == old(self).1,
    {
        self.0.return_buffer(buffer);
    }
}

impl<E: Encoder, D: Decoder> Decoder for (E, D) {
    type Message = D::Message;

    open spec fn obeys_decodes() -> bool {
        D::obeys_decodes()
    }

    open spec fn decodes(&self) -> Seq<(Seq<u8>, Result<(usize, Self::Message), DeserializeError>)> {
        self.1.decodes()
    }

    fn decode(&mut self, buffer: &[u8]) -> (decoded: Result<(usize, Self::Message), DeserializeError>)
        ensures
            final(self).0 == old(self).0,
    {
        self.1.decode(buffer)
    }
}

/// A message reactor is a stateful object that processes inbound messages.
/// It receives `&mut self`, and it receives its messages by value.
///
/// A reactor and its connection share their fate: when one drops or
/// disconnects, the other does too.
pub trait MessageReactor {
    /// Messages inbound from the remote.
    type Inbound;
    /// Messages outbound to a remote.
    type Outbound;
    /// Messages in memory, delivered to the reactor before serialization.
    type LogicalOutbound;

    /// Whether this reactor keeps `received()` as `on_inbound_message` says.
    /// A reactor that keeps no such record says nothing (the default), and
    /// nothing is then claimed of what it received.
    open spec fn obeys_received() -> bool {
        false
    }

    /// Every message this reactor has received, when it keeps the record,
    /// with its answer, in order.
    open spec fn received(&self) -> Seq<(Self::Inbound, ReactorStatus)> {
        Seq::empty()
    }

    /// Called when a message is received. Take it quickly: blocking here
    /// blocks the connection. Return `Disconnect` to close the connection.
    /// The message and the answer are added to `received()`.
    fn on_inbound_message(&mut self, message: Self::Inbound) -> (status: ReactorStatus)
        ensures
            Self::obeys_received() ==> final(self).received() == old(self).received().push((message, status)),
    ;

    /// Called when a message from the outbound queue is about to be sent;
    /// returns the wire message to encode.
    fn on_outbound_message(&mut self, message: Self::LogicalOutbound) -> Self::Outbound;
}

/// Raw serializer that writes messages into byte vectors.
pub trait Serialize {
    /// The message type this serializer writes.
    type Message;

    /// Whether this serializer keeps `serialized()` as
    /// `serialize_into_buffer` says. A serializer that keeps no such record
    /// says nothing (the default), and nothing is then claimed of it.
    open spec fn obeys_serialized() -> bool {
        false
    }

    /// Every message this serializer has written, when it keeps the record,
    /// with the bytes it wrote, in order.
    open spec fn serialized(&self) -> Seq<(Self::Message, Seq<u8>)> {
        Seq::empty()
    }

    /// Write a message into a buffer, which is always handed over empty. The
    /// message and the bytes written are added to `serialized()`.
    fn serialize_into_buffer(&mut self, message: Self::Message, buffer: &mut Vec<u8>)
        requires
            old(buffer)@.len() == 0,
        ensures
            Self::obeys_serialized() ==> final(self).serialized() == old(self).serialized().push((message, final(buffer)@)),
    ;
}

/// A byte vector with a cursor that marks how much of it has been written.
/// This works for simple apis; with latency, memory or cpu constraints,
/// prefer a pooled encoder that reuses its buffers.
pub struct OwnedBuffer {
    buffer: Vec<u8>,
    cursor: usize,
}

impl OwnedBuffer {
    /// All bytes held, written or not.
    pub closed spec fn bytes(&self) -> Seq<u8> {
        self.buffer@
    }

    /// How many bytes have been written.
    pub closed spec fn written(&self) -> nat {
        self.cursor as nat
    }

    /// Wrap `buffer` with nothing written yet.
    pub fn new(buffer: Vec<u8>) -> (owned: Self)
        ensures
            owned.unsent() == buffer@,
            owned.bytes() == buffer@,
            owned.written() == 0,
    {
        Self { buffer, cursor: 0 }
    }
}

impl OutboundBuffer for OwnedBuffer {
    closed spec fn unsent(&self) -> Seq<u8> {
        if self.cursor <= self.buffer@.len() {
            self.buffer@.subrange(self.cursor as int, self.buffer@.len() as int)
        } else {
            Seq::empty()
        }
    }

    fn remaining(&self) -> (count: usize) {
        if self.cursor <= self.buffer.len() {
            self.buffer.len() - self.cursor
        } else {
            0
        }
    }

    fn chunk(&self) -> (bytes: &[u8])
        ensures
            bytes@ == self.unsent(),
    {
        if self.cursor <= self.buffer.len() {
            let bytes = vstd::slice::slice_subrange(self.buffer.as_slice(), self.cursor, self.buffer.len());
            assert(bytes@ =~= self.unsent().subrange(0, bytes@.len() as int));
            bytes
        } else {
            let bytes = vstd::slice::slice_subrange(self.buffer.as_slice(), 0, 0);
            assert(bytes@ =~= self.unsent().subrange(0, 0));
            bytes
        }
    }

    fn advance(&mut self, count: usize) {
        if self.cursor <= self.buffer.len() {
            self.cursor = self.cursor + count;
            assert(self.unsent() =~= old(self).unsent().subrange(count as int, old(self).unsent().len() as int));
        } else {
            assert(old(self).unsent().subrange(0, 0) =~= Seq::<u8>::empty());
        }
    }
}

impl<T: Serialize> Encoder for T {
    type Message = T::Message;
    type Serialized = OwnedBuffer;

    open spec fn obeys_encoded() -> bool {
        T::obeys_serialized()
    }

    open spec fn encoded(&self) -> Seq<(Self::Message, Seq<u8>)> {
        self.serialized()
    }

    open spec fn takes_back(&self, buffer: Self::Serialized, after: &Self) -> bool {
        *after == *self
    }

    fn encode(&mut self, message: Self::Message) -> (encoded: Self::Serialized)
        ensures
            encoded.written() == 0,
            encoded.unsent() == encoded.bytes(),
    {
        let mut buffer: Vec<u8> = Vec::new();
        self.serialize_into_buffer(message, &mut buffer);
        OwnedBuffer::new(buffer)
    }

    /// A written buffer is dropped.
    fn return_buffer(&mut self, buffer: Self::Serialized) {
    }
}

} // verus!
