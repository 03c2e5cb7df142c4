//! Length-delimited protocol buffers: a serializer that writes each message
//! behind a varint length, and a decoder that waits for a whole frame before
//! decoding it.

use vstd::prelude::*;

use core::marker::PhantomData;

use crate::codec::DeserializeError;

verus! {

#[verifier::external_type_specification]
#[verifier::external_body]
pub struct ExDecodeError(prost::DecodeError);

#[verifier::external_type_specification]
#[verifier::external_body]
pub struct ExEncodeError(prost::EncodeError);

/// The value of the LEB128 varint at the front of `bytes`: the low seven
/// bits of each byte, least significant first, up to and including the first
/// byte whose high bit is clear.
pub open spec fn leb128_value(bytes: Seq<u8>) -> nat
    decreases bytes.len(),
{
    if bytes.len() == 0 {
        0
    } else if bytes[0] < 128 {
        bytes[0] as nat
    } else {
        (bytes[0] - 128) as nat + 128 * leb128_value(bytes.subrange(1, bytes.len() as int))
    }
}

/// The length that `prost::decode_length_delimiter` reads from the front of
/// `bytes`, or `None` when it reports an error: the varint must end within
/// ten bytes, a tenth byte may only be 0 or 1 (anything more overflows a
/// `u64`), and the value must fit in a `usize`.
pub open spec fn prost_length_delimiter(bytes: Seq<u8>) -> Option<usize> {
    let count = varint_prefix_len(bytes);
    if count == 0 || count > 10 || bytes[count - 1] >= 128 || (count == 10 && bytes[9] >= 2) || leb128_value(bytes)
        > usize::MAX {
        None
    } else {
        Some(leb128_value(bytes) as usize)
    }
}

/// How many bytes the LEB128 varint encoding of `value` takes.
pub open spec fn varint_len(value: nat) -> nat
    decreases value,
{
    if value < 128 {
        1
    } else {
        1 + varint_len(value / 128)
    }
}

/// How many bytes the varint at the front of `bytes` takes: up to and
/// including the first byte whose high bit is clear.
pub open spec fn varint_prefix_len(bytes: Seq<u8>) -> nat
    decreases bytes.len(),
{
    if bytes.len() == 0 {
        0
    } else if bytes[0] < 128 {
        1
    } else {
        1 + varint_prefix_len(bytes.subrange(1, bytes.len() as int))
    }
}

/// How many bytes a whole frame announcing `length` takes: the delimiter and
/// the message.
pub open spec fn frame_len(length: nat) -> nat {
    length + varint_len(length)
}

/// `prost::decode_length_delimiter`: the message length announced at the
/// front of `buffer`, decoded as prost's `decode_varint` does.
#[verifier::external_body]
pub(crate) fn decode_length_delimiter(buffer: &[u8]) -> (result: Result<usize, prost::DecodeError>)
    ensures
        match prost_length_delimiter(buffer@) {
            Some(length) => result == Ok::<usize, prost::DecodeError>(length),
            None => result is Err,
        },
{
    prost::decode_length_delimiter(buffer)
}

/// `prost::length_delimiter_len`: how many bytes the varint delimiter for
/// `length` takes (between 1 and 10).
#[verifier::external_body]
fn length_delimiter_len(length: usize) -> (len: usize)
    ensures
        len == varint_len(length as nat),
{
    prost::length_delimiter_len(length)
}

/// `prost::Message::decode_length_delimited` over a byte slice: the decoded
/// message and the bytes after what it read. It reads the varint delimiter
/// (as `prost::decode_length_delimiter` does) and then exactly the number
/// of bytes it announces, failing when fewer are there; so on success the
/// rest starts right after the delimiter and the message. The message itself
/// is not stated.
#[verifier::external_body]
pub(crate) fn decode_length_delimited<M: prost::Message + Default>(buffer: &[u8]) -> (result: Result<(M, &[u8]), prost::DecodeError>)
    ensures
        result matches Ok((_, rest)) ==> prost_length_delimiter(buffer@) matches Some(length)
            && varint_prefix_len(buffer@) + length <= buffer@.len()
            && rest@ == buffer@.subrange(varint_prefix_len(buffer@) + length, buffer@.len() as int),
{
    let mut rest = buffer;
    match M::decode_length_delimited(&mut rest) {
        Ok(message) => Ok((message, rest)),
        Err(error) => Err(error),
    }
}

/// One whole frame as prost writes it: a delimiter announcing `length` in
/// the `varint_len(length)` bytes of its LEB128 encoding, then `length`
/// bytes of message; whatever follows the frame, the delimiter read at its
/// front announces `length` and ends where the message begins.
pub open spec fn delimited_frame(frame: Seq<u8>) -> bool {
    exists|length: usize|
        #![trigger frame_len(length as nat)]
        frame.len() == frame_len(length as nat) && forall|rest: Seq<u8>|
            #![trigger prost_length_delimiter(frame + rest)]
            prost_length_delimiter(frame + rest) == Some(length) && varint_prefix_len(frame + rest) == varint_len(
                length as nat,
            )
}

/// `prost::Message::encode_length_delimited` into a vector: when the buffer
/// has room for it, appends the LEB128 varint of the message's encoded length
/// and then the message's encoding, which takes that many bytes; otherwise
/// it fails before writing anything. The message's bytes are not stated.
#[verifier::external_body]
pub(crate) fn encode_length_delimited<M: prost::Message>(message: &M, buffer: &mut Vec<u8>) -> (result: Result<(), prost::EncodeError>)
    ensures
        result is Err ==> final(buffer)@ == old(buffer)@,
        result is Ok ==> final(buffer)@.len() >= old(buffer)@.len() && final(buffer)@.subrange(
            0,
            old(buffer)@.len() as int,
        ) == old(buffer)@ && delimited_frame(
            final(buffer)@.subrange(old(buffer)@.len() as int, final(buffer)@.len() as int),
        ),
{
    message.encode_length_delimited(buffer)
}

/// Decide, from the delimiter read at the front of a buffer of `available`
/// bytes, whether a whole frame is there.
///
/// With no readable delimiter the decoder asks for up to 10 bytes, the
/// longest a delimiter can be. With a delimiter, it asks for the whole frame
/// (delimiter and message) until that many bytes are available; a frame too
/// long to count asks for `usize::MAX` bytes, which no connection accepts.
pub fn check_frame(available: usize, delimiter: Option<usize>) -> (result: Result<usize, DeserializeError>)
    ensures
        match delimiter {
            None => result == Err::<usize, DeserializeError>(DeserializeError::IncompleteBuffer { next_message_size: 10 }),
            Some(length) => if frame_len(length as nat) > usize::MAX {
                result == Err::<usize, DeserializeError>(DeserializeError::IncompleteBuffer { next_message_size: usize::MAX })
            } else if available < frame_len(length as nat) {
                result == Err::<usize, DeserializeError>(DeserializeError::IncompleteBuffer { next_message_size: frame_len(length as nat) as usize })
            } else {
                result == Ok::<usize, DeserializeError>(frame_len(length as nat) as usize)
            },
        },
{
    match delimiter {
        None => Err(DeserializeError::IncompleteBuffer { next_message_size: 10 }),
        Some(length) => {
            let delimiter_len = length_delimiter_len(length);
            if length > usize::MAX - delimiter_len {
                return Err(DeserializeError::IncompleteBuffer { next_message_size: usize::MAX });
            }
            let frame = length + delimiter_len;
            if available < frame {
                Err(DeserializeError::IncompleteBuffer { next_message_size: frame })
            } else {
                Ok(frame)
            }
        },
    }
}

/// What decoding the front of `buffer` must give, as far as it is fixed by
/// the delimiter: `None` when a whole frame is there and the message decides.
pub open spec fn frame_outcome(buffer: Seq<u8>) -> Option<DeserializeError> {
    match prost_length_delimiter(buffer) {
        None => Some(DeserializeError::IncompleteBuffer { next_message_size: 10 }),
        Some(length) => if frame_len(length as nat) > usize::MAX {
            Some(DeserializeError::IncompleteBuffer { next_message_size: usize::MAX })
        } else if buffer.len() < frame_len(length as nat) {
            Some(DeserializeError::IncompleteBuffer { next_message_size: frame_len(length as nat) as usize })
        } else {
            None
        },
    }
}

/// A stateless serializer that writes `prost` messages length-delimited.
pub struct ProstSerializer<Message> {
    _phantom: PhantomData<Message>,
    frames: Ghost<Seq<Option<Seq<u8>>>>,
}

impl<Message> ProstSerializer<Message> {
    /// What prost wrote at each call, in order: the frame it appended, or
    /// `None` when it reported that the buffer had no room.
    pub closed spec fn frames_written(&self) -> Seq<Option<Seq<u8>>> {
        self.frames@
    }

    /// A new serializer.
    pub fn new() -> (serializer: Self)
        ensures
            serializer.frames_written() == Seq::<Option<Seq<u8>>>::empty(),
    {
        ProstSerializer { _phantom: PhantomData, frames: Ghost(Seq::empty()) }
    }

    /// Append `message` to `buffer` as one frame, behind its varint length.
    /// The bytes already in `buffer` are kept. Only a buffer without room for
    /// the frame (past `isize::MAX` bytes) is left as it was.
    pub fn serialize_into_buffer(&mut self, message: Message, buffer: &mut Vec<u8>)
        where Message: prost::Message,
        ensures
            final(buffer)@.len() >= old(buffer)@.len(),
            final(buffer)@.subrange(0, old(buffer)@.len() as int) == old(buffer)@,
            final(buffer)@ == old(buffer)@ || delimited_frame(
                final(buffer)@.subrange(old(buffer)@.len() as int, final(buffer)@.len() as int),
            ),
            final(self).frames_written().len() == old(self).frames_written().len() + 1,
            final(self).frames_written().subrange(0, old(self).frames_written().len() as int) == old(
                self).frames_written(),
            match final(self).frames_written().last() {
                Some(frame) => delimited_frame(frame) && final(buffer)@ == old(buffer)@ + frame,
                None => final(buffer)@ == old(buffer)@,
            },
    {
        let ghost before = buffer@;
        let (written, Ghost(after)) = (encode_length_delimited(&message, buffer), Ghost(buffer@));
        proof {
            let frame = match written {
                Ok(()) => Some(after.subrange(before.len() as int, after.len() as int)),
                Err(_) => None,
            };
            self.frames@ = self.frames@.push(frame);
            if frame is Some {
                assert(after =~= before + frame->Some_0);
            }
        }
    }
}

/// Whatever follows a frame as the serializer writes it, the decoder finds
/// the whole frame there, and a message decoded from it takes exactly the
/// frame's bytes: the delimiter and the message it announces.
pub proof fn lemma_frame_round_trip(frame: Seq<u8>, rest: Seq<u8>)
    requires
        delimited_frame(frame),
        frame.len() + rest.len() <= usize::MAX,
    ensures
        frame_outcome(frame + rest) is None,
        prost_length_delimiter(frame + rest) matches Some(length) && varint_prefix_len(frame + rest) + length
            == frame.len(),
{
    let length = choose|length: usize|
        #![trigger frame_len(length as nat)]
        frame.len() == frame_len(length as nat) && forall|rest: Seq<u8>|
            #![trigger prost_length_delimiter(frame + rest)]
            prost_length_delimiter(frame + rest) == Some(length) && varint_prefix_len(frame + rest) == varint_len(
                length as nat,
            );
    assert(prost_length_delimiter(frame + rest) == Some(length));
    assert((frame + rest).len() == frame.len() + rest.len());
}

impl<Message> Default for ProstSerializer<Message> {
    fn default() -> Self {
        Self::new()
    }
}

/// A stateless decoder of length-delimited `prost` messages.
pub struct ProstDecoder<Message> {
    _phantom: PhantomData<Message>,
    answers: Ghost<Seq<(Seq<u8>, bool)>>,
}

impl<Message> ProstDecoder<Message> {
    /// Every whole frame handed to prost's `decode_length_delimited`, in
    /// order, with whether prost decoded a message from it.
    pub closed spec fn prost_answers(&self) -> Seq<(Seq<u8>, bool)> {
        self.answers@
    }

    /// A new decoder.
    pub fn new() -> (decoder: Self)
        ensures
            decoder.prost_answers() == Seq::<(Seq<u8>, bool)>::empty(),
    {
        ProstDecoder { _phantom: PhantomData, answers: Ghost(Seq::empty()) }
    }

    /// Decode one length-delimited message from the front of `buffer`.
    ///
    /// Until a whole frame is there the decoder asks for more bytes (see
    /// [`check_frame`]); a frame whose message does not decode is
    /// `InvalidBuffer`. A decoded message reports how many bytes it took:
    /// its delimiter and the length that delimiter announces.
    pub fn decode(&mut self, buffer: &[u8]) -> (result: Result<(usize, Message), DeserializeError>)
        where Message: prost::Message + Default,
        ensures
            match frame_outcome(buffer@) {
                Some(error) => result == Err::<(usize, Message), DeserializeError>(error),
                None => match result {
                    Ok((length, _)) => prost_length_delimiter(buffer@) matches Some(announced)
                        && length == varint_prefix_len(buffer@) + announced
                        && length <= buffer@.len(),
                    Err(error) => error == DeserializeError::InvalidBuffer,
                },
            },
            frame_outcome(buffer@) is Some ==> final(self).prost_answers() == old(self).prost_answers(),
            frame_outcome(buffer@) is None ==> final(self).prost_answers() == old(self).prost_answers().push(
                (buffer@, result is Ok),
            ),
    {
        let delimiter = match decode_length_delimiter(buffer) {
            Ok(length) => Some(length),
            Err(_) => None,
        };
        if let Err(error) = check_frame(buffer.len(), delimiter) {
            return Err(error);
        }
        let decoded = decode_length_delimited::<Message>(buffer);
        proof {
            self.answers@ = self.answers@.push((buffer@, decoded is Ok));
        }
        match decoded {
            Ok((message, rest)) => Ok((buffer.len() - rest.len(), message)),
            Err(_) => Err(DeserializeError::InvalidBuffer),
        }
    }
}

impl<Message> Default for ProstDecoder<Message> {
    fn default() -> Self {
        Self::new()
    }
}

} // verus!
