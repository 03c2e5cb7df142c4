//! A protocol-buffer request/response socket for the readiness-driven
//! server: each connection clones the server state, decodes length-delimited
//! requests, and executes each into a future of its response.

use vstd::prelude::*;

use core::marker::PhantomData;

use crate::legacy_server::DeserializeError;
use crate::prost_codec::{decode_length_delimited, decode_length_delimiter, delimited_frame, encode_length_delimited};

verus! {

/// Turns a request into the future of its response.
pub trait MessageExecutor<Message, MessageFuture> {
    /// Whether this executor keeps `executed()` as `execute` says. An
    /// executor that keeps no such record says nothing (the default), and
    /// nothing is then claimed of what it executed.
    open spec fn obeys_executed() -> bool {
        false
    }

    /// Every message this executor has started, when it keeps the record,
    /// with the future it answered, in order.
    open spec fn executed(&self) -> Seq<(Message, MessageFuture)> {
        Seq::empty()
    }

    /// Start executing `message`. The message and the future are added to
    /// `executed()`.
    fn execute(&mut self, message: Message) -> (future: MessageFuture)
        ensures
            Self::obeys_executed() ==> final(self).executed() == old(self).executed().push((message, future)),
    ;
}

/// One connection's handle on the server state.
pub struct ProtocolBufferSocket<State, Request, Response, MessageFuture> {
    server_state: State,
    _phantom: PhantomData<(Request, Response, MessageFuture)>,
}

/// A serializer of responses and deserializer of requests, both
/// length-delimited protocol buffers.
pub struct ProstSerializer<Request, Response> {
    _phantom: PhantomData<(Request, Response)>,
}

impl<State, Request, Response, MessageFuture> ProtocolBufferSocket<State, Request, Response, MessageFuture> {
    /// The connection's copy of the server state.
    pub closed spec fn state(&self) -> State {
        self.server_state
    }

    /// Access the handle for server state.
    pub fn server_state(&mut self) -> (state: &mut State)
        ensures
            *state == old(self).state(),
            final(self).state() == *final(state),
    {
        &mut self.server_state
    }

    /// A new connection: its own copy of the server state, and a serializer
    /// and deserializer.
    pub fn on_connect(server_state: &State) -> (parts: (Self, ProstSerializer<Request, Response>, ProstSerializer<Request, Response>))
        where State: Clone,
        ensures
            cloned::<State>(*server_state, parts.0.state()),
    {
        (
            ProtocolBufferSocket { server_state: server_state.clone(), _phantom: PhantomData },
            ProstSerializer { _phantom: PhantomData },
            ProstSerializer { _phantom: PhantomData },
        )
    }

    /// Execute a request against the server state: the state's executor is
    /// handed `message`, and its future is returned.
    pub fn on_message(&mut self, message: Request) -> (future: MessageFuture)
        where State: MessageExecutor<Request, MessageFuture>,
        ensures
            State::obeys_executed() ==> final(self).state().executed() == old(self).state().executed().push(
                (message, future),
            ),
    {
        self.server_state.execute(message)
    }
}

impl<Request, Response> ProstSerializer<Request, Response> {
    /// Append `response` to `buffer` as one frame, behind its varint length.
    /// Only a buffer without room for the frame (past `isize::MAX` bytes) is
    /// left as it was.
    pub fn encode(&mut self, response: Response, buffer: &mut Vec<u8>)
        where Response: prost::Message,
        ensures
            final(buffer)@.len() >= old(buffer)@.len(),
            final(buffer)@.subrange(0, old(buffer)@.len() as int) == old(buffer)@,
            final(buffer)@ == old(buffer)@ || delimited_frame(
                final(buffer)@.subrange(old(buffer)@.len() as int, final(buffer)@.len() as int),
            ),
    {
        let _ = encode_length_delimited(&response, buffer);
    }

    /// Decode a length-delimited request from the front of `buffer`. A
    /// buffer whose delimiter or message does not decode is
    /// `InvalidMessage`. A decoded request reports how many bytes it took:
    /// its delimiter and the length that delimiter announces.
    pub fn decode(&mut self, buffer: &[u8]) -> (result: Result<(usize, Request), DeserializeError>)
        where Request: prost::Message + Default,
        ensures
            result matches Ok((length, _)) ==> crate::prost_codec::prost_length_delimiter(buffer@) matches Some(
                announced,
            ) && length == crate::prost_codec::varint_prefix_len(buffer@) + announced && length <= buffer@.len(),
            result matches Err(e) ==> e == DeserializeError::InvalidMessage,
            crate::prost_codec::prost_length_delimiter(buffer@) is None ==> result is Err,
    {
        match decode_length_delimiter(buffer) {
            Ok(_) => match decode_length_delimited::<Request>(buffer) {
                Ok((message, rest)) => Ok((buffer.len() - rest.len(), message)),
                Err(_) => Err(DeserializeError::InvalidMessage),
            },
            Err(_) => Err(DeserializeError::InvalidMessage),
        }
    }
}

} // verus!
