//! Echo messages for a streaming rpc: every response carries one element of the stream.

use vstd::prelude::*;

use crate::control::{control_code_of, ProtosocketControlCode};

verus! {

/// An echo request.
#[derive(Clone, Debug, PartialEq, Eq)]
pub struct Request {
    /// The rpc id.
    pub request_id: u64,
    /// The control code number.
    pub code: u32,
    /// The echo payload.
    pub body: Option<EchoRequest>,
}

/// The payload of an echo request.
#[derive(Clone, Debug, PartialEq, Eq)]
pub struct EchoRequest {
    /// Text to echo.
    pub message: String,
    /// The sender's clock, in nanoseconds.
    pub nanotime: u64,
}

/// One element of a streamed echo.
#[derive(Clone, Debug, PartialEq, Eq)]
pub struct EchoStream {
    /// The echoed piece of text.
    pub message: String,
    /// The request's clock, in nanoseconds.
    pub nanotime: u64,
    /// The position of this piece in the stream.
    pub sequence: u64,
}

/// A streamed echo response.
#[derive(Clone, Debug, PartialEq, Eq)]
pub struct Response {
    /// The rpc id.
    pub request_id: u64,
    /// The control code number.
    pub code: u32,
    /// The stream element.
    pub body: Option<EchoStream>,
}

impl Request {
    /// The rpc id.
    pub fn message_id(&self) -> (id: u64)
        ensures
            id == self.request_id,
    {
        self.request_id
    }

    /// The control code carried in `code` (its low byte, as a `u8` cast takes it).
    pub fn control_code(&self) -> (code: ProtosocketControlCode)
        ensures
            code == control_code_of((self.code % 256) as u8),
    {
        ProtosocketControlCode::from_u8((self.code % 256) as u8)
    }

    /// A cancellation of rpc `request_id`, with nothing else.
    pub fn cancelled(request_id: u64) -> (request: Self)
        ensures
            request.request_id == request_id,
            request.code == 1,
            request.body is None,
    {
        Request { request_id, code: ProtosocketControlCode::Cancel.as_u8() as u32, body: None }
    }

    /// Set the rpc id.
    pub fn set_message_id(&mut self, message_id: u64)
        ensures
            final(self).request_id == message_id,
            final(self).code == old(self).code,
            final(self).body == old(self).body,
    {
        self.request_id = message_id;
    }

    /// The end of rpc `request_id`'s stream, with nothing else.
    pub fn ended(request_id: u64) -> (request: Self)
        ensures
            request.request_id == request_id,
            request.code == 2,
            request.body is None,
    {
        Request { request_id, code: ProtosocketControlCode::End.as_u8() as u32, body: None }
    }
}

impl Response {
    /// The rpc id.
    pub fn message_id(&self) -> (id: u64)
        ensures
            id == self.request_id,
    {
        self.request_id
    }

    /// The control code carried in `code` (its low byte, as a `u8` cast takes it).
    pub fn control_code(&self) -> (code: ProtosocketControlCode)
        ensures
            code == control_code_of((self.code % 256) as u8),
    {
        ProtosocketControlCode::from_u8((self.code % 256) as u8)
    }

    /// A cancellation of rpc `request_id`, with nothing else.
    pub fn cancelled(request_id: u64) -> (response: Self)
        ensures
            response.request_id == request_id,
            response.code == 1,
            response.body is None,
    {
        Response { request_id, code: ProtosocketControlCode::Cancel.as_u8() as u32, body: None }
    }

    /// Set the rpc id.
    pub fn set_message_id(&mut self, message_id: u64)
        ensures
            final(self).request_id == message_id,
            final(self).code == old(self).code,
            final(self).body == old(self).body,
    {
        self.request_id = message_id;
    }

    /// The end of rpc `request_id`'s stream, with nothing else.
    pub fn ended(request_id: u64) -> (response: Self)
        ensures
            response.request_id == request_id,
            response.code == 2,
            response.body is None,
    {
        Response { request_id, code: ProtosocketControlCode::End.as_u8() as u32, body: None }
    }
}

} // verus!
