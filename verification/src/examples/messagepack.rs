//! Echo messages for MessagePack: a control code, a response behavior, and a response that is either a unary echo or one element of a stream.

use vstd::prelude::*;

use crate::control::{control_code_of, ProtosocketControlCode};

verus! {

/// An echo request.
#[derive(Clone, Debug, PartialEq, Eq)]
pub struct Request {
    /// The rpc id.
    pub request_id: u64,
    /// The control code number.
    pub code: u32,
    /// The echo payload.
    pub body: Option<EchoRequest>,
    /// How to answer.
    pub response_behavior: ResponseBehavior,
}

/// The payload of an echo request.
#[derive(Clone, Debug, PartialEq, Eq)]
pub struct EchoRequest {
    /// Text to echo.
    pub message: String,
    /// The sender's clock, in nanoseconds.
    pub nanotime: u64,
}

/// One element of a streamed echo.
#[derive(Clone, Debug, PartialEq, Eq)]
pub struct EchoStream {
    /// The echoed piece of text.
    pub message: String,
    /// The request's clock, in nanoseconds.
    pub nanotime: u64,
    /// The position of this piece in the stream.
    pub sequence: u64,
}

/// How the server answers a request.
#[derive(Clone, Copy, Debug, PartialEq, Eq, Hash, PartialOrd, Ord)]
pub enum ResponseBehavior {
    /// One response.
    Unary,
    /// A stream of responses.
    Stream,
}

impl ResponseBehavior {
    /// The wire number of this behavior.
    pub fn as_i32(self) -> (value: i32)
        ensures
            value == (if self == ResponseBehavior::Unary { 0i32 } else { 1i32 }),
    {
        match self {
            ResponseBehavior::Unary => 0,
            ResponseBehavior::Stream => 1,
        }
    }
}

/// An echo response.
#[derive(Clone, Debug, PartialEq, Eq)]
pub struct Response {
    /// The rpc id.
    pub request_id: u64,
    /// The control code number.
    pub code: u32,
    /// What the response carries.
    pub kind: Option<EchoResponseKind>,
}

/// An echo response payload.
#[derive(Clone, Debug, PartialEq, Eq)]
pub struct EchoResponse {
    /// The echoed text.
    pub message: String,
    /// The request's clock, in nanoseconds.
    pub nanotime: u64,
}

/// What a response carries.
#[derive(Clone, Debug, PartialEq, Eq)]
pub enum EchoResponseKind {
    /// A unary echo.
    Echo(EchoResponse),
    /// One element of a streamed echo.
    Stream(EchoStream),
}

impl Request {
    /// The rpc id.
    pub fn message_id(&self) -> (id: u64)
        ensures
            id == self.request_id,
    {
        self.request_id
    }

    /// The control code carried in `code` (its low byte, as a `u8` cast takes it).
    pub fn control_code(&self) -> (code: ProtosocketControlCode)
        ensures
            code == control_code_of((self.code % 256) as u8),
    {
        ProtosocketControlCode::from_u8((self.code % 256) as u8)
    }

    /// A cancellation of rpc `request_id`, with nothing else.
    pub fn cancelled(request_id: u64) -> (request: Self)
        ensures
            request.request_id == request_id,
            request.code == 1,
            request.body is None,
            request.response_behavior == ResponseBehavior::Unary,
    {
        Request { request_id, code: ProtosocketControlCode::Cancel.as_u8() as u32, body: None, response_behavior: ResponseBehavior::Unary }
    }

    /// Set the rpc id.
    pub fn set_message_id(&mut self, message_id: u64)
        ensures
            final(self).request_id == message_id,
            final(self).code == old(self).code,
            final(self).body == old(self).body,
    {
        self.request_id = message_id;
    }

    /// The end of rpc `request_id`'s stream, with nothing else.
    pub fn ended(request_id: u64) -> (request: Self)
        ensures
            request.request_id == request_id,
            request.code == 2,
            request.body is None,
            request.response_behavior == ResponseBehavior::Unary,
    {
        Request { request_id, code: ProtosocketControlCode::End.as_u8() as u32, body: None, response_behavior: ResponseBehavior::Unary }
    }
}

impl Response {
    /// The rpc id.
    pub fn message_id(&self) -> (id: u64)
        ensures
            id == self.request_id,
    {
        self.request_id
    }

    /// The control code carried in `code` (its low byte, as a `u8` cast takes it).
    pub fn control_code(&self) -> (code: ProtosocketControlCode)
        ensures
            code == control_code_of((self.code % 256) as u8),
    {
        ProtosocketControlCode::from_u8((self.code % 256) as u8)
    }

    /// A cancellation of rpc `request_id`, with nothing else.
    pub fn cancelled(request_id: u64) -> (response: Self)
        ensures
            response.request_id == request_id,
            response.code == 1,
            response.kind is None,
    {
        Response { request_id, code: ProtosocketControlCode::Cancel.as_u8() as u32, kind: None }
    }

    /// Set the rpc id.
    pub fn set_message_id(&mut self, message_id: u64)
        ensures
            final(self).request_id == message_id,
            final(self).code == old(self).code,
            final(self).kind == old(self).kind,
    {
        self.request_id = message_id;
    }

    /// The end of rpc `request_id`'s stream, with nothing else.
    pub fn ended(request_id: u64) -> (response: Self)
        ensures
            response.request_id == request_id,
            response.code == 2,
            response.kind is None,
    {
        Response { request_id, code: ProtosocketControlCode::End.as_u8() as u32, kind: None }
    }
}

/// The unary response echoing `echo` for rpc `request_id`.
pub fn echo_request(request_id: u64, echo: EchoRequest) -> (response: Response)
    ensures
        response.request_id == request_id,
        response.code == 0,
        response.kind == Some(EchoResponseKind::Echo(EchoResponse { message: echo.message, nanotime: echo.nanotime })),
{
    Response {
        request_id,
        code: ProtosocketControlCode::Normal.as_u8() as u32,
        kind: Some(EchoResponseKind::Echo(EchoResponse { message: echo.message, nanotime: echo.nanotime })),
    }
}

} // verus!
