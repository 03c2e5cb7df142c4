//! Echo messages in which a missing body means cancellation.

use vstd::prelude::*;

use crate::control::ProtosocketControlCode;

verus! {

/// An echo request.
#[derive(Clone, Debug, PartialEq, Eq)]
pub struct Request {
    /// The rpc id.
    pub request_id: u64,
    /// The echo payload; none cancels the rpc.
    pub body: Option<EchoRequest>,
}

/// The payload of an echo request.
#[derive(Clone, Debug, PartialEq, Eq)]
pub struct EchoRequest {
    /// Text to echo.
    pub message: String,
    /// The sender's clock, in nanoseconds.
    pub nanotime: u64,
}

/// An echo response.
#[derive(Clone, Debug, PartialEq, Eq)]
pub struct Response {
    /// The rpc id.
    pub request_id: u64,
    /// The echoed payload; none cancels the rpc.
    pub body: Option<EchoResponse>,
}

/// The payload of an echo response.
#[derive(Clone, Debug, PartialEq, Eq)]
pub struct EchoResponse {
    /// The echoed text.
    pub message: String,
    /// The request's clock, in nanoseconds.
    pub nanotime: u64,
}

impl Request {
    /// The rpc id.
    pub fn message_id(&self) -> (id: u64)
        ensures
            id == self.request_id,
    {
        self.request_id
    }

    /// `Normal` with a body, `Cancel` without one.
    pub fn control_code(&self) -> (code: ProtosocketControlCode)
        ensures
            code == if self.body is Some { ProtosocketControlCode::Normal } else { ProtosocketControlCode::Cancel },
    {
        match self.body {
            Some(_) => ProtosocketControlCode::Normal,
            None => ProtosocketControlCode::Cancel,
        }
    }

    /// A cancellation: id 0, no body.
    pub fn cancelled() -> (request: Self)
        ensures
            request.request_id == 0,
            request.body is None,
    {
        Request { request_id: 0, body: None }
    }

    /// Set the rpc id.
    pub fn set_message_id(&mut self, message_id: u64)
        ensures
            final(self).request_id == message_id,
            final(self).body == old(self).body,
    {
        self.request_id = message_id;
    }

    /// The end of a stream: id 0, no body.
    pub fn ended() -> (request: Self)
        ensures
            request.request_id == 0,
            request.body is None,
    {
        Request { request_id: 0, body: None }
    }
}

impl Response {
    /// The rpc id.
    pub fn message_id(&self) -> (id: u64)
        ensures
            id == self.request_id,
    {
        self.request_id
    }

    /// `Normal` with a body, `Cancel` without one.
    pub fn control_code(&self) -> (code: ProtosocketControlCode)
        ensures
            code == if self.body is Some { ProtosocketControlCode::Normal } else { ProtosocketControlCode::Cancel },
    {
        match self.body {
            Some(_) => ProtosocketControlCode::Normal,
            None => ProtosocketControlCode::Cancel,
        }
    }

    /// A cancellation: id 0, no body.
    pub fn cancelled() -> (response: Self)
        ensures
            response.request_id == 0,
            response.body is None,
    {
        Response { request_id: 0, body: None }
    }

    /// Set the rpc id.
    pub fn set_message_id(&mut self, message_id: u64)
        ensures
            final(self).request_id == message_id,
            final(self).body == old(self).body,
    {
        self.request_id = message_id;
    }

    /// The end of a stream: id 0, no body.
    pub fn ended() -> (response: Self)
        ensures
            response.request_id == 0,
            response.body is None,
    {
        Response { request_id: 0, body: None }
    }
}

/// The response echoing `request`: the same id, and the body's text and
/// clock copied over.
pub fn echo_response(request: Request) -> (response: Response)
    ensures
        response.request_id == request.request_id,
        match request.body {
            Some(body) => response.body matches Some(echo) && echo.message == body.message && echo.nanotime == body.nanotime,
            None => response.body is None,
        },
{
    Response {
        request_id: request.request_id,
        body: match request.body {
            Some(body) => Some(EchoResponse { message: body.message, nanotime: body.nanotime }),
            None => None,
        },
    }
}

} // verus!
