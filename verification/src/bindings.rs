//! Type-level bundles naming the request, response, reactor and stream
//! types of a protocol-buffer connection, and the client connector that
//! uses a TCP stream as it is.

use vstd::prelude::*;

use core::marker::PhantomData;

verus! {

/// The types of a server-side protocol-buffer connection: it decodes
/// `Request`s and encodes `Response`s over a `Stream`.
pub struct ProstServerConnectionBindings<Request, Response, Reactor, Stream> {
    _phantom: PhantomData<(Request, Response, Reactor, Stream)>,
}

/// The types of a client-side protocol-buffer connection: it decodes
/// `Response`s and encodes `Request`s over a `Stream`.
pub struct ProstClientConnectionBindings<Request, Response, Reactor, Stream> {
    _phantom: PhantomData<(Request, Response, Reactor, Stream)>,
}

/// The request and response types of a protocol-buffer connection.
pub struct ProtocolBufferConnectionBindings<Request, Response> {
    _phantom: PhantomData<(Request, Response)>,
}

impl<Request, Response, Reactor, Stream> ProstServerConnectionBindings<Request, Response, Reactor, Stream> {
    /// The bundle.
    pub fn new() -> Self {
        ProstServerConnectionBindings { _phantom: PhantomData }
    }
}

impl<Request, Response, Reactor, Stream> ProstClientConnectionBindings<Request, Response, Reactor, Stream> {
    /// The bundle.
    pub fn new() -> Self {
        ProstClientConnectionBindings { _phantom: PhantomData }
    }
}

impl<Request, Response> ProtocolBufferConnectionBindings<Request, Response> {
    /// The bundle.
    pub fn new() -> Self {
        ProtocolBufferConnectionBindings { _phantom: PhantomData }
    }
}

/// A client stream connector that uses the TCP stream as it is.
#[derive(Debug, Clone, Copy, Default, PartialEq, Eq)]
pub struct TcpConnector;

} // verus!
