//! The libfabric transport: provider selection, the TCP bootstrap handshake
//! that exchanges raw fabric addresses, the error type, and the byte-stream
//! framing that the completion driver carries over reliable datagrams.

pub mod bootstrap;
pub mod driver;
pub mod error;
pub mod provider;
pub mod stream;

pub use error::EfaError;
pub use provider::Provider;
