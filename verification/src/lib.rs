//! A message-oriented socket toolkit: wire framing, receive and send buffer
//! bookkeeping, and the bootstrap and framing logic of a libfabric transport,
//! each stated and proved with Verus.

pub mod bindings;
pub mod client;
pub mod codec;
pub mod control;
pub mod efa;
pub mod examples;
pub mod io_errors;
pub mod legacy_prost;
pub mod legacy_server;
pub mod level;
pub mod listener;
pub mod messagepack;
pub mod pooled;
pub mod prost_codec;
pub mod prost_error;
pub mod receive;
pub mod send;
pub mod text;
