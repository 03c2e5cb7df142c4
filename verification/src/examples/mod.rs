//! The message types of the example services: an echo rpc in several
//! encodings, with the id and control code bookkeeping each message type
//! gives the rpc layer.

pub mod messagepack;
pub mod proto;
pub mod spawn;
pub mod spawn_stream;
