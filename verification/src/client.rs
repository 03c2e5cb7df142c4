//! The buffer settings a client registry gives the connections it creates.

use vstd::prelude::*;

verus! {

/// The default most bytes a client connection buffers for reading (4 MiB).
pub const DEFAULT_MAX_BUFFER_LENGTH: usize = 4194304;
/// The default step by which a client connection's read buffer grows (1 MiB).
pub const DEFAULT_BUFFER_ALLOCATION_INCREMENT: usize = 1048576;
/// The default most encoded messages a client connection queues (256).
pub const DEFAULT_MAX_QUEUED_OUTBOUND_MESSAGES: usize = 256;

/// Settings applied to each client connection created after they are set.
#[derive(Debug, Clone, Copy, PartialEq, Eq, Structural)]
pub struct ClientSettings {
    /// The most bytes a connection buffers for reading.
    pub max_buffer_length: usize,
    /// The step by which a connection's read buffer grows.
    pub buffer_allocation_increment: usize,
    /// The most encoded messages a connection queues for writing.
    pub max_queued_outbound_messages: usize,
}

impl ClientSettings {
    /// The defaults: a 4 MiB read buffer grown 1 MiB at a time, and 256
    /// queued messages.
    pub fn new() -> (settings: Self)
        ensures
            settings == (ClientSettings {
                max_buffer_length: DEFAULT_MAX_BUFFER_LENGTH,
                buffer_allocation_increment: DEFAULT_BUFFER_ALLOCATION_INCREMENT,
                max_queued_outbound_messages: DEFAULT_MAX_QUEUED_OUTBOUND_MESSAGES,
            }),
    {
        ClientSettings {
            max_buffer_length: DEFAULT_MAX_BUFFER_LENGTH,
            buffer_allocation_increment: DEFAULT_BUFFER_ALLOCATION_INCREMENT,
            max_queued_outbound_messages: DEFAULT_MAX_QUEUED_OUTBOUND_MESSAGES,
        }
    }

    /// Set the most bytes a connection buffers for reading.
    pub fn set_max_read_buffer_length(&mut self, max_buffer_length: usize)
        ensures
            *final(self) == (ClientSettings { max_buffer_length, ..*old(self) }),
    {
        self.max_buffer_length = max_buffer_length;
    }

    /// Set the most encoded messages a connection queues for writing.
    pub fn set_max_queued_outbound_messages(&mut self, max_queued_outbound_messages: usize)
        ensures
            *final(self) == (ClientSettings { max_queued_outbound_messages, ..*old(self) }),
    {
        self.max_queued_outbound_messages = max_queued_outbound_messages;
    }
}

} // verus!
