//! What a socket listener hands to a server, and the listen settings it
//! applies.

use vstd::prelude::*;

verus! {

/// The result of polling a listener for a connection.
pub enum SocketResult<T> {
    /// A new connection.
    Stream(T),
    /// The listener failed; the server should stop.
    Disconnect,
}

/// The listen backlog handed to the operating system: the requested backlog,
/// capped at `i32::MAX`.
pub fn listen_backlog(requested: u32) -> (backlog: i32)
    ensures
        backlog == vstd::math::min(requested as int, i32::MAX as int),
{
    if requested > 2147483647u32 {
        2147483647i32
    } else {
        requested as i32
    }
}

} // verus!
