//! The error type of protocol-buffer clients.

use vstd::prelude::*;

use std::sync::Arc;

verus! {

#[verifier::external_type_specification]
#[verifier::external_body]
pub struct ExAddrParseError(core::net::AddrParseError);

/// `Clone` of an address parse error. What the clone holds is not stated.
pub assume_specification[ <core::net::AddrParseError as Clone>::clone ](error: &core::net::AddrParseError) -> core::net::AddrParseError;

/// Why a protocol-buffer client operation failed.
#[derive(Clone, Debug)]
pub enum Error {
    /// A standard I/O failure.
    IoFailure(Arc<std::io::Error>),
    /// An address that does not parse.
    AddressError(core::net::AddrParseError),
    /// Something the connection needed is gone.
    Dead(&'static str),
}

/// Result type of protocol-buffer client operations.
pub type Result<T> = core::result::Result<T, Error>;

impl Error {
    /// The error for an I/O failure.
    pub fn io_failure(error: Arc<std::io::Error>) -> (e: Error)
        ensures
            e == Error::IoFailure(error),
    {
        Error::IoFailure(error)
    }

    /// The error for an address that does not parse.
    pub fn address_error(error: core::net::AddrParseError) -> (e: Error)
        ensures
            e == Error::AddressError(error),
    {
        Error::AddressError(error)
    }
}

} // verus!
