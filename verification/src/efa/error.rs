//! Error type for the libfabric-backed transport.

use vstd::prelude::*;

use super::provider::Provider;

verus! {

#[verifier::external_type_specification]
#[verifier::external_body]
pub struct ExIoError(std::io::Error);

/// Errors produced while setting up or operating a fabric.
#[derive(Debug)]
#[non_exhaustive]
pub enum EfaError {
    /// A libfabric call returned a negative error code. `call` is the name of
    /// the libfabric function and `message` is `fi_strerror`'s description.
    Libfabric {
        /// The libfabric function that failed (e.g. `"fi_getinfo"`).
        call: &'static str,
        /// The (positive) libfabric error code.
        code: i32,
        /// Human-readable description of `code`.
        message: String,
    },
    /// No fabric matched the requested provider on this host.
    ProviderUnavailable {
        /// The provider that was requested.
        provider: Provider,
    },
    /// The TCP side-channel handshake failed.
    Bootstrap(String),
    /// An underlying I/O error (TCP side-channel, etc.).
    Io(std::io::Error),
}

impl EfaError {
    /// Build an [`EfaError::Libfabric`] from a libfabric return value.
    ///
    /// libfabric returns `0` on success and a negative `-errno`-style code on
    /// failure; the stored `code` is the negated (positive) value, and
    /// `message` is the description of that code.
    pub fn libfabric(call: &'static str, ret: i32, message: String) -> (error: EfaError)
        requires
            ret > i32::MIN,
        ensures
            error == (EfaError::Libfabric { call, code: -ret as i32, message }),
    {
        EfaError::Libfabric { call, code: -ret, message }
    }
}

/// Split a libfabric return value into success and failure.
///
/// Returns `Ok(ret)` when `ret >= 0` (many libfabric calls return a count),
/// and otherwise `Err` with the positive error code `-ret`.
pub fn check(ret: i32) -> (result: Result<i32, i32>)
    requires
        ret > i32::MIN,
    ensures
        ret >= 0 ==> result == Ok::<i32, i32>(ret),
        ret < 0 ==> result == Err::<i32, i32>(-ret as i32),
{
    if ret >= 0 {
        Ok(ret)
    } else {
        Err(-ret)
    }
}

} // verus!
