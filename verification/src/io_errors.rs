//! Classification of the I/O errors a non-blocking stream reports.

use vstd::prelude::*;

verus! {

#[verifier::external_type_specification]
pub struct ExErrorKind(std::io::ErrorKind);

/// `std::io::Error::kind`.
#[verifier::external_body]
fn error_kind(error: &std::io::Error) -> std::io::ErrorKind {
    error.kind()
}

/// Whether an error kind means the operation would have blocked: the stream
/// is not ready yet.
pub fn kind_would_block(kind: std::io::ErrorKind) -> (result: bool)
    ensures
        result == (kind == std::io::ErrorKind::WouldBlock),
{
    matches!(kind, std::io::ErrorKind::WouldBlock)
}

/// Whether an error kind means the operation was interrupted and can be
/// retried.
pub fn kind_interrupted(kind: std::io::ErrorKind) -> (result: bool)
    ensures
        result == (kind == std::io::ErrorKind::Interrupted),
{
    matches!(kind, std::io::ErrorKind::Interrupted)
}

/// Whether `error` means the operation would have blocked. The error's kind
/// comes from `io::Error::kind`, which follows the platform's mapping of
/// error codes, so the answer is not stated beyond `kind_would_block`.
pub fn would_block(error: &std::io::Error) -> bool {
    kind_would_block(error_kind(error))
}

/// Whether `error` means the operation was interrupted. The error's kind
/// comes from `io::Error::kind`, which follows the platform's mapping of
/// error codes, so the answer is not stated beyond `kind_interrupted`.
pub fn interrupted(error: &std::io::Error) -> bool {
    kind_interrupted(error_kind(error))
}

} // verus!
