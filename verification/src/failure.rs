//! I/O failures as the loops see them.

use vstd::prelude::*;

verus! {

#[verifier::external_type_specification]
#[verifier::external_body]
pub struct ExIoError(std::io::Error);

/// What a loop does about a failed operation depends on its class alone.
#[derive(Clone, Copy, Debug, PartialEq, Eq, Structural)]
pub enum ErrorClass {
    /// The operation would have had to wait: there is nothing more to do
    /// for this source until the poller reports it again.
    WouldBlock,
    /// The operation was interrupted before it did anything.
    Interrupted,
    /// Every other error.
    Other,
}

/// The class of an I/O error, as `std::io::Error::kind` reports it.
pub uninterp spec fn io_error_class(error: std::io::Error) -> ErrorClass;

/// `std::io::Error::kind`, telling `ErrorKind::WouldBlock` and
/// `ErrorKind::Interrupted` apart from all other kinds. The class is taken
/// to depend on the error value alone.
#[verifier::external_body]
fn error_class(error: &std::io::Error) -> (class: ErrorClass)
    ensures
        class == io_error_class(*error),
{
    match error.kind() {
        std::io::ErrorKind::WouldBlock => ErrorClass::WouldBlock,
        std::io::ErrorKind::Interrupted => ErrorClass::Interrupted,
        _ => ErrorClass::Other,
    }
}

/// A failed operation: the error the transport or the poller returned,
/// together with its class.
#[derive(Debug)]
pub struct Failure {
    pub class: ErrorClass,
    pub source: std::io::Error,
}

impl Failure {
    /// Classifies `error` and keeps it.
    pub fn classify(error: std::io::Error) -> (failure: Failure)
        ensures
            failure.source == error,
            failure.class == io_error_class(error),
    {
        let class = error_class(&error);
        Failure { class, source: error }
    }
}

/// Why a loop ended without completing its exchange.
#[derive(Debug)]
pub enum ExchangeError {
    /// The transport took fewer bytes than the payload holds and reported
    /// no error.
    ShortWrite,
    /// The transport claimed to have read more bytes than the span it was
    /// given can hold.
    Overrun,
    /// The poller or the transport failed; the error is handed on as it
    /// came.
    Io(std::io::Error),
}

} // verus!
