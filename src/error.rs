use vstd::prelude::*;

verus! {

#[verifier::external_type_specification]
#[verifier::external_body]
pub struct ExIoError(std::io::Error);

#[verifier::external_type_specification]
#[verifier::external_body]
pub struct ExUtf8Error(std::str::Utf8Error);

/// What can make a reversal fail.
#[derive(Debug)]
pub enum RevError {
    /// The program was invoked with arguments it cannot use.
    ArgumentError,
    /// The step that joins the finished artifacts reported failure.
    ChildProcessError,
    /// Reading, writing or a permission check failed.
    IOError(std::io::Error),
    /// The input is not UTF-8 text.
    EncodingError(std::str::Utf8Error),
}

pub type RevResult<T> = Result<T, RevError>;

impl From<std::io::Error> for RevError {
    fn from(err: std::io::Error) -> (r: RevError)
        ensures
            r == RevError::IOError(err),
    {
        RevError::IOError(err)
    }
}

impl vstd::std_specs::convert::FromSpecImpl<std::io::Error> for RevError {
    open spec fn obeys_from_spec() -> bool {
        true
    }

    open spec fn from_spec(v: std::io::Error) -> RevError {
        RevError::IOError(v)
    }
}

impl From<std::str::Utf8Error> for RevError {
    fn from(err: std::str::Utf8Error) -> (r: RevError)
        ensures
            r == RevError::EncodingError(err),
    {
        RevError::EncodingError(err)
    }
}

impl vstd::std_specs::convert::FromSpecImpl<std::str::Utf8Error> for RevError {
    open spec fn obeys_from_spec() -> bool {
        true
    }

    open spec fn from_spec(v: std::str::Utf8Error) -> RevError {
        RevError::EncodingError(v)
    }
}

/// Whether a byte sequence is well-formed UTF-8, as `std::str::from_utf8` decides it.
pub uninterp spec fn is_utf8(b: Seq<u8>) -> bool;

/// Relies on `std::str::from_utf8`: it succeeds exactly on well-formed UTF-8, and the
/// empty sequence is well-formed.
#[verifier::external_body]
pub(crate) fn validate_utf8(b: &[u8]) -> (r: Result<(), std::str::Utf8Error>)
    ensures
        r.is_ok() == is_utf8(b@),
        b@.len() == 0 ==> r.is_ok(),
{
    match std::str::from_utf8(b) {
        Ok(_) => Ok(()),
        Err(e) => Err(e),
    }
}

/// Relies on `std::io::Error::new`: builds the error of kind `PermissionDenied` that the
/// splicer returns when a file's mode lacks owner read and write.
#[verifier::external_body]
pub(crate) fn permission_denied() -> (e: std::io::Error) {
    std::io::Error::new(
        std::io::ErrorKind::PermissionDenied,
        "Must have user-level R/W permissions for this operation",
    )
}

} // verus!
