//! The errors of a download run.

use vstd::prelude::*;
use vstd::std_specs::convert::FromSpecImpl;

verus! {

/// An I/O error of the standard library, carried through unread.
#[verifier::external_type_specification]
#[verifier::external_body]
pub struct ExIoError(std::io::Error);

/// Why a run failed.
#[derive(Debug)]
pub enum TaError {
    /// The file system or the transport failed.
    Io(std::io::Error),
    /// The request failed, or the body did not have the length it declared.
    DownloadFailed,
    /// The bytes received hash to the first text; the asset declares the second.
    HashMismatch(String, String),
    /// An expected hash is not 64 hexadecimal digits.
    BadHashFormat,
}

/// An error as plain values: the two texts of a mismatch by their characters.
pub enum TaErrorView {
    /// The file system or the transport failed.
    Io(std::io::Error),
    /// The request failed, or the body did not have the length it declared.
    DownloadFailed,
    /// The digest found, then the one declared.
    HashMismatch(Seq<char>, Seq<char>),
    /// An expected hash is not 64 hexadecimal digits.
    BadHashFormat,
}

impl View for TaError {
    type V = TaErrorView;

    open spec fn view(&self) -> TaErrorView {
        match *self {
            TaError::Io(err) => TaErrorView::Io(err),
            TaError::DownloadFailed => TaErrorView::DownloadFailed,
            TaError::HashMismatch(found, declared) => TaErrorView::HashMismatch(found@, declared@),
            TaError::BadHashFormat => TaErrorView::BadHashFormat,
        }
    }
}

impl From<std::io::Error> for TaError {
    fn from(err: std::io::Error) -> (e: Self) {
        Self::Io(err)
    }
}

impl FromSpecImpl<std::io::Error> for TaError {
    open spec fn obeys_from_spec() -> bool {
        true
    }

    open spec fn from_spec(err: std::io::Error) -> Self {
        TaError::Io(err)
    }
}

/// `std::io::Error::from` on `std::io::ErrorKind::InvalidData`: an I/O error
/// of the kind that says that what was read is malformed.
#[verifier::external_body]
pub(crate) fn invalid_data() -> (err: std::io::Error) {
    std::io::Error::from(std::io::ErrorKind::InvalidData)
}

} // verus!
