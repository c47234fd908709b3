//! Error kinds reported by the storage, the piece manager and the task
//! orchestrator.

use vstd::prelude::*;

verus! {

/// Status line and headers of an origin response that was not a success.
#[derive(Debug)]
pub struct HttpError {
    /// Numeric HTTP status code.
    pub status_code: u16,
    /// Response headers as name and value pairs, in the order received.
    pub header: Vec<(String, String)>,
}

/// What can go wrong while a task is downloaded.
#[derive(Debug)]
pub enum Error {
    /// A required argument is missing or out of range.
    InvalidParameter,
    /// The origin did not report a parsable content length.
    InvalidContentLength,
    /// No task is recorded under the given id.
    TaskNotFound(String),
    /// No piece is recorded under the given piece id.
    PieceNotFound(String),
    /// The bytes received for a piece do not hash to the expected digest.
    PieceDigestMismatch,
    /// The piece was still unfinished when the piece timeout expired.
    WaitForPieceFinishedTimeout(String),
    /// The origin answered with a status outside of 2xx.
    HTTP(HttpError),
    /// The scheduler sent a message without a recognized variant.
    UnexpectedResponse,
    /// A stored record would be contradicted by the requested change.
    InvariantViolation(String),
    /// Any other failure, described by a message.
    Unknown(String),
}

/// The kind of an error, without what it carries.
#[derive(Clone, Copy, Debug, PartialEq, Eq, Structural)]
pub enum ErrorKind {
    /// See `Error::InvalidParameter`.
    InvalidParameter,
    /// See `Error::InvalidContentLength`.
    InvalidContentLength,
    /// See `Error::TaskNotFound`.
    TaskNotFound,
    /// See `Error::PieceNotFound`.
    PieceNotFound,
    /// See `Error::PieceDigestMismatch`.
    PieceDigestMismatch,
    /// See `Error::WaitForPieceFinishedTimeout`.
    WaitForPieceFinishedTimeout,
    /// See `Error::HTTP`.
    HTTP,
    /// See `Error::UnexpectedResponse`.
    UnexpectedResponse,
    /// See `Error::InvariantViolation`.
    InvariantViolation,
    /// See `Error::Unknown`.
    Unknown,
}

impl ErrorKind {
    /// True for the kinds whose errors carry an id or a message.
    pub open spec fn has_text(self) -> bool {
        self == ErrorKind::TaskNotFound || self == ErrorKind::PieceNotFound || self
            == ErrorKind::WaitForPieceFinishedTimeout || self == ErrorKind::InvariantViolation
            || self == ErrorKind::Unknown
    }
}

impl Error {
    /// True when this error is of `kind` and, where the kind carries a text,
    /// carries `text`.
    pub open spec fn is_of(&self, kind: ErrorKind, text: Seq<char>) -> bool {
        self.spec_kind() == kind && (kind.has_text() ==> self.spec_text() == text)
    }

    /// The kind of this error.
    pub open spec fn spec_kind(&self) -> ErrorKind {
        match self {
            Error::InvalidParameter => ErrorKind::InvalidParameter,
            Error::InvalidContentLength => ErrorKind::InvalidContentLength,
            Error::TaskNotFound(_) => ErrorKind::TaskNotFound,
            Error::PieceNotFound(_) => ErrorKind::PieceNotFound,
            Error::PieceDigestMismatch => ErrorKind::PieceDigestMismatch,
            Error::WaitForPieceFinishedTimeout(_) => ErrorKind::WaitForPieceFinishedTimeout,
            Error::HTTP(_) => ErrorKind::HTTP,
            Error::UnexpectedResponse => ErrorKind::UnexpectedResponse,
            Error::InvariantViolation(_) => ErrorKind::InvariantViolation,
            Error::Unknown(_) => ErrorKind::Unknown,
        }
    }

    /// The id or message that this error carries; empty where it carries none.
    pub open spec fn spec_text(&self) -> Seq<char> {
        match self {
            Error::TaskNotFound(t) => t@,
            Error::PieceNotFound(t) => t@,
            Error::WaitForPieceFinishedTimeout(t) => t@,
            Error::InvariantViolation(t) => t@,
            Error::Unknown(t) => t@,
            _ => Seq::empty(),
        }
    }

    /// The kind of this error.
    #[verifier::when_used_as_spec(spec_kind)]
    pub fn kind(&self) -> (r: ErrorKind)
        ensures
            r == self.spec_kind(),
    {
        match self {
            Error::InvalidParameter => ErrorKind::InvalidParameter,
            Error::InvalidContentLength => ErrorKind::InvalidContentLength,
            Error::TaskNotFound(_) => ErrorKind::TaskNotFound,
            Error::PieceNotFound(_) => ErrorKind::PieceNotFound,
            Error::PieceDigestMismatch => ErrorKind::PieceDigestMismatch,
            Error::WaitForPieceFinishedTimeout(_) => ErrorKind::WaitForPieceFinishedTimeout,
            Error::HTTP(_) => ErrorKind::HTTP,
            Error::UnexpectedResponse => ErrorKind::UnexpectedResponse,
            Error::InvariantViolation(_) => ErrorKind::InvariantViolation,
            Error::Unknown(_) => ErrorKind::Unknown,
        }
    }
}

} // verus!
