//! The errors a request can end in, the HTTP status each is answered with,
//! and the message shown to the user.

use vstd::prelude::*;
use crate::text::push_str;

verus! {

/// Why a request was refused or failed. Each variant carries the message for
/// the user; `Db` carries the storage error's own text, which is kept for the
/// log and never shown.
#[derive(Debug, Clone)]
pub enum AppError {
    Bad(String),
    Missing(String),
    Unauthorized(String),
    Internal(String),
    Db(String),
}

/// The kind of an error, without its text.
#[derive(Debug, Clone)]
pub enum ErrorKind {
    Bad,
    Missing,
    Unauthorized,
    Internal,
    Db,
}

/// What the user sees when storage fails.
pub const STORAGE_FAILURE: &'static str = "The queue could not be updated. Please try again.";

impl AppError {
    /// The kind of this error.
    pub open spec fn kind(&self) -> ErrorKind {
        match self {
            AppError::Bad(_) => ErrorKind::Bad,
            AppError::Missing(_) => ErrorKind::Missing,
            AppError::Unauthorized(_) => ErrorKind::Unauthorized,
            AppError::Internal(_) => ErrorKind::Internal,
            AppError::Db(_) => ErrorKind::Db,
        }
    }

    /// The text this error carries.
    pub open spec fn text(&self) -> Seq<char> {
        match self {
            AppError::Bad(m) => m@,
            AppError::Missing(m) => m@,
            AppError::Unauthorized(m) => m@,
            AppError::Internal(m) => m@,
            AppError::Db(m) => m@,
        }
    }

    /// This error is of kind `k` and carries the text `msg`.
    pub open spec fn is(&self, k: ErrorKind, msg: Seq<char>) -> bool {
        self.kind() == k && self.text() == msg
    }

    /// A refused request: the input was not acceptable.
    pub fn bad(message: &str) -> (e: Self)
        ensures
            e.is(ErrorKind::Bad, message@),
    {
        AppError::Bad(message.to_owned())
    }

    /// What was asked for does not exist (for this account).
    pub fn not_found(message: &str) -> (e: Self)
        ensures
            e.is(ErrorKind::Missing, message@),
    {
        AppError::Missing(message.to_owned())
    }

    /// The request carries no valid key.
    pub fn unauthorized(message: &str) -> (e: Self)
        ensures
            e.is(ErrorKind::Unauthorized, message@),
    {
        AppError::Unauthorized(message.to_owned())
    }

    /// Stored data could not be read or written.
    pub fn internal(message: &str) -> (e: Self)
        ensures
            e.is(ErrorKind::Internal, message@),
    {
        AppError::Internal(message.to_owned())
    }

    /// The HTTP status code the error is answered with.
    pub open spec fn spec_status_code(&self) -> u16 {
        match self {
            AppError::Bad(_) => 400,
            AppError::Missing(_) => 404,
            AppError::Unauthorized(_) => 401,
            AppError::Internal(_) => 500,
            AppError::Db(_) => 500,
        }
    }

    /// The HTTP status code: 400 for a refused input, 404 for something
    /// missing, 401 without a valid key, 500 when storage fails.
    pub fn status_code(&self) -> (code: u16)
        ensures
            code == self.spec_status_code(),
    {
        match self {
            AppError::Bad(_) => 400,
            AppError::Missing(_) => 404,
            AppError::Unauthorized(_) => 401,
            AppError::Internal(_) => 500,
            AppError::Db(_) => 500,
        }
    }

    /// The message shown to the user.
    pub open spec fn spec_public_message(&self) -> Seq<char> {
        match self {
            AppError::Db(_) => STORAGE_FAILURE@,
            _ => self.text(),
        }
    }

    /// The message shown to the user: the error's own message, except for a
    /// storage failure, whose details stay out of the answer.
    pub fn public_message(&self) -> (m: String)
        ensures
            m@ == self.spec_public_message(),
    {
        let mut out = String::new();
        match self {
            AppError::Bad(m) => push_str(&mut out, m.as_str()),
            AppError::Missing(m) => push_str(&mut out, m.as_str()),
            AppError::Unauthorized(m) => push_str(&mut out, m.as_str()),
            AppError::Internal(m) => push_str(&mut out, m.as_str()),
            AppError::Db(_) => push_str(&mut out, STORAGE_FAILURE),
        }
        out
    }
}

/// How each kind of error is answered, whatever its text: a refused input
/// with 400, something missing with 404, a missing or inactive key with
/// 401, each with its own message; unreadable data and storage failures
/// with 500, a storage failure always with the same fixed message, never
/// its own details.
pub proof fn lemma_error_answers(m: String)
    ensures
        AppError::Bad(m).spec_status_code() == 400 && AppError::Bad(m).spec_public_message() == m@,
        AppError::Missing(m).spec_status_code() == 404 && AppError::Missing(m).spec_public_message() == m@,
        AppError::Unauthorized(m).spec_status_code() == 401
            && AppError::Unauthorized(m).spec_public_message() == m@,
        AppError::Internal(m).spec_status_code() == 500 && AppError::Internal(m).spec_public_message() == m@,
        AppError::Db(m).spec_status_code() == 500
            && AppError::Db(m).spec_public_message() == "The queue could not be updated. Please try again."@,
{
}

} // verus!
