//! The error value every fallible operation returns: a stable machine code
//! and a message meant for the person using the app.
use vstd::prelude::*;

use crate::text::owned;

verus! {

#[derive(Clone, Debug)]
pub struct AppError {
    pub code: String,
    pub message: String,
}

pub type AppResult<T> = Result<T, AppError>;

impl AppError {
    pub fn new(code: &str, message: &str) -> (e: AppError)
        ensures
            e.code@ == code@,
            e.message@ == message@,
    {
        AppError { code: owned(code), message: owned(message) }
    }

    /// An error whose message was computed.
    pub fn with_message(code: &str, message: String) -> (e: AppError)
        ensures
            e.code@ == code@,
            e.message@ == message@,
    {
        AppError { code: owned(code), message }
    }

    /// A field-by-field copy.
    pub fn duplicate(&self) -> (e: AppError)
        ensures
            e.code@ == self.code@,
            e.message@ == self.message@,
    {
        AppError { code: self.code.clone(), message: self.message.clone() }
    }
}

/// The error of a session operation that the session's state does not allow.
pub fn invalid_status(message: &str) -> (e: AppError)
    ensures
        e.code@ == "invalid_session_status"@,
        e.message@ == message@,
{
    AppError::new("invalid_session_status", message)
}

} // verus!
