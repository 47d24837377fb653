use vstd::prelude::*;

use crate::text::join3;

verus! {

#[verifier::external_type_specification]
#[verifier::external_body]
pub struct ExIoError(std::io::Error);

#[derive(Copy, Clone, PartialEq, Eq, Structural, Debug)]
pub enum ErrorType {
    INTERNAL,
    IO,
}

/// An error of the game: an internal one carrying a message, or an I/O error.
#[derive(Debug)]
pub struct ErrorWrapper {
    pub message: Option<String>,
    pub io_error: Option<std::io::Error>,
    pub error_type: ErrorType,
}

impl ErrorWrapper {
    /// An internal error carrying `message`.
    pub fn new_internal(message: String) -> (e: ErrorWrapper)
        ensures
            e.error_type == ErrorType::INTERNAL,
            e.message matches Some(m) && m@ == message@,
            e.io_error is None,
    {
        ErrorWrapper { message: Some(message), io_error: None, error_type: ErrorType::INTERNAL }
    }

    /// A failed result carrying an internal error with `message`.
    pub fn internal_result<T>(message: String) -> (r: Result<T, ErrorWrapper>)
        ensures
            r matches Err(e) && e.error_type == ErrorType::INTERNAL && e.io_error is None
                && (e.message matches Some(m) && m@ == message@),
    {
        Err(ErrorWrapper::new_internal(message))
    }

    /// An I/O error wrapped as a game error.
    pub fn from_io_error(io_error: std::io::Error) -> (e: ErrorWrapper)
        ensures
            e.error_type == ErrorType::IO,
            e.message is None,
            e.io_error == Some(io_error),
    {
        ErrorWrapper { message: None, io_error: Some(io_error), error_type: ErrorType::IO }
    }

    /// A failed result carrying the given I/O error.
    pub fn io_error_result<T>(error: std::io::Error) -> (r: Result<T, ErrorWrapper>)
        ensures
            r matches Err(e) && e.error_type == ErrorType::IO && e.message is None && e.io_error == Some(error),
    {
        Err(ErrorWrapper::from_io_error(error))
    }

    /// The message of an internal error.
    pub fn get_message(&self) -> (r: Option<String>)
        ensures
            match r {
                Some(m) => self.message matches Some(s) && m@ == s@,
                None => self.message is None,
            },
    {
        match &self.message {
            Some(m) => Some(m.clone()),
            None => None,
        }
    }
}

/// A failed result carrying an internal error with `message`.
pub fn error_result<T>(message: String) -> (r: Result<T, ErrorWrapper>)
    ensures
        r matches Err(e) && e.error_type == ErrorType::INTERNAL && e.io_error is None
            && (e.message matches Some(m) && m@ == message@),
{
    Err(ErrorWrapper::new_internal(message))
}

/// An internal error whose message is `prefix`, then `subject`, then `suffix`.
pub fn error_with(prefix: &str, subject: &str, suffix: &str) -> (e: ErrorWrapper)
    ensures
        e.error_type == ErrorType::INTERNAL,
        e.message matches Some(m) && m@ == prefix@ + subject@ + suffix@,
        e.io_error is None,
{
    ErrorWrapper::new_internal(join3(prefix, subject, suffix))
}

} // verus!
