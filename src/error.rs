//! Errors met when talking to the package manager.
use std::string::FromUtf8Error;
use vstd::prelude::*;

verus! {

#[verifier::external_type_specification]
#[verifier::external_body]
pub struct ExIoError(std::io::Error);

#[verifier::external_type_specification]
#[verifier::external_body]
pub struct ExFromUtf8Error(FromUtf8Error);

#[derive(Debug)]
pub enum AppError {
    /// Running a command failed.
    Command(std::io::Error),
    /// A command's output was not UTF-8.
    Utf8(FromUtf8Error),
    Other(String),
}

impl From<std::io::Error> for AppError {
    fn from(err: std::io::Error) -> (r: AppError)
        ensures
            r == AppError::Command(err),
    {
        AppError::Command(err)
    }
}

impl vstd::std_specs::convert::FromSpecImpl<std::io::Error> for AppError {
    open spec fn obeys_from_spec() -> bool {
        true
    }

    open spec fn from_spec(v: std::io::Error) -> AppError {
        AppError::Command(v)
    }
}

impl From<FromUtf8Error> for AppError {
    fn from(err: FromUtf8Error) -> (r: AppError)
        ensures
            r == AppError::Utf8(err),
    {
        AppError::Utf8(err)
    }
}

impl vstd::std_specs::convert::FromSpecImpl<FromUtf8Error> for AppError {
    open spec fn obeys_from_spec() -> bool {
        true
    }

    open spec fn from_spec(v: FromUtf8Error) -> AppError {
        AppError::Utf8(v)
    }
}

impl From<String> for AppError {
    fn from(err: String) -> (r: AppError)
        ensures
            r == AppError::Other(err),
    {
        AppError::Other(err)
    }
}

impl vstd::std_specs::convert::FromSpecImpl<String> for AppError {
    open spec fn obeys_from_spec() -> bool {
        true
    }

    open spec fn from_spec(v: String) -> AppError {
        AppError::Other(v)
    }
}

/// Relies on `io::Error`'s `Display`.
#[verifier::external_body]
fn io_text(e: &std::io::Error) -> String {
    e.to_string()
}

/// Relies on `FromUtf8Error`'s `Display`.
#[verifier::external_body]
fn utf8_text(e: &FromUtf8Error) -> String {
    e.to_string()
}

impl AppError {
    /// The message shown to the user: a prefix naming the kind of error,
    /// then the underlying error's text.
    pub fn message(&self) -> (r: String)
        ensures
            self is Other ==> r@ == "Error: "@ + self->Other_0@,
    {
        match self {
            AppError::Command(e) => String::from_str("Command Error: ").concat(io_text(e).as_str()),
            AppError::Utf8(e) => String::from_str("String Conversion Error: ").concat(utf8_text(e).as_str()),
            AppError::Other(e) => String::from_str("Error: ").concat(e.as_str()),
        }
    }
}

} // verus!
