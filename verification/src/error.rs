//! What a request to focus a terminal is answered with.

use vstd::prelude::*;

verus! {

/// Why a request failed, as a message for the user.
#[derive(Debug, PartialEq, Eq)]
pub enum AppError {
    Other(String),
}

pub type AppResult<T> = Result<T, AppError>;

impl View for AppError {
    type V = Seq<char>;

    /// The message.
    open spec fn view(&self) -> Seq<char> {
        match self {
            AppError::Other(message) => message@,
        }
    }
}

impl AppError {
    /// The error with this message.
    pub fn other(message: &str) -> (error: AppError)
        ensures
            error@ == message@,
    {
        AppError::Other(message.to_owned())
    }

    /// The message.
    pub fn message(&self) -> (message: &str)
        ensures
            message@ == self@,
    {
        match self {
            AppError::Other(message) => message.as_str(),
        }
    }
}

/// A terminal was brought to the front.
#[derive(Debug, PartialEq, Eq)]
pub struct FocusResult {
    /// The display name of the terminal.
    pub app: String,
    /// Whether the very window of the session is known to be in front.
    pub window_focused: bool,
}

} // verus!
