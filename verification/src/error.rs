//! The ways in which using a template can fail.

use vstd::prelude::*;
use vstd::string::*;

verus! {

/// What went wrong. Every failure reaches the caller as one of these.
#[derive(Debug)]
pub enum TemplateError {
    /// Neither the dated nor the plain file of the named template exists.
    TemplateNotFound { name: String },
    /// A template that is not dated was used without a name for the output.
    MissingOutputName,
    /// Reading the template or writing the output failed; the cause is given.
    IoFailure { cause: String },
    /// No further line could be read while placeholders were still unanswered.
    InputStreamClosed,
    /// The date format holds something that cannot be rendered.
    InvalidDateFormat { format: String },
}

/// The text that `message` gives for an error.
pub open spec fn message_of(e: TemplateError) -> Seq<char> {
    match e {
        TemplateError::TemplateNotFound { name } => "Couldn't find template `"@ + name@
            + "`, with DATE- or without"@,
        TemplateError::MissingOutputName => "Filename empty and not dated"@,
        TemplateError::IoFailure { cause } => "I/O failure: "@ + cause@,
        TemplateError::InputStreamClosed => "Input stream closed before every placeholder was answered"@,
        TemplateError::InvalidDateFormat { format } => "Invalid date format `"@ + format@ + "`"@,
    }
}

impl TemplateError {
    /// A message for the user.
    pub fn message(&self) -> (text: String)
        ensures
            text@ == message_of(*self),
    {
        match self {
            TemplateError::TemplateNotFound { name } => String::from_str(
                "Couldn't find template `",
            ).concat(name.as_str()).concat("`, with DATE- or without"),
            TemplateError::MissingOutputName => String::from_str("Filename empty and not dated"),
            TemplateError::IoFailure { cause } => String::from_str("I/O failure: ").concat(
                cause.as_str(),
            ),
            TemplateError::InputStreamClosed => String::from_str(
                "Input stream closed before every placeholder was answered",
            ),
            TemplateError::InvalidDateFormat { format } => String::from_str(
                "Invalid date format `",
            ).concat(format.as_str()).concat("`"),
        }
    }
}

} // verus!
