use vstd::prelude::*;

verus! {

/// A lexical diagnostic: the 1-based line on which the error was found and
/// a free-form message. The scanner collects these instead of printing, so
/// the caller owns the decision of what a reported error means for the run.
#[derive(Debug, Clone, PartialEq)]
pub enum LoxError {
    Error { line: usize, message: String },
}

/// The mathematical view of a `LoxError`.
#[verifier::ext_equal]
pub struct ErrorModel {
    pub line: int,
    pub message: Seq<char>,
}

impl View for LoxError {
    type V = ErrorModel;

    open spec fn view(&self) -> ErrorModel {
        match self {
            LoxError::Error { line, message } => ErrorModel {
                line: *line as int,
                message: message@,
            },
        }
    }
}

impl LoxError {
    /// Builds the diagnostic record for a lexical error at `line`.
    pub fn error(line: usize, message: String) -> (e: LoxError)
        ensures
            e == (LoxError::Error { line, message }),
    {
        LoxError::Error { line, message }
    }
}

} // verus!
