//! Compile-time errors with a source location.

use vstd::prelude::*;

use crate::token::SourceLoc;

verus! {

/// What went wrong.
pub enum ErrorKind {
    CompileError { message: String },
    UndefinedVariable { name: String, suggestions: Vec<String> },
    SignalMismatch { function: String, required_mask: String, actual_mask: String },
}

/// An error and, where it is known, the place it arose.
pub struct LError {
    pub kind: ErrorKind,
    pub location: Option<SourceLoc>,
}

impl LError {
    /// A compile error with a message.
    pub fn compile_failure(message: String) -> (r: LError)
        ensures
            r == (LError { kind: ErrorKind::CompileError { message }, location: None }),
    {
        LError { kind: ErrorKind::CompileError { message }, location: None }
    }

    /// A reference to a name that is not bound.
    pub fn undefined_variable(name: String) -> (r: LError)
        ensures
            r.kind is UndefinedVariable,
            r.kind->UndefinedVariable_name == name,
            r.kind->suggestions@.len() == 0,
            r.location is None,
    {
        LError {
            kind: ErrorKind::UndefinedVariable { name, suggestions: Vec::new() },
            location: None,
        }
    }

    /// A reference to a name that is not bound, with names that are close.
    pub fn undefined_variable_with_suggestions(name: String, suggestions: Vec<String>) -> (r: LError)
        ensures
            r == (LError {
                kind: ErrorKind::UndefinedVariable { name, suggestions },
                location: None,
            }),
    {
        LError { kind: ErrorKind::UndefinedVariable { name, suggestions }, location: None }
    }

    /// A function whose signals exceed what its context allows.
    pub fn signal_mismatch(function: String, required_mask: String, actual_mask: String) -> (r: LError)
        ensures
            r == (LError {
                kind: ErrorKind::SignalMismatch { function, required_mask, actual_mask },
                location: None,
            }),
    {
        LError {
            kind: ErrorKind::SignalMismatch { function, required_mask, actual_mask },
            location: None,
        }
    }

    /// The same error at `loc`.
    pub fn with_location(self, loc: SourceLoc) -> (r: LError)
        ensures
            r == (LError { kind: self.kind, location: Some(loc) }),
    {
        LError { kind: self.kind, location: Some(loc) }
    }
}

} // verus!
