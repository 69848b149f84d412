//! Source spans.

use vstd::prelude::*;

use crate::error::{ErrorKind, LError};
use crate::text::{decimal, push_decimal};
use crate::token::{SourceLoc, UNKNOWN_FILE};

verus! {

/// A span in source code: byte offsets, plus line and column for errors.
pub struct Span {
    pub start: usize,
    pub end: usize,
    pub line: u32,
    pub col: u32,
    pub file: Option<String>,
}

/// What an optional string spells.
pub open spec fn optional_text(s: Option<String>) -> Option<Seq<char>> {
    match s {
        Some(s) => Some(s@),
        None => None,
    }
}

/// Copy of an optional string.
pub fn clone_optional(s: &Option<String>) -> (r: Option<String>)
    ensures
        optional_text(r) == optional_text(*s),
{
    match s {
        Some(s) => Some(s.clone()),
        None => None,
    }
}

impl Span {
    /// The span's file name, the unknown one where it has none.
    pub open spec fn file_text(self) -> Seq<char> {
        match self.file {
            Some(f) => f@,
            None => UNKNOWN_FILE@,
        }
    }

    /// `loc` is where the span starts.
    pub open spec fn located_at(self, loc: SourceLoc) -> bool {
        loc.file@ == self.file_text() && loc.line == self.line && loc.col == self.col
    }

    /// The span reads `file:line:col`, without the file where it has none.
    pub open spec fn text(self) -> Seq<char> {
        let place = decimal(self.line as nat) + ":"@ + decimal(self.col as nat);
        match self.file {
            Some(f) => f@ + ":"@ + place,
            None => place,
        }
    }

    /// A span without a file.
    pub fn new(start: usize, end: usize, line: u32, col: u32) -> (r: Span)
        ensures
            r == (Span { start, end, line, col, file: None }),
    {
        Span { start, end, line, col, file: None }
    }

    /// The same span in `file`.
    pub fn with_file(self, file: String) -> (r: Span)
        ensures
            r == (Span { file: Some(file), ..self }),
    {
        Span { start: self.start, end: self.end, line: self.line, col: self.col, file: Some(file) }
    }

    /// The span of generated code.
    pub fn synthetic() -> (r: Span)
        ensures
            r == (Span { start: 0, end: 0, line: 0, col: 0, file: None }),
    {
        Span { start: 0, end: 0, line: 0, col: 0, file: None }
    }

    /// Merge two spans into one covering both. The position is that of the one
    /// on the earlier line, of the leftmost column where they share the line;
    /// the file is the first one known.
    pub fn merge(&self, other: &Span) -> (r: Span)
        ensures
            r.start == if self.start <= other.start { self.start } else { other.start },
            r.end == if self.end >= other.end { self.end } else { other.end },
            r.line == if self.line <= other.line { self.line } else { other.line },
            self.line < other.line ==> r.col == self.col,
            self.line > other.line ==> r.col == other.col,
            self.line == other.line ==> r.col == if self.col <= other.col { self.col } else {
                other.col
            },
            optional_text(r.file) == if self.file is Some { optional_text(self.file) } else {
                optional_text(other.file)
            },
    {
        let start: usize = if self.start <= other.start { self.start } else { other.start };
        let end: usize = if self.end >= other.end { self.end } else { other.end };
        let line: u32 = if self.line <= other.line { self.line } else { other.line };
        let col: u32 = if self.line < other.line {
            self.col
        } else if self.line > other.line {
            other.col
        } else if self.col <= other.col {
            self.col
        } else {
            other.col
        };
        let file = match &self.file {
            Some(f) => Some(f.clone()),
            None => clone_optional(&other.file),
        };
        Span { start, end, line, col, file }
    }

    /// The location of the span for error reporting.
    pub fn to_source_loc(&self) -> (r: SourceLoc)
        ensures
            self.located_at(r),
    {
        let file = match &self.file {
            Some(f) => f.clone(),
            None => UNKNOWN_FILE.to_string(),
        };
        SourceLoc::new(file, self.line as usize, self.col as usize)
    }

    /// A compile error at this span.
    pub fn compile_err(&self, msg: String) -> (r: LError)
        ensures
            r.kind == (ErrorKind::CompileError { message: msg }),
            r.location is Some && self.located_at(r.location->0),
    {
        LError::compile_failure(msg).with_location(self.to_source_loc())
    }

    /// An undefined-variable error at this span.
    pub fn undefined_var(&self, name: String) -> (r: LError)
        ensures
            r.kind is UndefinedVariable,
            r.kind->UndefinedVariable_name == name,
            r.kind->suggestions@.len() == 0,
            r.location is Some && self.located_at(r.location->0),
    {
        LError::undefined_variable(name).with_location(self.to_source_loc())
    }

    /// An undefined-variable error at this span, with suggestions.
    pub fn undefined_var_suggest(&self, name: String, suggestions: Vec<String>) -> (r: LError)
        ensures
            r.kind == (ErrorKind::UndefinedVariable { name, suggestions }),
            r.location is Some && self.located_at(r.location->0),
    {
        LError::undefined_variable_with_suggestions(name, suggestions).with_location(
            self.to_source_loc(),
        )
    }

    /// A signal-mismatch error at this span.
    pub fn signal_mismatch(&self, function: String, required_mask: String, actual_mask: String) -> (r:
        LError)
        ensures
            r.kind == (ErrorKind::SignalMismatch { function, required_mask, actual_mask }),
            r.location is Some && self.located_at(r.location->0),
    {
        LError::signal_mismatch(function, required_mask, actual_mask).with_location(
            self.to_source_loc(),
        )
    }

    /// Readable form of the span's position.
    pub fn render(&self) -> (r: String)
        ensures
            r@ == self.text(),
    {
        let mut out = String::new();
        if let Some(f) = &self.file {
            out.append(f.as_str());
            out.append(":");
        }
        push_decimal(&mut out, self.line as u64);
        out.append(":");
        push_decimal(&mut out, self.col as u64);
        assert(out@ =~= self.text());
        out
    }

    /// Copy of the span.
    pub fn copy(&self) -> (r: Span)
        ensures
            r.same(*self),
    {
        Span {
            start: self.start,
            end: self.end,
            line: self.line,
            col: self.col,
            file: clone_optional(&self.file),
        }
    }

    /// The two spans hold the same data.
    pub open spec fn same(self, other: Span) -> bool {
        &&& self.start == other.start
        &&& self.end == other.end
        &&& self.line == other.line
        &&& self.col == other.col
        &&& optional_text(self.file) == optional_text(other.file)
    }
}

} // verus!
