use crate::token::{position_text, Position};
use vstd::prelude::*;

verus! {

/// Categories of diagnostics shared by every stage of the toolchain.
#[derive(Clone, Copy, Debug, PartialEq, Eq, Structural)]
pub enum ErrorKind {
    SyntaxError,
    TypeError,
    UndefinedSymbol,
    IoError,
    InternalError,
    RuntimeError,
}

/// A diagnostic: a category, a human-readable message and, optionally, where it arose.
#[derive(Debug)]
pub struct Error {
    pub kind: ErrorKind,
    pub message: String,
    pub position: Option<Position>,
}

impl Error {
    /// A diagnostic tied to a place in the source.
    pub fn new(kind: ErrorKind, message: String, position: Position) -> (r: Self)
        ensures
            r.kind == kind,
            r.message@ == message@,
            r.position == Some(position),
    {
        Self { kind, message, position: Some(position) }
    }

    /// A diagnostic with no source location.
    pub fn without_position(kind: ErrorKind, message: String) -> (r: Self)
        ensures
            r.kind == kind,
            r.message@ == message@,
            r.position.is_none(),
    {
        Self { kind, message, position: None }
    }
}

} // verus!

verus! {

/// How each category is named in a diagnostic.
pub open spec fn kind_text(k: ErrorKind) -> Seq<char> {
    match k {
        ErrorKind::SyntaxError => "Syntax error"@,
        ErrorKind::TypeError => "Type error"@,
        ErrorKind::UndefinedSymbol => "Undefined symbol"@,
        ErrorKind::IoError => "I/O error"@,
        ErrorKind::InternalError => "Internal error"@,
        ErrorKind::RuntimeError => "Runtime error"@,
    }
}

impl ErrorKind {
    /// How this category is named in a diagnostic.
    pub fn description(&self) -> (r: &'static str)
        ensures
            r@ == kind_text(*self),
    {
        match self {
            ErrorKind::SyntaxError => "Syntax error",
            ErrorKind::TypeError => "Type error",
            ErrorKind::UndefinedSymbol => "Undefined symbol",
            ErrorKind::IoError => "I/O error",
            ErrorKind::InternalError => "Internal error",
            ErrorKind::RuntimeError => "Runtime error",
        }
    }
}

/// `<kind> at <line>:<column>: <message>` with a position, `<kind>: <message>` without.
pub open spec fn error_text(kind: ErrorKind, message: Seq<char>, position: Option<Position>) -> Seq<
    char,
> {
    match position {
        Some(p) => kind_text(kind) + " at "@ + position_text(p) + ": "@ + message,
        None => kind_text(kind) + ": "@ + message,
    }
}

impl Error {
    /// The diagnostic as one line of text.
    pub fn describe(&self) -> (r: String)
        ensures
            r@ == error_text(self.kind, self.message@, self.position),
    {
        let mut r = String::from_str(self.kind.description());
        match &self.position {
            Some(p) => {
                r.append(" at ");
                let at = p.describe();
                r.append(at.as_str());
            },
            None => {},
        }
        r.append(": ");
        r.append(self.message.as_str());
        r
    }
}

} // verus!
