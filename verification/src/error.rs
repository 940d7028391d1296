//! The error type shared by parsing, coercion and emission.

use vstd::prelude::*;

verus! {

/// Everything that can go wrong while turning a query into SQL.
#[derive(Debug)]
pub enum SuchError {
    /// Grammar mismatch, type-coercion failure, or an empty subtree.
    ParseError(String),
    /// A `LIKE` was attempted on a date-valued column.
    LikeNotPossible,
    /// A branch the caller may not read was asked to emit.
    Denied,
}

/// The error kinds, without the message text; emission contracts speak of
/// these.
#[derive(Copy, Clone, Eq, PartialEq, Debug, Structural)]
pub enum ErrKind {
    Parse,
    Like,
    Denied,
}

impl SuchError {
    /// The kind of this error.
    pub open spec fn kind(self) -> ErrKind {
        match self {
            SuchError::ParseError(_) => ErrKind::Parse,
            SuchError::LikeNotPossible => ErrKind::Like,
            SuchError::Denied => ErrKind::Denied,
        }
    }

    /// A short human-readable description of this error.
    pub fn message(&self) -> (r: String)
        ensures
            self is ParseError ==> r@ == self->ParseError_0@,
    {
        match self {
            SuchError::ParseError(s) => s.clone(),
            SuchError::LikeNotPossible => crate::chars::str_to_string("LIKE not possible"),
            SuchError::Denied => crate::chars::str_to_string("DENIED"),
        }
    }

    /// A parse error whose message holds the offending characters.
    pub fn parse_error_chars(offending: &Vec<char>) -> (r: SuchError)
        ensures
            r is ParseError,
    {
        SuchError::ParseError(crate::chars::chars_to_string(offending))
    }
}

} // verus!
