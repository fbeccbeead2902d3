//! The error model shared by the parsers: the kind of a low-level failure and
//! whether a failure may be recovered from by trying another alternative.
use vstd::prelude::*;

verus! {

/// Kind of a low-level parser failure.
#[derive(Clone, Copy, Debug, PartialEq, Eq, Structural)]
pub enum ErrorKind {
    Assert,
    Token,
    Tag,
    Alt,
    Many,
    Eof,
    Slice,
    Complete,
    Not,
    Verify,
    Fail,
}

/// A parser failure together with its recovery mode.
///
/// `Backtrack` lets an enclosing alternative try its next branch, while `Cut`
/// stops the whole parse.
#[derive(Debug, PartialEq, Eq)]
pub enum ErrMode<E> {
    Backtrack(E),
    Cut(E),
}

impl<E> ErrMode<E> {
    /// The error carried by this failure, regardless of its mode.
    pub open spec fn inner(self) -> E {
        match self {
            ErrMode::Backtrack(e) => e,
            ErrMode::Cut(e) => e,
        }
    }

    /// The error carried by this failure.
    pub fn into_inner(self) -> (e: E)
        ensures
            e == self.inner(),
    {
        match self {
            ErrMode::Backtrack(e) => e,
            ErrMode::Cut(e) => e,
        }
    }

    /// Turns a recoverable failure into an unrecoverable one.
    pub fn cut(self) -> (r: ErrMode<E>)
        ensures
            r == ErrMode::Cut(self.inner()),
    {
        match self {
            ErrMode::Backtrack(e) => ErrMode::Cut(e),
            ErrMode::Cut(e) => ErrMode::Cut(e),
        }
    }
}

/// Kind of the failure reported when a single expected character is missing:
/// the end of input gives `Token`, any other character `Verify`.
pub open spec fn char_miss(s: Seq<char>, i: int) -> ErrorKind {
    if 0 <= i < s.len() {
        ErrorKind::Verify
    } else {
        ErrorKind::Token
    }
}

/// The kind of failure for a single expected character missing at `i`.
pub fn char_miss_kind(s: &[char], i: usize) -> (k: ErrorKind)
    ensures
        k == char_miss(s@, i as int),
{
    if i < s.len() {
        ErrorKind::Verify
    } else {
        ErrorKind::Token
    }
}

} // verus!
