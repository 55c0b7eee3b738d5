//! The failure type shared by every fallible operation of the store.
//!
//! Each error carries a discriminated kind, so a caller can tell a missing
//! page from an oversized payload or a corrupt record, together with a
//! human-readable message.

use vstd::prelude::*;

verus! {

/// The distinct ways an operation of the store can fail.
#[derive(Clone, Copy, Debug, PartialEq, Eq, Structural)]
pub enum ErrorKind {
    /// A read or indexed write named a page index at or past `pages_count`.
    PageNotFound,
    /// A payload or encoded record was longer than the page size.
    PageTooLarge,
    /// The underlying byte sink failed to seek, read or write.
    IOFailure,
    /// The record codec could not encode the value.
    EncodeFailure,
    /// The record codec could not decode the page bytes.
    DecodeFailure,
    /// A removal was attempted while the store held no pages.
    Underflow,
}

/// A failure value: a kind plus a human-readable message.
#[derive(Debug)]
pub struct BookwormError {
    pub kind: ErrorKind,
    pub message: String,
}

impl BookwormError {
    /// Builds an error of the given kind carrying the given message.
    pub fn new(kind: ErrorKind, message: String) -> (e: Self)
        ensures
            e.kind == kind,
            e.message == message,
    {
        BookwormError { kind, message }
    }

    /// The kind of this error.
    pub fn kind(&self) -> (k: ErrorKind)
        ensures
            k == self.kind,
    {
        self.kind
    }
}

pub type BookwormResult<T> = Result<T, BookwormError>;

} // verus!
