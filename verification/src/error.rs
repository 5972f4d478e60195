//! The failures that the store reports. All of them are returned to the
//! caller; none ends the process.

use vstd::prelude::*;

verus! {

/// Why an operation was refused.
#[derive(Debug, PartialEq, Eq)]
pub enum Error {
    /// The pattern does not compile.
    Regex(String),
    /// The attribute key holds the path separator.
    InvalidKey(String),
    /// No log has this identifier.
    InvalidLogID(i32),
    /// No object has this identifier.
    InvalidObjID(i32),
    /// The store can take no further record: an identifier sequence is used
    /// up, or the persistence behind the store cannot be reached.
    StoreUnavailable,
    /// Persisted records do not have the shape of a store.
    CorruptRecord,
    /// Handlers have set off one another deeper than the limit allows.
    RecursiveDispatch,
}

/// An error with the text it carries as a sequence of characters.
pub enum ErrorView {
    Regex(Seq<char>),
    InvalidKey(Seq<char>),
    InvalidLogID(int),
    InvalidObjID(int),
    StoreUnavailable,
    CorruptRecord,
    RecursiveDispatch,
}

impl View for Error {
    type V = ErrorView;

    open spec fn view(&self) -> ErrorView {
        match self {
            Error::Regex(p) => ErrorView::Regex(p@),
            Error::InvalidKey(k) => ErrorView::InvalidKey(k@),
            Error::InvalidLogID(id) => ErrorView::InvalidLogID(*id as int),
            Error::InvalidObjID(id) => ErrorView::InvalidObjID(*id as int),
            Error::StoreUnavailable => ErrorView::StoreUnavailable,
            Error::CorruptRecord => ErrorView::CorruptRecord,
            Error::RecursiveDispatch => ErrorView::RecursiveDispatch,
        }
    }
}

impl Clone for Error {
    fn clone(&self) -> (r: Error)
        ensures
            r@ == self@,
    {
        match self {
            Error::Regex(p) => Error::Regex(p.clone()),
            Error::InvalidKey(k) => Error::InvalidKey(k.clone()),
            Error::InvalidLogID(id) => Error::InvalidLogID(*id),
            Error::InvalidObjID(id) => Error::InvalidObjID(*id),
            Error::StoreUnavailable => Error::StoreUnavailable,
            Error::CorruptRecord => Error::CorruptRecord,
            Error::RecursiveDispatch => Error::RecursiveDispatch,
        }
    }
}

/// What an operation answered, with the error taken by its view.
pub open spec fn outcome<T>(r: Result<T, Error>) -> Result<T, ErrorView> {
    match r {
        Ok(v) => Ok(v),
        Err(e) => Err(e@),
    }
}

} // verus!
