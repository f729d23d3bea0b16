//! The errors of a scan, as values.

use vstd::prelude::*;

verus! {

/// Why a scan stopped without a table.
#[derive(Debug, Clone, PartialEq, Eq)]
pub enum Error {
    /// The batch source could not produce its next batch.
    Decode(String),
    /// A batch has more or fewer fields than columns.
    SchemaMismatch,
    /// Columns that must be equally long, or tables that must be equally wide, are not.
    ShapeMismatch,
    /// A cell is not of its column's type, or two columns that must be of one
    /// type are not.
    TypeMismatch,
    /// A table would hold two columns of this name.
    Duplicate(String),
    /// The predicate's result is not a boolean mask.
    PredicateType,
    /// The predicate failed while it was evaluated.
    Predicate(String),
    /// No column of this name is in the table.
    ColumnNotFound(String),
    /// A running sum left the 64-bit range.
    Overflow,
}

/// An error with its texts as sequences of characters.
pub enum ErrorView {
    Decode(Seq<char>),
    SchemaMismatch,
    ShapeMismatch,
    TypeMismatch,
    Duplicate(Seq<char>),
    PredicateType,
    Predicate(Seq<char>),
    ColumnNotFound(Seq<char>),
    Overflow,
}

impl View for Error {
    type V = ErrorView;

    open spec fn view(&self) -> ErrorView {
        match self {
            Error::Decode(m) => ErrorView::Decode(m@),
            Error::SchemaMismatch => ErrorView::SchemaMismatch,
            Error::ShapeMismatch => ErrorView::ShapeMismatch,
            Error::TypeMismatch => ErrorView::TypeMismatch,
            Error::Duplicate(n) => ErrorView::Duplicate(n@),
            Error::PredicateType => ErrorView::PredicateType,
            Error::Predicate(m) => ErrorView::Predicate(m@),
            Error::ColumnNotFound(n) => ErrorView::ColumnNotFound(n@),
            Error::Overflow => ErrorView::Overflow,
        }
    }
}

impl Error {
    /// A copy of the error.
    pub fn duplicate(&self) -> (r: Error)
        ensures
            r@ == self@,
    {
        match self {
            Error::Decode(m) => Error::Decode(m.clone()),
            Error::SchemaMismatch => Error::SchemaMismatch,
            Error::ShapeMismatch => Error::ShapeMismatch,
            Error::TypeMismatch => Error::TypeMismatch,
            Error::Duplicate(n) => Error::Duplicate(n.clone()),
            Error::PredicateType => Error::PredicateType,
            Error::Predicate(m) => Error::Predicate(m.clone()),
            Error::ColumnNotFound(n) => Error::ColumnNotFound(n.clone()),
            Error::Overflow => Error::Overflow,
        }
    }
}

} // verus!
