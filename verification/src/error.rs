//! What can go wrong while a filter is read or applied.

use vstd::prelude::*;

verus! {

/// The kind of access that met a value of the wrong shape.
#[derive(Debug, Clone, Copy, PartialEq, Eq, Structural)]
pub enum Access {
    /// A field was asked of something that is not an object.
    Key,
    /// An element was asked of something that is not an array.
    Index,
}

/// Why a token sequence could not be applied to a value.
#[derive(Debug, Clone, Copy, PartialEq, Eq, Structural)]
pub enum EvalFailure {
    /// A key or index that is not optional met a value of the wrong shape.
    TypeMismatch(Access),
    /// A fan-out met a scalar.
    NotIterable,
}

impl EvalFailure {
    /// The failure in words.
    pub open spec fn text(self) -> Seq<char> {
        match self {
            EvalFailure::TypeMismatch(Access::Key) => "key access on non-object"@,
            EvalFailure::TypeMismatch(Access::Index) => "index access on non-array"@,
            EvalFailure::NotIterable => "cannot iterate on a scalar"@,
        }
    }

    /// The failure in words.
    pub fn message(&self) -> (r: String)
        ensures
            r@ == self.text(),
    {
        match self {
            EvalFailure::TypeMismatch(Access::Key) => "key access on non-object".to_owned(),
            EvalFailure::TypeMismatch(Access::Index) => "index access on non-array".to_owned(),
            EvalFailure::NotIterable => "cannot iterate on a scalar".to_owned(),
        }
    }
}

/// Why a filter could not be read.
#[derive(Debug, PartialEq, Eq)]
pub enum ParseFailure {
    /// The text does not start with what was looked for.
    NoMatch,
    /// Tokens were read, but text is left over; the variant holds what is
    /// left.
    IncompleteFilter(String),
}

/// Why a filter could not be applied to a document.
#[derive(Debug, PartialEq, Eq)]
pub enum FilterError {
    /// The document is not JSON; the variant holds the codec's diagnostic.
    InvalidJson(String),
    /// The filter could not be read.
    FilterSyntax(ParseFailure),
    /// The filter could not be applied.
    Eval(EvalFailure),
    /// The codec could not print a result; the variant holds its diagnostic.
    Unprintable(String),
}

} // verus!
