//! The ways in which a command can be refused.

use vstd::prelude::*;

verus! {

/// Why the engine refused a command. A refused command changes nothing.
#[derive(Clone, Copy, Debug, PartialEq, Eq, Structural)]
pub enum Error {
    /// A table or column is unknown, a name is declared twice, a row does
    /// not fit the column list, or a column's type cannot hold values.
    SchemaError,
    /// A text does not denote a value of the column's type.
    ParseError,
    /// A value of a primary-key column would occur twice.
    ConstraintViolation,
    /// The query asks for what the engine does not do: a condition on a
    /// column without an index, or more than one condition.
    UnsupportedQuery,
}

impl Error {
    /// The name of the error.
    pub open spec fn name(self) -> Seq<char> {
        match self {
            Error::SchemaError => "SchemaError"@,
            Error::ParseError => "ParseError"@,
            Error::ConstraintViolation => "ConstraintViolation"@,
            Error::UnsupportedQuery => "UnsupportedQuery"@,
        }
    }

    /// The name of the error, as text.
    pub fn to_string(&self) -> (s: String)
        ensures
            s@ == self.name(),
    {
        match self {
            Error::SchemaError => "SchemaError".to_owned(),
            Error::ParseError => "ParseError".to_owned(),
            Error::ConstraintViolation => "ConstraintViolation".to_owned(),
            Error::UnsupportedQuery => "UnsupportedQuery".to_owned(),
        }
    }
}

} // verus!
