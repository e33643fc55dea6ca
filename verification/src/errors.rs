//! The failures a data client can report.

use vstd::prelude::*;
use crate::decimal::{decimal, push_decimal};

verus! {

/// What went wrong while moving data to or from a backend.
#[derive(Debug, Clone, Copy, PartialEq, Eq, Structural)]
pub enum DataError {
    /// The backend could not be reached when the client was created.
    ConnectionError,
    /// The backend refused or failed a read.
    QueryError,
    /// The value at `row`, `column` has no textual form. Both indices count
    /// from zero.
    DecodeError { row: usize, column: usize },
    /// A schema description without a table name.
    MalformedSchemaError,
    /// The backend refused or failed a schema statement.
    ExecutionError,
}

/// What [`DataError::message`] says of `error`.
pub open spec fn message_text(error: DataError) -> Seq<char> {
    match error {
        DataError::ConnectionError => "the backend could not be reached"@,
        DataError::QueryError => "the backend failed the read"@,
        DataError::DecodeError { row, column } => "no textual form for the value at row "@
            + decimal(row as nat) + ", column "@ + decimal(column as nat),
        DataError::MalformedSchemaError => "the schema description has no table name"@,
        DataError::ExecutionError => "the backend failed the statement"@,
    }
}

impl DataError {
    /// The error in words, with the place of a value that could not be
    /// decoded.
    pub fn message(&self) -> (text: String)
        ensures
            text@ == message_text(*self),
    {
        match self {
            DataError::ConnectionError => String::from_str("the backend could not be reached"),
            DataError::QueryError => String::from_str("the backend failed the read"),
            DataError::DecodeError { row, column } => {
                let mut text = String::from_str("no textual form for the value at row ");
                push_decimal(&mut text, *row as u64);
                text.append(", column ");
                push_decimal(&mut text, *column as u64);
                text
            },
            DataError::MalformedSchemaError => String::from_str(
                "the schema description has no table name",
            ),
            DataError::ExecutionError => String::from_str("the backend failed the statement"),
        }
    }
}

} // verus!
