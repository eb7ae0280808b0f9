//! Errors reported by the SQL layer.

use vstd::prelude::*;

verus! {

/// Why a statement or a batch could not be handled.
#[derive(Debug)]
pub enum SqlError {
    /// The statement, or the layout of a batch, is outside what is supported.
    UnsupportedSql(String),
    /// A column was named that is not known.
    UnknownColumn(String),
}

/// The result type used throughout the crate.
pub type SqlResult<T> = Result<T, SqlError>;

impl SqlError {
    /// Whether this is an `UnsupportedSql` error that carries `message`.
    pub open spec fn is_unsupported(self, message: Seq<char>) -> bool {
        self matches SqlError::UnsupportedSql(text) && text@ == message
    }

    /// Whether this is an `UnknownColumn` error that carries `column`.
    pub open spec fn is_unknown_column(self, column: Seq<char>) -> bool {
        self matches SqlError::UnknownColumn(text) && text@ == column
    }

    /// The message or column name that the error carries.
    pub open spec fn text(self) -> Seq<char> {
        match self {
            SqlError::UnsupportedSql(text) => text@,
            SqlError::UnknownColumn(text) => text@,
        }
    }

    /// An `UnsupportedSql` error with the given message.
    pub fn unsupported(message: &str) -> (error: SqlError)
        ensures
            error.is_unsupported(message@),
    {
        SqlError::UnsupportedSql(message.to_owned())
    }

    /// An `UnknownColumn` error for the given column.
    pub fn unknown_column(column: &str) -> (error: SqlError)
        ensures
            error.is_unknown_column(column@),
    {
        SqlError::UnknownColumn(column.to_owned())
    }

    /// The message or column name that the error carries.
    pub fn message(&self) -> (message: String)
        ensures
            message@ == self.text(),
    {
        match self {
            SqlError::UnsupportedSql(text) => text.clone(),
            SqlError::UnknownColumn(text) => text.clone(),
        }
    }
}

/// An error, as a value.
pub enum Failure {
    Unsupported(Seq<char>),
    UnknownColumn(Seq<char>),
}

impl SqlError {
    /// The error, as a value.
    pub open spec fn failure(self) -> Failure {
        match self {
            SqlError::UnsupportedSql(text) => Failure::Unsupported(text@),
            SqlError::UnknownColumn(text) => Failure::UnknownColumn(text@),
        }
    }
}

/// Whether `result` failed with the given error.
pub open spec fn fails_with<T>(result: SqlResult<T>, failure: Failure) -> bool {
    result matches Err(error) && error.failure() == failure
}

/// Whether `result` failed with an `UnsupportedSql` error that carries `message`.
pub open spec fn fails_unsupported<T>(result: SqlResult<T>, message: Seq<char>) -> bool {
    result matches Err(error) && error.is_unsupported(message)
}

} // verus!
