//! The error that every operation reports.

use vstd::prelude::*;

verus! {

/// Why an operation failed, in the classes that callers tell apart.
#[derive(Clone, Copy, PartialEq, Eq, Structural, Debug)]
pub enum ErrorStatus {
    GenericFailure,
    InvalidArg,
}

/// A failed operation.
#[derive(Debug)]
pub struct StorageError {
    pub status: ErrorStatus,
    pub reason: String,
}

/// The mathematical form of an error.
pub struct ErrorModel {
    pub status: ErrorStatus,
    pub reason: Seq<char>,
}

impl DeepView for StorageError {
    type V = ErrorModel;

    open spec fn deep_view(&self) -> ErrorModel {
        ErrorModel { status: self.status, reason: self.reason@ }
    }
}

/// The error of an operation that failed for the given reason.
pub open spec fn failure(reason: Seq<char>) -> ErrorModel {
    ErrorModel { status: ErrorStatus::GenericFailure, reason }
}

/// The error of an argument that was refused for the given reason.
pub open spec fn invalid(reason: Seq<char>) -> ErrorModel {
    ErrorModel { status: ErrorStatus::InvalidArg, reason }
}

/// The text under which a status is shown.
pub open spec fn status_name(status: ErrorStatus) -> Seq<char> {
    match status {
        ErrorStatus::GenericFailure => "GenericFailure"@,
        ErrorStatus::InvalidArg => "InvalidArg"@,
    }
}

/// The text of an error: its status, then its reason where it has one.
pub open spec fn error_text(e: ErrorModel) -> Seq<char> {
    if e.reason.len() == 0 {
        status_name(e.status)
    } else {
        status_name(e.status) + ", "@ + e.reason
    }
}

/// The mathematical form of a result.
pub open spec fn result_view<T: DeepView, E: DeepView>(r: Result<T, E>) -> Result<T::V, E::V> {
    match r {
        Ok(v) => Ok(v.deep_view()),
        Err(e) => Err(e.deep_view()),
    }
}

impl StorageError {
    /// An error with the given reason.
    pub fn from_reason(reason: &str) -> (e: StorageError)
        ensures
            e.deep_view() == failure(reason@),
    {
        StorageError { status: ErrorStatus::GenericFailure, reason: reason.to_string() }
    }

    /// An error for a refused argument.
    pub fn invalid_arg(reason: &str) -> (e: StorageError)
        ensures
            e.deep_view() == invalid(reason@),
    {
        StorageError { status: ErrorStatus::InvalidArg, reason: reason.to_string() }
    }

    /// The text of the error.
    pub fn text(&self) -> (out: String)
        ensures
            out@ == error_text(self.deep_view()),
    {
        let name = match self.status {
            ErrorStatus::GenericFailure => "GenericFailure",
            ErrorStatus::InvalidArg => "InvalidArg",
        };
        if self.reason.as_str().unicode_len() == 0 {
            return name.to_string();
        }
        let mut out = name.to_string();
        out.append(", ");
        out.append(self.reason.as_str());
        out
    }

    /// An error equal to this one.
    pub fn duplicate(&self) -> (e: StorageError)
        ensures
            e.deep_view() == self.deep_view(),
    {
        StorageError { status: self.status, reason: self.reason.clone() }
    }
}

} // verus!
