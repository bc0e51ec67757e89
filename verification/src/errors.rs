//! The error kinds a request can end in, and their HTTP presentation.
//!
//! A malformed date parameter is the caller's fault; a valid date with no
//! matching rows is signalled only by the by-date query, while the
//! latest-day query treats emptiness as a successful empty result; a store
//! failure aborts the whole request.

use vstd::prelude::*;

verus! {

/// Why a request failed.
#[derive(Clone, Copy, Debug, PartialEq, Eq, Structural)]
pub enum ApiError {
    /// The date parameter is not exactly eight decimal digits.
    InvalidDateFormat,
    /// A valid date matched no rows (by-date query only).
    NoDataFound,
    /// The store could not be opened or read.
    DatabaseError,
    /// No route matched the request path.
    RouteNotFound,
    /// Any other failure.
    Internal,
}

impl ApiError {
    /// The HTTP status code this error surfaces as.
    pub open spec fn spec_status(self) -> u16 {
        match self {
            ApiError::InvalidDateFormat => 400,
            ApiError::NoDataFound => 404,
            ApiError::DatabaseError => 500,
            ApiError::RouteNotFound => 404,
            ApiError::Internal => 500,
        }
    }

    /// The message body this error surfaces with.
    pub open spec fn spec_message(self) -> Seq<char> {
        match self {
            ApiError::InvalidDateFormat => "Invalid date format. Expected 8 digits (yyyymmdd)"@,
            ApiError::NoDataFound => "No data found for the requested date"@,
            ApiError::DatabaseError => "Database Error"@,
            ApiError::RouteNotFound => "Not Found"@,
            ApiError::Internal => "Internal Server Error"@,
        }
    }

    /// Executable counterpart of [`Self::spec_status`].
    pub fn status_code(&self) -> (c: u16)
        ensures
            c == self.spec_status(),
    {
        match self {
            ApiError::InvalidDateFormat => 400,
            ApiError::NoDataFound => 404,
            ApiError::DatabaseError => 500,
            ApiError::RouteNotFound => 404,
            ApiError::Internal => 500,
        }
    }

    /// Executable counterpart of [`Self::spec_message`].
    pub fn message(&self) -> (m: &'static str)
        ensures
            m@ == self.spec_message(),
    {
        match self {
            ApiError::InvalidDateFormat => "Invalid date format. Expected 8 digits (yyyymmdd)",
            ApiError::NoDataFound => "No data found for the requested date",
            ApiError::DatabaseError => "Database Error",
            ApiError::RouteNotFound => "Not Found",
            ApiError::Internal => "Internal Server Error",
        }
    }
}

} // verus!
