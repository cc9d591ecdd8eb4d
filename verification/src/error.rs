//! The error taxonomy of the tracking core: storage faults, expected
//! not-found outcomes, and inputs rejected before any storage access.

use vstd::prelude::*;

verus! {

/// Outcome classification for the tracking operations.
///
/// `Database` is a storage fault (fatal to the request, never recovered from
/// here); `EmailNotFound` and `TenantNotFound` are expected absence outcomes;
/// `InvalidEmailId` and `InvalidUrl` reject malformed input before any
/// storage access.
#[derive(Debug)]
pub enum AppError {
    /// The underlying store failed; carries a short description.
    Database(String),
    /// The email id in a tracking request did not parse as an integer.
    InvalidEmailId(String),
    /// No email with the requested id exists under the requesting tenant.
    EmailNotFound,
    /// No tenant with the requested id exists.
    TenantNotFound,
    /// A click-url request lacked a usable target URL.
    InvalidUrl(String),
}

impl AppError {
    /// The HTTP status code and user-facing message this error translates to
    /// at the response boundary.
    pub fn status_and_message(&self) -> (r: (u16, &'static str))
        ensures
            match self {
                AppError::Database(_) => r.0 == 500 && r.1@ == "Internal server error"@,
                AppError::InvalidEmailId(_) => r.0 == 400 && r.1@ == "Invalid email ID"@,
                AppError::EmailNotFound => r.0 == 404 && r.1@ == "Email not found"@,
                AppError::TenantNotFound => r.0 == 404 && r.1@ == "Tenant not found"@,
                AppError::InvalidUrl(_) => r.0 == 400 && r.1@ == "Invalid URL"@,
            },
    {
        match self {
            AppError::Database(_) => (500, "Internal server error"),
            AppError::InvalidEmailId(_) => (400, "Invalid email ID"),
            AppError::EmailNotFound => (404, "Email not found"),
            AppError::TenantNotFound => (404, "Tenant not found"),
            AppError::InvalidUrl(_) => (400, "Invalid URL"),
        }
    }
}

} // verus!
