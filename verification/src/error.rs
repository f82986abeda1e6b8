//! The errors of the library and how they are reported.

use vstd::prelude::*;

verus! {

/// Declares std's `std::io::Error` to Verus as an opaque type: errors of
/// that kind are carried through, and nothing is claimed of them.
#[verifier::external_type_specification]
#[verifier::external_body]
pub struct ExIoError(std::io::Error);

/// Declares `serde_json::Error` to Verus as an opaque type: errors of that
/// kind are carried through, and nothing is claimed of them.
#[verifier::external_type_specification]
#[verifier::external_body]
pub struct ExJsonError(serde_json::Error);

/// What can go wrong while building a report.
#[derive(Debug)]
pub enum TrailError {
    /// The input was refused; the message says why.
    Validation(String),
    /// A requested object does not exist.
    NotFound(String),
    /// Reading or running something failed.
    Io(std::io::Error),
    /// Producing JSON failed.
    Json(serde_json::Error),
}

impl TrailError {
    /// The process exit code for this error.
    pub fn exit_code(&self) -> (code: i32)
        ensures
            code == match self {
                TrailError::Validation(_) => 1i32,
                TrailError::NotFound(_) => 3i32,
                TrailError::Io(_) => 2i32,
                TrailError::Json(_) => 1i32,
            },
    {
        match self {
            TrailError::Validation(_) => 1,
            TrailError::NotFound(_) => 3,
            TrailError::Io(_) => 2,
            TrailError::Json(_) => 1,
        }
    }

    /// The machine-readable code for this error.
    pub fn error_code(&self) -> (code: &'static str)
        ensures
            code@ == match self {
                TrailError::Validation(_) => "validation_error"@,
                TrailError::NotFound(_) => "not_found"@,
                TrailError::Io(_) => "io_error"@,
                TrailError::Json(_) => "json_error"@,
            },
    {
        match self {
            TrailError::Validation(_) => "validation_error",
            TrailError::NotFound(_) => "not_found",
            TrailError::Io(_) => "io_error",
            TrailError::Json(_) => "json_error",
        }
    }
}

} // verus!
