//! What can go wrong while planning a family.

use vstd::prelude::*;

verus! {

/// A failure, with the path or pattern it concerns.
#[derive(Debug)]
pub enum PlanError {
    /// The path has no file stem.
    InvalidPath { path: String },
    /// The family pattern derived from a stem does not compile.
    InvalidPattern { pattern: String, reason: String },
    /// A file's content could not be hashed.
    HashFailure { path: String, reason: String },
    /// A file's creation time could not be read.
    TimeFailure { path: String, reason: String },
}

/// The message that describes an error.
pub open spec fn error_message(e: PlanError) -> Seq<char> {
    match e {
        PlanError::InvalidPath { path } => "Invalid file path: "@ + path@,
        PlanError::InvalidPattern { pattern, reason } => "Failed to compile regex '"@ + pattern@
            + "': "@ + reason@,
        PlanError::HashFailure { path, reason } => "Failed to hash "@ + path@ + ": "@ + reason@,
        PlanError::TimeFailure { path, reason } => "Failed to get creation time for "@ + path@
            + ": "@ + reason@,
    }
}

impl PlanError {
    /// The message that describes this error.
    pub fn message(&self) -> (r: String)
        ensures
            r@ == error_message(*self),
    {
        match self {
            PlanError::InvalidPath { path } => {
                let mut r = String::from_str("Invalid file path: ");
                r.append(path.as_str());
                r
            },
            PlanError::InvalidPattern { pattern, reason } => {
                let mut r = String::from_str("Failed to compile regex '");
                r.append(pattern.as_str());
                r.append("': ");
                r.append(reason.as_str());
                r
            },
            PlanError::HashFailure { path, reason } => {
                let mut r = String::from_str("Failed to hash ");
                r.append(path.as_str());
                r.append(": ");
                r.append(reason.as_str());
                r
            },
            PlanError::TimeFailure { path, reason } => {
                let mut r = String::from_str("Failed to get creation time for ");
                r.append(path.as_str());
                r.append(": ");
                r.append(reason.as_str());
                r
            },
        }
    }
}

} // verus!
