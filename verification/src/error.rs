//! The library's error type.

use crate::text::{concat2, concat3, owned};
use vstd::prelude::*;

verus! {

/// The kinds of I/O failure the library tells apart.
#[derive(Debug, Clone, Copy, PartialEq, Eq, Structural)]
pub enum IoKind {
    NotFound,
    PermissionDenied,
    InvalidInput,
    InvalidData,
    AlreadyExists,
    Other,
}

/// Every failure the library reports.
#[derive(Debug, Clone)]
pub enum AppError {
    Io { kind: IoKind, message: String },
    Json(String),
    Config(String),
    BackendNotFound(String),
    GameNotFound(String),
    Storage(String),
    Path(String),
    Conflict { path: String },
    Other(String),
}

pub type AppResult<T> = Result<T, AppError>;

impl AppError {
    /// The human-readable text of the error.
    pub open spec fn spec_message(&self) -> Seq<char> {
        match self {
            AppError::Io { message, .. } => "io error: "@ + message@,
            AppError::Json(m) => "json error: "@ + m@,
            AppError::Config(m) => "config error: "@ + m@,
            AppError::BackendNotFound(m) => "backend not found: "@ + m@,
            AppError::GameNotFound(m) => "game not found: "@ + m@,
            AppError::Storage(m) => "storage error: "@ + m@,
            AppError::Path(m) => "path error: "@ + m@,
            AppError::Conflict { path } => "conflict on "@ + path@
                + ": local and remote both modified"@,
            AppError::Other(m) => m@,
        }
    }

    /// The human-readable text of the error.
    pub fn message(&self) -> (r: String)
        ensures
            r@ == self.spec_message(),
    {
        match self {
            AppError::Io { message, .. } => concat2("io error: ", message.as_str()),
            AppError::Json(m) => concat2("json error: ", m.as_str()),
            AppError::Config(m) => concat2("config error: ", m.as_str()),
            AppError::BackendNotFound(m) => concat2("backend not found: ", m.as_str()),
            AppError::GameNotFound(m) => concat2("game not found: ", m.as_str()),
            AppError::Storage(m) => concat2("storage error: ", m.as_str()),
            AppError::Path(m) => concat2("path error: ", m.as_str()),
            AppError::Conflict { path } => concat3(
                "conflict on ",
                path.as_str(),
                ": local and remote both modified",
            ),
            AppError::Other(m) => m.clone(),
        }
    }

    /// A storage error carrying `msg`.
    pub fn storage(msg: &str) -> (e: Self)
        ensures
            e matches AppError::Storage(m) && m@ == msg@,
    {
        AppError::Storage(owned(msg))
    }

    /// A free-form error carrying `msg`.
    pub fn other(msg: &str) -> (e: Self)
        ensures
            e matches AppError::Other(m) && m@ == msg@,
    {
        AppError::Other(owned(msg))
    }
}

} // verus!
