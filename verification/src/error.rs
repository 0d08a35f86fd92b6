//! Unified application error type.

use vstd::prelude::*;

verus! {

/// Top-level error type of the node.
#[derive(Debug, Clone, PartialEq, Eq)]
pub enum AppError {
    /// A failure originating from the P2P network layer.
    Network(String),
    /// An I/O error (file, socket, etc.), by its message.
    Io(String),
    /// An error produced while parsing or loading configuration.
    Config(String),
    /// A database (SQLite) error.
    Database(String),
    /// A catch-all for errors that fit no other variant.
    Other(String),
}

/// The text under which `e` is reported.
pub open spec fn app_error_text(e: AppError) -> Seq<char> {
    match e {
        AppError::Network(m) => "network error: "@ + m@,
        AppError::Io(m) => "I/O error: "@ + m@,
        AppError::Config(m) => "config error: "@ + m@,
        AppError::Database(m) => "database error: "@ + m@,
        AppError::Other(m) => m@,
    }
}

impl AppError {
    /// The text under which this error is reported.
    pub fn message(&self) -> (r: String)
        ensures
            r@ == app_error_text(*self),
    {
        match self {
            AppError::Network(m) => {
                let mut s = String::from_str("network error: ");
                s.append(m.as_str());
                s
            },
            AppError::Io(m) => {
                let mut s = String::from_str("I/O error: ");
                s.append(m.as_str());
                s
            },
            AppError::Config(m) => {
                let mut s = String::from_str("config error: ");
                s.append(m.as_str());
                s
            },
            AppError::Database(m) => {
                let mut s = String::from_str("database error: ");
                s.append(m.as_str());
                s
            },
            AppError::Other(m) => m.clone(),
        }
    }
}

} // verus!
