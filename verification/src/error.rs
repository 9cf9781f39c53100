//! The error taxonomy shared by every stage of the pipeline.

use vstd::prelude::*;

verus! {

/// The category of a failure, one variant per failure source.
#[derive(Debug, Clone, PartialEq, Eq, Structural)]
pub enum AppErrorKind {
    /// A network fetch failed.
    RequestError,
    /// A local custom-list file could not be read.
    FileError,
    /// The apply subsystem rejected a ruleset document.
    NftablesError,
    /// A malformed address or CIDR, or a non-network-aligned address in
    /// strict mode.
    ParseError,
    /// Malformed header or configuration JSON.
    DeserializeError,
    /// A required set ended up empty where emptiness is invalid.
    NoAddressesParsedError,
    /// A referenced table does not exist.
    TableNotFound,
    /// A referenced chain does not exist.
    ChainNotFound,
}

/// An error paired with a human-readable message for operator diagnosis.
#[derive(Debug, Clone)]
pub struct AppError {
    pub error_kind: AppErrorKind,
    pub message: String,
}

impl AppError {
    /// Builds an error of the given kind carrying the given message.
    pub fn new(error_kind: AppErrorKind, message: &str) -> (e: Self)
        ensures
            e.error_kind == error_kind,
            e.message@ == message@,
    {
        Self { error_kind, message: String::from_str(message) }
    }
}

impl PartialEq for AppError {
    fn eq(&self, other: &Self) -> (r: bool) {
        self.error_kind == other.error_kind && self.message == other.message
    }
}

impl Eq for AppError {

}

impl vstd::std_specs::cmp::PartialEqSpecImpl for AppError {
    open spec fn obeys_eq_spec() -> bool {
        true
    }

    open spec fn eq_spec(&self, other: &Self) -> bool {
        self.error_kind == other.error_kind && self.message@ == other.message@
    }
}

} // verus!
