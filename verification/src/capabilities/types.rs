//! Risk levels and source kinds of capabilities.
use vstd::prelude::*;

use crate::text::{eq_ignoring_ascii_case, text_eq_ignore_ascii_case};

verus! {

/// Risk level for a capability — governs whether the UI shows a confirmation
/// dialog before execution.
#[derive(Debug, Clone, Copy, PartialEq, Eq, Structural)]
pub enum RiskLevel {
    Safe,
    Elevated,
    Destructive,
}

/// The kind of source a capability operates on.
/// AppLocal capabilities always show up (they don't need a database connection).
/// Database capabilities are filtered by matching the database type against
/// attached connections.
#[derive(Debug, Clone, Copy)]
pub enum SourceKind {
    /// Database type string, e.g. "ELASTICSEARCH", "DYNAMODB", "MONGODB", "POSTGRESQL".
    Database(&'static str),
    /// Reads from local files — no connection config needed.
    File,
    /// Reads local application state — always available.
    AppLocal,
}

impl SourceKind {
    /// Whether this kind is the database type `db_type`, up to ASCII case.
    pub open spec fn spec_matches_db_type(&self, db_type: Seq<char>) -> bool {
        match self {
            SourceKind::Database(t) => eq_ignoring_ascii_case(t@, db_type),
            _ => false,
        }
    }

    /// Returns true if this SourceKind matches a database type string
    /// (case-insensitive comparison).
    pub fn matches_db_type(&self, db_type: &str) -> (r: bool)
        ensures
            r == self.spec_matches_db_type(db_type@),
    {
        match self {
            SourceKind::Database(t) => text_eq_ignore_ascii_case(t, db_type),
            _ => false,
        }
    }
}

} // verus!
