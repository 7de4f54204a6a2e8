//! Structured message used by compaction and the projection layer.
use vstd::prelude::*;

verus! {

/// One stored message of a session: its id, its role ("user", "assistant",
/// "tool", "system") and its content text.
#[derive(Debug, Clone)]
pub struct StoredMessage {
    pub id: String,
    pub role: String,
    pub content: String,
}

} // verus!
