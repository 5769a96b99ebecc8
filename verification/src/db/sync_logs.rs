//! The history of syncs and releases.
use vstd::prelude::*;

verus! {

/// One entry of the sync history.
pub struct SyncLog {
    pub id: String,
    pub folder_id: String,
    pub timestamp: String,
    pub action: String,
    pub status: String,
    pub message: Option<String>,
    pub duration_ms: Option<i64>,
}

} // verus!
