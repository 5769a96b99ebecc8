//! Conflicts found by a sync, kept until the user resolves them.
use vstd::prelude::*;

verus! {

/// A path changed on both sides since the last sync.
pub struct Conflict {
    pub id: String,
    pub folder_id: String,
    pub file_path: String,
    pub local_version: Option<String>,
    pub remote_version: Option<String>,
    pub detected_at: String,
    pub resolved: bool,
    pub resolution: Option<String>,
}

} // verus!
