//! Sync results shared by the rclone path and the S3 engine.
use vstd::prelude::*;

verus! {

/// The contents of an optional string.
pub open spec fn opt_view(o: Option<String>) -> Option<Seq<char>> {
    match o {
        Some(s) => Some(s@),
        None => None,
    }
}

/// The contents of a list of strings.
pub open spec fn strings_view(v: Seq<String>) -> Seq<Seq<char>> {
    v.map_values(|s: String| s@)
}

pub struct ConflictInfo {
    pub file_path: String,
    pub local_version: Option<String>,
    pub remote_version: Option<String>,
}

pub struct ConflictView {
    pub file_path: Seq<char>,
    pub local_version: Option<Seq<char>>,
    pub remote_version: Option<Seq<char>>,
}

impl View for ConflictInfo {
    type V = ConflictView;

    open spec fn view(&self) -> ConflictView {
        ConflictView {
            file_path: self.file_path@,
            local_version: opt_view(self.local_version),
            remote_version: opt_view(self.remote_version),
        }
    }
}

/// Outcome of one synchronisation run of a folder.
pub struct SyncResult {
    pub success: bool,
    pub files_transferred: u32,
    pub files_deleted: u32,
    pub transferred_paths: Vec<String>,
    pub errors: Vec<String>,
    pub conflicts: Vec<ConflictInfo>,
    pub duration_ms: u64,
}

pub struct SyncResultView {
    pub success: bool,
    pub files_transferred: nat,
    pub files_deleted: nat,
    pub transferred_paths: Seq<Seq<char>>,
    pub errors: Seq<Seq<char>>,
    pub conflicts: Seq<ConflictView>,
    pub duration_ms: u64,
}

impl View for SyncResult {
    type V = SyncResultView;

    open spec fn view(&self) -> SyncResultView {
        SyncResultView {
            success: self.success,
            files_transferred: self.files_transferred as nat,
            files_deleted: self.files_deleted as nat,
            transferred_paths: strings_view(self.transferred_paths@),
            errors: strings_view(self.errors@),
            conflicts: self.conflicts@.map_values(|c: ConflictInfo| c@),
            duration_ms: self.duration_ms,
        }
    }
}

/// Progress of a sync as the user interface hears of it.
pub enum SyncEvent {
    Started { folder_id: String },
    Progress { folder_id: String, message: String },
    Completed { folder_id: String, result: SyncResult },
    Error { folder_id: String, message: String },
}

} // verus!
