//! Values the S3 sync engine works on.
use vstd::prelude::*;

verus! {

/// A local file or a remote object. `mtime` is in seconds since the Unix epoch.
pub struct FileEntry {
    pub path: String,
    pub size: u64,
    pub etag: Option<String>,
    pub mtime: Option<i64>,
}

impl Clone for FileEntry {
    fn clone(&self) -> (r: Self)
        ensures
            r == *self,
    {
        FileEntry {
            path: self.path.clone(),
            size: self.size,
            etag: match &self.etag {
                Some(e) => Some(e.clone()),
                None => None,
            },
            mtime: self.mtime,
        }
    }
}

/// What the sync does with one path.
#[derive(Debug, Clone, Copy, PartialEq, Eq, Structural)]
pub enum SyncAction {
    /// Upload the local file (new or changed locally).
    UploadLocal,
    /// Download the remote object (new or changed remotely).
    DownloadRemote,
    /// Delete the remote object (deleted locally since the last sync).
    DeleteRemote,
    /// Delete the local file (deleted remotely since the last sync).
    DeleteLocal,
    /// Both sides changed since the last sync; the user decides.
    Conflict,
    /// Nothing to do.
    Skip,
}

/// Report of one sync.
pub struct SyncOutcome {
    pub success: bool,
    pub files_transferred: i32,
    pub files_deleted: i32,
    pub duration_ms: u64,
    pub errors: Vec<String>,
    pub transferred_paths: Vec<String>,
}

} // verus!
