//! The folders registered for sync.
use vstd::prelude::*;

use crate::error::AppError;
use crate::rclone::types::opt_view;
use crate::text::{chars_of, concat, string_of, text_eq, owned};

verus! {

/// A local folder and the bucket prefix it is synced with.
pub struct Folder {
    pub id: String,
    pub local_path: String,
    pub remote_prefix: String,
    /// `"sync"`, or `"cloud_only"` once released.
    pub mode: String,
    pub last_sync_at: Option<String>,
    pub status: String,
    pub is_enabled: bool,
    pub needs_resync: bool,
    pub created_at: String,
}

/// The error of a lookup of a folder id that is not registered.
pub fn folder_not_found(id: &str) -> (e: AppError)
    ensures
        e matches AppError::NotFound(m) && m@ == "Folder not found: "@ + id@,
{
    AppError::NotFound(string_of(concat(chars_of("Folder not found: ").as_slice(), chars_of(id).as_slice()).as_slice()))
}

/// The index of the first folder registered for `local_path`, if any.
pub fn find_by_local_path(folders: &Vec<Folder>, local_path: &str) -> (r: Option<usize>)
    ensures
        match r {
            Some(i) => i < folders@.len() && folders@[i as int].local_path@ == local_path@
                && forall|j: int| 0 <= j < i ==> folders@[j].local_path@ != local_path@,
            None => forall|j: int| 0 <= j < folders@.len() ==> folders@[j].local_path@ != local_path@,
        },
{
    let mut i: usize = 0;
    while i < folders.len()
        invariant
            i <= folders@.len(),
            forall|j: int| 0 <= j < i ==> folders@[j].local_path@ != local_path@,
        decreases folders.len() - i,
    {
        if text_eq(folders[i].local_path.as_str(), local_path) {
            return Some(i);
        }
        i += 1;
    }
    None
}

/// The contents of a folder record.
pub struct FolderView {
    pub id: Seq<char>,
    pub local_path: Seq<char>,
    pub remote_prefix: Seq<char>,
    pub mode: Seq<char>,
    pub last_sync_at: Option<Seq<char>>,
    pub status: Seq<char>,
    pub is_enabled: bool,
    pub needs_resync: bool,
    pub created_at: Seq<char>,
}

impl View for Folder {
    type V = FolderView;

    open spec fn view(&self) -> FolderView {
        FolderView {
            id: self.id@,
            local_path: self.local_path@,
            remote_prefix: self.remote_prefix@,
            mode: self.mode@,
            last_sync_at: opt_view(self.last_sync_at),
            status: self.status@,
            is_enabled: self.is_enabled,
            needs_resync: self.needs_resync,
            created_at: self.created_at@,
        }
    }
}

/// A new status.
pub open spec fn spec_with_status(f: FolderView, status: Seq<char>) -> FolderView {
    FolderView { status, ..f }
}

/// A sync finished at `now`: the folder is synced and needs no resync.
pub open spec fn spec_synced_at(f: FolderView, now: Seq<char>) -> FolderView {
    FolderView { last_sync_at: Some(now), status: "synced"@, needs_resync: false, ..f }
}

/// A new mode; a folder released to cloud-only mode is shown as released.
pub open spec fn spec_with_mode(f: FolderView, mode: Seq<char>) -> FolderView {
    FolderView {
        mode,
        status: if mode == "cloud_only"@ {
            "released"@
        } else {
            f.status
        },
        ..f
    }
}

impl Folder {
    /// The record with a new status.
    pub fn with_status(self, status: &str) -> (r: Folder)
        ensures
            r@ == spec_with_status(self@, status@),
    {
        Folder { status: owned(status), ..self }
    }

    /// The record after a sync that finished at `now`.
    pub fn synced_at(self, now: &str) -> (r: Folder)
        ensures
            r@ == spec_synced_at(self@, now@),
    {
        Folder {
            last_sync_at: Some(owned(now)),
            status: owned("synced"),
            needs_resync: false,
            ..self
        }
    }

    /// The record with a new mode.
    pub fn with_mode(self, mode: &str) -> (r: Folder)
        ensures
            r@ == spec_with_mode(self@, mode@),
    {
        let released = text_eq(mode, "cloud_only");
        let status = if released {
            owned("released")
        } else {
            self.status
        };
        Folder { mode: owned(mode), status, ..self }
    }
}

/// A release leaves the folder in cloud-only mode, shown as released, with
/// the time of its last sync: marking it syncing, switching its mode,
/// recording the sync and marking it released, in that order.
pub proof fn law_release_leaves_released(f: FolderView, now: Seq<char>)
    ensures
        ({
            let g = spec_with_status(
                spec_synced_at(spec_with_mode(spec_with_status(f, "syncing"@), "cloud_only"@), now),
                "released"@,
            );
            &&& g.mode == "cloud_only"@
            &&& g.status == "released"@
            &&& g.last_sync_at == Some(now)
            &&& g.id == f.id
            &&& g.local_path == f.local_path
        }),
{
}

} // verus!
