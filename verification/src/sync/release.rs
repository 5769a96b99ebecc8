//! Releasing a folder to cloud-only mode: a last sync, then the local files
//! go and only the bucket keeps them.
use vstd::prelude::*;

use crate::auth::client::SyncReport;
use crate::error::AppError;
use crate::rclone::types::SyncResult;
use crate::text::{text_eq, owned};
use super::LogEntry;

verus! {

/// A folder already released is not released again.
pub fn check_releasable(mode: &str) -> (r: Result<(), AppError>)
    ensures
        mode@ == "cloud_only"@ ==> (r matches Err(AppError::General(m)) && m@
            == "Folder is already in cloud-only mode"@),
        mode@ != "cloud_only"@ ==> r is Ok,
{
    if text_eq(mode, "cloud_only") {
        Err(AppError::General(owned("Folder is already in cloud-only mode")))
    } else {
        Ok(())
    }
}

/// Local files are deleted only after a sync that succeeded.
pub fn check_synced(result: &SyncResult) -> (r: Result<(), AppError>)
    ensures
        result.success ==> r is Ok,
        !result.success ==> (r matches Err(AppError::Rclone(m)) && m@
            == "Sync failed before release. Aborting."@),
{
    if result.success {
        Ok(())
    } else {
        Err(AppError::Rclone(owned("Sync failed before release. Aborting.")))
    }
}

/// The report of a release: the last sync's counts and time, as a success
/// with no errors and no conflicts.
pub fn release_report(folder_id: &str, result: &SyncResult) -> (r: SyncReport)
    ensures
        r.folder_id@ == folder_id@,
        r.success,
        r.files_transferred == result.files_transferred,
        r.files_deleted == result.files_deleted,
        r.duration_ms == result.duration_ms,
        r.errors@.len() == 0,
        r.conflicts@.len() == 0,
{
    SyncReport {
        folder_id: owned(folder_id),
        success: true,
        files_transferred: result.files_transferred as u64,
        files_deleted: result.files_deleted as u64,
        duration_ms: result.duration_ms,
        errors: Vec::new(),
        conflicts: Vec::new(),
    }
}

/// The history entry of a release.
pub fn release_log_entry(result: &SyncResult) -> (e: LogEntry)
    ensures
        e.action@ == "release"@,
        e.status@ == "success"@,
        e.message matches Some(m) && m@ == "Folder released to cloud-only mode"@,
        e.duration_ms == Some(result.duration_ms as i64),
{
    LogEntry {
        action: owned("release"),
        status: owned("success"),
        message: Some(owned("Folder released to cloud-only mode")),
        duration_ms: Some(result.duration_ms as i64),
    }
}

} // verus!
