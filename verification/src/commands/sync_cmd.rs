//! Starting and cancelling syncs on the user's request.
use vstd::prelude::*;

use crate::error::AppError;
use crate::text::{chars_of, concat, string_of, owned};

verus! {

/// A folder is synced on request only when no sync of it is running.
pub fn check_not_syncing(running: bool, folder_id: &str) -> (r: Result<(), AppError>)
    ensures
        running ==> (r matches Err(AppError::SyncInProgress(id)) && id@ == folder_id@),
        !running ==> r is Ok,
{
    if running {
        Err(AppError::SyncInProgress(owned(folder_id)))
    } else {
        Ok(())
    }
}

/// The error of a cancel request for a folder with no running sync.
pub fn no_active_sync(folder_id: &str) -> (e: AppError)
    ensures
        e matches AppError::General(m) && m@ == "No active sync for folder "@ + folder_id@,
{
    AppError::General(
        string_of(concat(chars_of("No active sync for folder ").as_slice(), chars_of(folder_id).as_slice()).as_slice()),
    )
}

} // verus!
