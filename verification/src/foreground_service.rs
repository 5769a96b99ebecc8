//! Keeping a sync alive while it runs. Android needs a foreground service with
//! a notification for that; on the desktop a sync needs nothing of the kind,
//! and these calls do nothing.
use vstd::prelude::*;

verus! {

/// Marks the start of a sync of the named folder.
pub fn start_foreground(_folder_name: &str) {
}

/// Marks the end of the sync.
pub fn stop_foreground() {
}

} // verus!
