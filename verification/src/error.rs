//! Errors of the synchroniser.
use vstd::prelude::*;

verus! {

/// Why an operation failed, with a message for the user.
#[derive(Debug)]
pub enum AppError {
    Database(String),
    Io(String),
    Rclone(String),
    Api(String),
    Auth(String),
    NotFound(String),
    General(String),
    S3(String),
    SyncInProgress(String),
}

} // verus!
