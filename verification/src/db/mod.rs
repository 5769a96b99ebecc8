//! The local database's records, and how they are written as rows and read
//! back.
pub mod conflicts;
pub mod folders;
pub mod settings;
pub mod sync_logs;
pub mod sync_state;
