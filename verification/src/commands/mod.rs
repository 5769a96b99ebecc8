//! What the user interface's commands decide, apart from the database and
//! network work around them.
pub mod auth;
pub mod folders;
pub mod sync_cmd;
