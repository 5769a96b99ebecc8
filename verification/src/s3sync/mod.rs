//! The S3 sync engine: a three-way comparison of local files, remote objects
//! and the state of the previous sync, the request signing it needs, and the
//! bookkeeping of a run.
pub mod types;
pub mod algorithm;
pub mod sigv4;
pub mod client;
pub mod engine;
pub mod localfs;
