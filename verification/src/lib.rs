//! Verified core of a desktop/mobile folder synchroniser backed by an
//! S3-compatible bucket.
pub mod error;
pub mod text;
pub mod rclone;
pub mod pathmap;
pub mod s3sync;
pub mod crypto;
pub mod auth;
pub mod sync;
pub mod db;
pub mod commands;
pub mod foreground_service;
