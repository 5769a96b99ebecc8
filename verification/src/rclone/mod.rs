//! Driving `rclone bisync`: its configuration, its command line and the
//! interpretation of what it prints.
pub mod types;
pub mod parser;
pub mod config;
pub mod bisync;
