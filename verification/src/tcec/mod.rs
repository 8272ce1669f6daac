//! Notifications for TCEC games.
pub mod config;
pub mod notify;
pub mod monitor;
