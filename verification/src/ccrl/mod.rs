//! Notifications for games broadcast on ccrl.live.
pub mod ccrllive;
pub mod config;
pub mod log;
pub mod notify;
pub mod monitor;
