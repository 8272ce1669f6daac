//! Decisions of a notifier that watches live computer-chess broadcasts (ccrl.live and
//! TCEC) and tells subscribers on Discord when an engine they follow starts a game.
//!
//! The general modules hold text handling, ordering, summaries, PGN reading, the
//! regular expressions and URLs used through outside crates, Discord messages and the
//! seen-games state; `ccrl` and `tcec` hold each notifier's configuration, log and
//! polling decisions.
pub mod text;
pub mod order;
pub mod summary;
pub mod pattern;
pub mod web;
pub mod pgn;
pub mod discord;
pub mod state;
pub mod config;
pub mod ccrl;
pub mod tcec;
