//! Settings shared by both notifiers.
use vstd::prelude::*;

verus! {

/// A configuration address and the webhooks to post to.
pub struct Config {
    pub config_url: String,
    pub notify_webhook: String,
    pub log_webhook: Option<String>,
}

/// Why a configuration cannot be built.
#[derive(Debug, PartialEq, Eq, Structural)]
pub enum ConfigError {
    /// The configuration address is not an absolute URL.
    InvalidConfigUrl,
}

} // verus!
