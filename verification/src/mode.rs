//! How the bot receives updates.
use vstd::prelude::*;

use crate::text::same_text;

verus! {

/// How the bot receives updates: by polling, or through a webhook.
#[derive(Debug, Clone, Copy, PartialEq, Eq, Structural)]
pub enum PollingMode {
    Polling,
    Webhook,
}

/// The mode a configuration value names: `POLLING` or `WEBHOOK`.
pub open spec fn mode_named(name: Seq<char>) -> Option<PollingMode> {
    if name == "POLLING"@ {
        Some(PollingMode::Polling)
    } else if name == "WEBHOOK"@ {
        Some(PollingMode::Webhook)
    } else {
        None
    }
}

impl PollingMode {
    /// The mode a configuration value names, or `None` for any other value.
    pub fn from_name(name: &str) -> (r: Option<PollingMode>)
        ensures
            r == mode_named(name@),
    {
        if same_text(name, "POLLING") {
            Some(PollingMode::Polling)
        } else if same_text(name, "WEBHOOK") {
            Some(PollingMode::Webhook)
        } else {
            None
        }
    }
}

} // verus!
