//! What `check --strategy` and `investigate` both do before they ask their own question:
//! the ceiling a probe works under, and the two network flags.
use vstd::prelude::*;

use crate::ops::ingest::DEFAULT_USER_AGENT;
use crate::text::owned;

verus! {

/// Requests a probe may spend. Small on purpose: this is a question asked while deciding
/// whether a host is worth collecting, often about ten hosts in a row.
pub const REQUESTS: usize = 25;

/// Addresses a probe keeps.
pub const ADDRESSES: usize = 500;

/// Per-request timeout in seconds, unless asked.
pub const DEFAULT_TIMEOUT_SECS: u64 = 30;

/// The two flags any op that fetches on an operator's behalf has to offer.
#[derive(Debug)]
pub struct NetArgs {
    /// User-Agent header. A descriptive one measurably reduces WAF 403s.
    pub user_agent: String,
    /// Per-request timeout in seconds.
    pub timeout_secs: u64,
}

impl Default for NetArgs {
    fn default() -> (a: Self)
        ensures
            a.user_agent@ == DEFAULT_USER_AGENT@,
            a.timeout_secs == DEFAULT_TIMEOUT_SECS,
    {
        NetArgs { user_agent: owned(DEFAULT_USER_AGENT), timeout_secs: DEFAULT_TIMEOUT_SECS }
    }
}

/// Where a `--source` argument's description comes from, in order: an address typed on
/// the command line is an instruction, the config's block is the standing statement of
/// intent, and what the store remembers is evidence.
#[derive(Clone, Copy, Debug, PartialEq, Eq)]
pub enum Resolution {
    Typed,
    Configured,
    Stored,
}

/// Which description a source is built from; both `--site` and `--channel` is refused,
/// since a source is one or the other.
pub fn resolution(site: bool, channel: bool, configured: bool) -> (r: Result<Resolution, &'static str>)
    ensures
        r == (if site && channel {
            Err("give --site or --channel, not both; a source is one or the other")
        } else if site || channel {
            Ok(Resolution::Typed)
        } else if configured {
            Ok(Resolution::Configured)
        } else {
            Ok(Resolution::Stored)
        }),
{
    if site && channel {
        Err("give --site or --channel, not both; a source is one or the other")
    } else if site || channel {
        Ok(Resolution::Typed)
    } else if configured {
        Ok(Resolution::Configured)
    } else {
        Ok(Resolution::Stored)
    }
}

} // verus!
