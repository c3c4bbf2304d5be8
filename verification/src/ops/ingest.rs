//! `ingest` — fetch addresses into the store.
//!
//! Three decisions become visible here at once: an observation always has bytes, so a
//! failed fetch records no observation and counts as a failure instead; `Blocked` is not
//! `Gone`, because a WAF refusal is not evidence of absence; and a stored body is a change
//! only when its fingerprint differs from the previous one. The fetches themselves are the
//! host's.
use vstd::prelude::*;

use crate::domain::Liveness;
use crate::text::{owned, str_eq};

verus! {

/// A descriptive User-Agent with a contact address: a descriptive agent measurably turns
/// WAF 403s into 200s.
pub const DEFAULT_USER_AGENT: &'static str = "Centinel/0.1 (civic transparency archiver; +https://github.com/bennyhodl/centinel)";

pub fn default_ua() -> (s: String)
    ensures
        s@ == DEFAULT_USER_AGENT@,
{
    owned(DEFAULT_USER_AGENT)
}

/// Per-request timeout in seconds, unless asked.
pub fn default_timeout() -> (n: u64)
    ensures
        n == 30,
{
    30
}

#[derive(Debug)]
pub struct IngestArgs {
    /// Source id to file these observations under.
    pub source: String,
    /// URLs to fetch.
    pub urls: Vec<String>,
    /// User-Agent header.
    pub user_agent: String,
    /// Per-request timeout in seconds.
    pub timeout_secs: u64,
}

/// Liveness for an HTTP status that was not a success.
pub open spec fn classify_spec(status: u16) -> Liveness {
    if status == 404 || status == 410 {
        Liveness::Gone
    } else if status == 401 || status == 403 || status == 429 {
        Liveness::Blocked
    } else {
        Liveness::Error
    }
}

/// A page is recorded as deleted only when the server says it is gone — 404 or 410. A
/// server that refuses access (401, 403, 429) is blocking a page that is still there, and
/// anything else is an error, never a deletion.
pub proof fn law_only_a_missing_page_is_gone(status: u16)
    ensures
        (classify_spec(status) == Liveness::Gone) == (status == 404 || status == 410),
        (classify_spec(status) == Liveness::Blocked) == (status == 401 || status == 403 || status == 429),
        classify_spec(status) != Liveness::Live,
        !(status == 404 || status == 410 || status == 401 || status == 403 || status == 429) ==> classify_spec(status)
            == Liveness::Error,
{
}

/// Maps an HTTP status onto liveness. The 403 → `Blocked` mapping is the load-bearing
/// one: classifying a WAF 403 as `Gone` would record a live page as deleted.
pub fn classify(status: u16) -> (l: Liveness)
    ensures
        l == classify_spec(status),
        status == 403 ==> l == Liveness::Blocked,
{
    match status {
        404 | 410 => Liveness::Gone,
        401 | 403 | 429 => Liveness::Blocked,
        _ => Liveness::Error,
    }
}

/// What happened at one address.
#[derive(Debug)]
pub enum IngestOutcome {
    /// Bytes retrieved and stored.
    Stored {
        url: String,
        blob_sha: String,
        fingerprint: String,
        bytes: usize,
        /// `false` when the fingerprint matched the previous observation.
        changed: bool,
        /// True when this address had never been observed before.
        first_seen: bool,
    },
    /// Fetch failed. No observation was written; liveness was updated instead.
    Failed { url: String, state: Liveness, detail: String, consecutive_failures: u32 },
}

#[derive(Debug)]
pub struct IngestReport {
    pub source: String,
    pub attempted: usize,
    pub stored: usize,
    pub changed: usize,
    pub failed: usize,
    pub outcomes: Vec<IngestOutcome>,
}

pub open spec fn stored_count(os: Seq<IngestOutcome>) -> nat
    decreases os.len(),
{
    if os.len() == 0 {
        0
    } else {
        stored_count(os.drop_last()) + (if os.last() is Stored { 1nat } else { 0nat })
    }
}

pub open spec fn changed_count(os: Seq<IngestOutcome>) -> nat
    decreases os.len(),
{
    if os.len() == 0 {
        0
    } else {
        changed_count(os.drop_last()) + (if os.last() matches IngestOutcome::Stored { changed: true, .. } {
            1nat
        } else {
            0nat
        })
    }
}

pub open spec fn failed_count(os: Seq<IngestOutcome>) -> nat
    decreases os.len(),
{
    if os.len() == 0 {
        0
    } else {
        failed_count(os.drop_last()) + (if os.last() is Failed { 1nat } else { 0nat })
    }
}

proof fn lemma_counts_bounded(os: Seq<IngestOutcome>)
    ensures
        stored_count(os) + failed_count(os) == os.len(),
        changed_count(os) <= stored_count(os),
    decreases os.len(),
{
    if os.len() > 0 {
        lemma_counts_bounded(os.drop_last());
    }
}

impl IngestReport {
    /// The counters say what the outcomes hold: every stored outcome counted as stored,
    /// every failed one as failed, and the stored ones that changed as changed.
    pub open spec fn counted(&self) -> bool {
        &&& self.stored == stored_count(self.outcomes@)
        &&& self.changed == changed_count(self.outcomes@)
        &&& self.failed == failed_count(self.outcomes@)
    }

    /// A report before any address has been tried.
    pub fn new(source: &str, attempted: usize) -> (r: Self)
        ensures
            r.source@ == source@,
            r.attempted == attempted,
            r.outcomes@.len() == 0,
            r.counted(),
    {
        IngestReport { source: owned(source), attempted, stored: 0, changed: 0, failed: 0, outcomes: Vec::new() }
    }

    /// Records a body that was stored. It is a change unless the previous observation had
    /// the same fingerprint, and first seen when there was no previous observation.
    pub fn record_stored(
        &mut self,
        url: &str,
        blob_sha: &str,
        fingerprint: &str,
        bytes: usize,
        previous: Option<&str>,
    )
        requires
            old(self).counted(),
            old(self).outcomes@.len() < usize::MAX,
        ensures
            final(self).counted(),
            final(self).source == old(self).source,
            final(self).attempted == old(self).attempted,
            final(self).outcomes@.len() == old(self).outcomes@.len() + 1,
            final(self).outcomes@.drop_last() == old(self).outcomes@,
            final(self).outcomes@.last() matches IngestOutcome::Stored {
                url: u,
                blob_sha: b,
                fingerprint: f,
                bytes: n,
                changed: c,
                first_seen: s,
            } && u@ == url@ && b@ == blob_sha@ && f@ == fingerprint@ && n == bytes && c == (match previous {
                Some(p) => p@ != fingerprint@,
                None => true,
            }) && s == (previous is None),
    {
        proof {
            lemma_counts_bounded(self.outcomes@);
        }
        let changed = match previous {
            Some(p) => !str_eq(p, fingerprint),
            None => true,
        };
        self.outcomes.push(
            IngestOutcome::Stored {
                url: owned(url),
                blob_sha: owned(blob_sha),
                fingerprint: owned(fingerprint),
                bytes,
                changed,
                first_seen: previous.is_none(),
            },
        );
        self.stored = self.stored + 1;
        if changed {
            self.changed = self.changed + 1;
        }
        assert(self.outcomes@.drop_last() =~= old(self).outcomes@);
    }

    /// Records a fetch that failed: no observation, one more failure.
    pub fn record_failed(&mut self, url: &str, state: Liveness, detail: &str, consecutive_failures: u32)
        requires
            old(self).counted(),
            old(self).outcomes@.len() < usize::MAX,
        ensures
            final(self).counted(),
            final(self).source == old(self).source,
            final(self).attempted == old(self).attempted,
            final(self).stored == old(self).stored,
            final(self).changed == old(self).changed,
            final(self).outcomes@.len() == old(self).outcomes@.len() + 1,
            final(self).outcomes@.drop_last() == old(self).outcomes@,
            final(self).outcomes@.last() matches IngestOutcome::Failed {
                url: u,
                state: s,
                detail: d,
                consecutive_failures: c,
            } && u@ == url@ && s == state && d@ == detail@ && c == consecutive_failures,
    {
        proof {
            lemma_counts_bounded(self.outcomes@);
        }
        self.outcomes.push(
            IngestOutcome::Failed { url: owned(url), state, detail: owned(detail), consecutive_failures },
        );
        self.failed = self.failed + 1;
        assert(self.outcomes@.drop_last() =~= old(self).outcomes@);
    }
}

} // verus!
