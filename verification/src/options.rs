//! What an embedder chooses when it opens a store.

use vstd::prelude::*;

use crate::ids::CipherId;

verus! {

/// How much commit history a store keeps.
#[non_exhaustive]
#[derive(Debug, Clone, Copy, PartialEq, Eq, Structural)]
pub enum RetainPolicy {
    /// The newest so many commits.
    Count(u32),
    /// Commits younger than so many seconds.
    Age(u64),
    /// Every commit.
    Unbounded,
    /// No history at all.
    Disabled,
}

/// Budgets and policies of one open handle.
#[derive(Debug, Clone, Copy)]
pub struct OpenOptions {
    pub buffer_pool_pages: usize,
    pub segment_cache_pages: usize,
    pub anchor_budget: u64,
    pub observer_retry_count: u32,
    pub metrics_enabled: bool,
    pub reader_stall_threshold_pages: u64,
    pub mmap_view_scratch_bytes: usize,
    pub scratch_bytes: usize,
    pub skip_freelist_persistence_when_no_readers: bool,
    pub commit_history_retain: RetainPolicy,
    pub cipher: CipherId,
}

/// The two header fields that record a retention policy: tag 0 is a count,
/// tag 1 an age in seconds, tag 2 unbounded, tag 3 disabled.
pub open spec fn retain_policy_fields(policy: RetainPolicy) -> (u8, u64) {
    match policy {
        RetainPolicy::Count(n) => (0u8, n as u64),
        RetainPolicy::Age(seconds) => (1u8, seconds),
        RetainPolicy::Unbounded => (2u8, 0u64),
        RetainPolicy::Disabled => (3u8, 0u64),
    }
}

/// Encodes a retention policy into the two header fields `(tag, value)`.
pub fn encode_retain_policy(policy: &RetainPolicy) -> (fields: (u8, u64))
    ensures
        fields == retain_policy_fields(*policy),
{
    match *policy {
        RetainPolicy::Count(n) => (0, n as u64),
        RetainPolicy::Age(seconds) => (1, seconds),
        RetainPolicy::Unbounded => (2, 0),
        RetainPolicy::Disabled => (3, 0),
    }
}

/// Two policies with the same header fields are the same policy.
pub proof fn law_retain_policy_fields_identify(a: RetainPolicy, b: RetainPolicy)
    requires
        retain_policy_fields(a) == retain_policy_fields(b),
    ensures
        a == b,
{
}

} // verus!
