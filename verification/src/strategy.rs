//! Member-side cache of the leader's strategy summary (read-only mirror): rule
//! names, this machine's quota and ban flag; used to block requests locally
//! before they travel (the leader stays the authority).
use vstd::prelude::*;
use crate::rules::strings_view;
use crate::text::clone_strings;

verus! {

/// Quota snapshot (the `quota` object of the leader's reply).
#[derive(Debug, Clone, Copy, PartialEq, Eq, Structural)]
pub struct QuotaSnapshot {
    /// Ceiling (0 = unlimited).
    pub limit: u64,
    /// Usage accumulated at the leader.
    pub used: u64,
}

/// Strategy summary (the leader's reply, field for field).
#[derive(Debug, Clone, PartialEq, Eq)]
pub struct StrategySummary {
    /// Fingerprint of rules, quota and ban flag.
    pub version: u64,
    /// Rule names (no real upstream model ever travels).
    pub rules: Vec<String>,
    pub quota: QuotaSnapshot,
    pub banned: bool,
    /// Local fetch time (unix seconds; 0 when absent).
    pub fetched_at: u64,
}

impl StrategySummary {
    pub fn duplicate(&self) -> (r: StrategySummary)
        ensures
            r.version == self.version,
            strings_view(r.rules@) == strings_view(self.rules@),
            r.quota == self.quota,
            r.banned == self.banned,
            r.fetched_at == self.fetched_at,
    {
        StrategySummary {
            version: self.version,
            rules: clone_strings(&self.rules),
            quota: self.quota,
            banned: self.banned,
            fetched_at: self.fetched_at,
        }
    }
}

/// Local block.
#[derive(Debug, Clone, PartialEq, Eq, Structural)]
pub enum PreflightBlock {
    /// Banned: 403.
    Banned,
    /// Over quota: 429.
    QuotaExceeded { limit: u64 },
}

/// The local decision: banned first, then a positive ceiling the usage reached.
pub open spec fn spec_preflight(banned: bool, quota: QuotaSnapshot) -> Option<PreflightBlock> {
    if banned {
        Some(PreflightBlock::Banned)
    } else if quota.limit > 0 && quota.used >= quota.limit {
        Some(PreflightBlock::QuotaExceeded { limit: quota.limit })
    } else {
        None
    }
}

/// Pre-request check of a cached summary (`None` = let the request through).
pub fn preflight_block(summary: &StrategySummary) -> (r: Option<PreflightBlock>)
    ensures
        r == spec_preflight(summary.banned, summary.quota),
{
    if summary.banned {
        return Some(PreflightBlock::Banned);
    }
    let limit = summary.quota.limit;
    if limit > 0 && summary.quota.used >= limit {
        return Some(PreflightBlock::QuotaExceeded { limit });
    }
    None
}

/// Strategy cache (the caller loads and saves it).
pub struct StrategyCache {
    inner: Option<StrategySummary>,
}

impl StrategyCache {
    /// The cached summary.
    pub closed spec fn cached(&self) -> Option<StrategySummary> {
        self.inner
    }

    /// A cache holding what was loaded (if anything).
    pub fn new(loaded: Option<StrategySummary>) -> (c: Self)
        ensures
            c.cached() == loaded,
    {
        StrategyCache { inner: loaded }
    }

    pub fn get(&self) -> (r: Option<StrategySummary>)
        ensures
            r is Some == self.cached() is Some,
            r matches Some(s) ==> s.version == self.cached()->0.version && strings_view(s.rules@) == strings_view(
                self.cached()->0.rules@,
            ) && s.quota == self.cached()->0.quota && s.banned == self.cached()->0.banned && s.fetched_at
                == self.cached()->0.fetched_at,
    {
        match &self.inner {
            Some(s) => Some(s.duplicate()),
            None => None,
        }
    }

    /// Replaces the cached summary (a failed fetch keeps the old one).
    pub fn set(&mut self, summary: StrategySummary)
        ensures
            final(self).cached() == Some(summary),
    {
        self.inner = Some(summary);
    }

    /// Rule names of the cached summary (none without a cache).
    pub fn rule_names(&self) -> (r: Vec<String>)
        ensures
            strings_view(r@) == match self.cached() {
                Some(s) => strings_view(s.rules@),
                None => Seq::empty(),
            },
    {
        match &self.inner {
            Some(s) => clone_strings(&s.rules),
            None => {
                let v: Vec<String> = Vec::new();
                assert(strings_view(v@) =~= Seq::empty());
                v
            },
        }
    }

    /// Pre-request check (no cache: let the request through).
    pub fn preflight(&self) -> (r: Option<PreflightBlock>)
        ensures
            r == match self.cached() {
                Some(s) => spec_preflight(s.banned, s.quota),
                None => None,
            },
    {
        match &self.inner {
            Some(s) => preflight_block(s),
            None => None,
        }
    }
}

/// The member's local quota block agrees with the leader's quota check: with
/// the member's ceiling in the leader's table and the usage it reports, the
/// member blocks exactly when the leader would answer 429.
pub proof fn law_preflight_matches_quota(table: Map<Seq<char>, u64>, member: Seq<char>, limit: u64, used: u64)
    ensures
        (spec_preflight(false, QuotaSnapshot { limit, used }) is Some) == crate::quota::spec_over_quota(
            crate::quota::spec_set(table, member, limit),
            member,
            used,
        ),
{
}

} // verus!
