//! Provider health: a per-backend state machine fed by periodic probes.
//!
//! `ok` → (consecutive failures ≥ fail threshold) → `degraded` (still routed,
//! marked down) → (consecutive failures ≥ remove threshold) → `removed` (left
//! out of routing); any success returns to `ok` and clears the failure run.
use vstd::prelude::*;
use crate::kvmap::{get_key, lemma_smap_at, put, smap, swf, take_key};
use crate::backend::BackendEntry;
use crate::text::string_views;

verus! {

/// Health level (green / yellow / red status dot).
#[derive(Debug, Clone, Copy, PartialEq, Eq, Structural)]
pub enum HealthLevel {
    /// Last probe succeeded (or none failed yet).
    Healthy,
    /// Failures reached the fail threshold: routed but marked down.
    Degraded,
    /// Failures reached the remove threshold: out of the candidate list.
    Removed,
}

pub open spec fn level_name(l: HealthLevel) -> Seq<char> {
    match l {
        HealthLevel::Healthy => "ok"@,
        HealthLevel::Degraded => "degraded"@,
        HealthLevel::Removed => "removed"@,
    }
}

impl HealthLevel {
    pub fn as_str(&self) -> (r: &'static str)
        ensures
            r@ == level_name(*self),
    {
        match self {
            HealthLevel::Healthy => "ok",
            HealthLevel::Degraded => "degraded",
            HealthLevel::Removed => "removed",
        }
    }
}

/// The level that a run of `failures` consecutive failures gives.
pub open spec fn level_for(failures: u32, fail_threshold: u32, remove_threshold: u32) -> HealthLevel {
    if failures >= remove_threshold {
        HealthLevel::Removed
    } else if failures >= fail_threshold {
        HealthLevel::Degraded
    } else {
        HealthLevel::Healthy
    }
}

/// One backend's health.
#[derive(Debug, Clone)]
pub struct ProviderState {
    pub level: HealthLevel,
    /// Consecutive failures (cleared by a success).
    pub failures: u32,
    /// Latency of the last success (ms).
    pub latency_ms: Option<u64>,
    /// Reason of the last failure.
    pub last_error: Option<String>,
}

pub open spec fn opt_str_view(s: Option<String>) -> Option<Seq<char>> {
    match s {
        Some(x) => Some(x@),
        None => None,
    }
}

impl ProviderState {
    /// The state of a backend that was never probed.
    pub fn fresh() -> (s: ProviderState)
        ensures
            s.level == HealthLevel::Healthy,
            s.failures == 0,
            s.latency_ms is None,
            s.last_error is None,
    {
        ProviderState { level: HealthLevel::Healthy, failures: 0, latency_ms: None, last_error: None }
    }

    pub fn duplicate(&self) -> (r: ProviderState)
        ensures
            r == *self,
    {
        let e = match &self.last_error {
            Some(x) => Some(x.clone()),
            None => None,
        };
        ProviderState { level: self.level, failures: self.failures, latency_ms: self.latency_ms, last_error: e }
    }

    /// Advances the state machine by one probe outcome.
    pub fn observe(
        &mut self,
        ok: bool,
        latency_ms: Option<u64>,
        error: Option<String>,
        fail_threshold: u32,
        remove_threshold: u32,
    )
        requires
            ok || old(self).failures < u32::MAX,
        ensures
            ok ==> {
                &&& final(self).level == HealthLevel::Healthy
                &&& final(self).failures == 0
                &&& final(self).latency_ms == latency_ms
                &&& final(self).last_error is None
            },
            !ok ==> {
                &&& final(self).failures == old(self).failures + 1
                &&& final(self).level == level_for(final(self).failures, fail_threshold, remove_threshold)
                &&& final(self).latency_ms == old(self).latency_ms
                &&& opt_str_view(final(self).last_error) == opt_str_view(error)
            },
    {
        if ok {
            self.level = HealthLevel::Healthy;
            self.failures = 0;
            self.latency_ms = latency_ms;
            self.last_error = None;
        } else {
            self.failures = self.failures + 1;
            self.level = if self.failures >= remove_threshold {
                HealthLevel::Removed
            } else if self.failures >= fail_threshold {
                HealthLevel::Degraded
            } else {
                HealthLevel::Healthy
            };
            self.last_error = error;
        }
    }
}

/// Polling settings of one backend.
#[derive(Debug, Clone, Copy, PartialEq, Eq, Structural)]
pub struct PollConfig {
    pub enabled: bool,
    /// Seconds between probes (15 by default).
    pub poll_interval_secs: u64,
    /// Consecutive failures before `degraded` (3 by default).
    pub fail_threshold: u32,
    /// Consecutive failures before `removed` (10 by default).
    pub remove_threshold: u32,
}

pub open spec fn default_poll() -> PollConfig {
    PollConfig { enabled: true, poll_interval_secs: 15, fail_threshold: 3, remove_threshold: 10 }
}

impl Default for PollConfig {
    fn default() -> (c: Self)
        ensures
            c == default_poll(),
    {
        PollConfig { enabled: true, poll_interval_secs: 15, fail_threshold: 3, remove_threshold: 10 }
    }
}

/// Whether a backend whose last probe was `elapsed` seconds ago is due again.
pub fn poll_due(elapsed: Option<u64>, cfg: PollConfig) -> (due: bool)
    ensures
        due == match elapsed {
            None => true,
            Some(e) => e >= if cfg.poll_interval_secs >= 1 { cfg.poll_interval_secs } else { 1 },
        },
{
    match elapsed {
        None => true,
        Some(e) => {
            let interval = if cfg.poll_interval_secs >= 1 { cfg.poll_interval_secs } else { 1 };
            e >= interval
        },
    }
}

/// The settings a backend gets when none were set: executor presets poll by
/// default, every other backend does not.
pub open spec fn fallback_config(is_executor: bool) -> PollConfig {
    if is_executor {
        default_poll()
    } else {
        PollConfig { enabled: false, ..default_poll() }
    }
}

/// Health table and polling settings, per backend id.
pub struct HealthMonitor {
    states: Vec<(String, ProviderState)>,
    configs: Vec<(String, PollConfig)>,
}

impl HealthMonitor {
    pub closed spec fn wf(&self) -> bool {
        swf(self.states@) && swf(self.configs@)
    }

    /// Health per backend id.
    pub closed spec fn state_map(&self) -> Map<Seq<char>, ProviderState> {
        smap(self.states@)
    }

    /// Explicit polling settings per backend id.
    pub closed spec fn config_map(&self) -> Map<Seq<char>, PollConfig> {
        smap(self.configs@)
    }

    pub fn new() -> (m: Self)
        ensures
            m.wf(),
            m.state_map() == Map::<Seq<char>, ProviderState>::empty(),
            m.config_map() == Map::<Seq<char>, PollConfig>::empty(),
    {
        let m = HealthMonitor { states: Vec::new(), configs: Vec::new() };
        assert(smap(m.states@) =~= Map::empty());
        assert(smap(m.configs@) =~= Map::empty());
        m
    }

    /// The health table (id, state), in insertion order.
    pub fn states(&self) -> (r: Vec<(String, ProviderState)>)
        requires
            self.wf(),
        ensures
            swf(r@),
            smap(r@) == self.state_map(),
    {
        let mut r: Vec<(String, ProviderState)> = Vec::new();
        let mut i: usize = 0;
        while i < self.states.len()
            invariant
                i <= self.states.len(),
                r@ == self.states@.take(i as int),
            decreases self.states.len() - i,
        {
            r.push((self.states[i].0.clone(), self.states[i].1.duplicate()));
            assert(self.states@.take(i + 1) =~= self.states@.take(i as int).push(self.states@[i as int]));
            i = i + 1;
        }
        assert(self.states@.take(self.states.len() as int) =~= self.states@);
        assert(r@ == self.states@);
        r
    }

    /// One backend's health, if it was ever probed.
    pub fn state(&self, id: &str) -> (r: Option<ProviderState>)
        requires
            self.wf(),
        ensures
            r is Some == self.state_map().contains_key(id@),
            r matches Some(s) ==> s == self.state_map()[id@],
    {
        match get_key(&self.states, id) {
            Some(s) => Some(s.duplicate()),
            None => None,
        }
    }

    /// A backend's polling settings: explicit ones first, else the fallback.
    pub fn config(&self, id: &str, is_executor: bool) -> (c: PollConfig)
        requires
            self.wf(),
        ensures
            c == (if self.config_map().contains_key(id@) {
                self.config_map()[id@]
            } else {
                fallback_config(is_executor)
            }),
    {
        match get_key(&self.configs, id) {
            Some(c) => *c,
            None => {
                let d = PollConfig::default();
                if is_executor {
                    d
                } else {
                    PollConfig { enabled: false, ..d }
                }
            },
        }
    }

    /// Sets a backend's polling settings.
    pub fn set_config(&mut self, id: &str, cfg: PollConfig)
        requires
            old(self).wf(),
        ensures
            final(self).wf(),
            final(self).config_map() == old(self).config_map().insert(id@, cfg),
            final(self).state_map() == old(self).state_map(),
    {
        put(&mut self.configs, id.to_owned(), cfg);
    }

    /// Forgets a backend's health and settings (after it is deleted).
    pub fn remove(&mut self, id: &str)
        requires
            old(self).wf(),
        ensures
            final(self).wf(),
            final(self).state_map() == old(self).state_map().remove(id@),
            final(self).config_map() == old(self).config_map().remove(id@),
    {
        let _ = take_key(&mut self.states, id);
        let _ = take_key(&mut self.configs, id);
    }

    /// Feeds one probe outcome of backend `id` into its state machine (a backend
    /// never seen starts fresh), with the thresholds of `cfg`.
    pub fn record_probe(&mut self, id: &str, ok: bool, latency_ms: Option<u64>, error: Option<String>, cfg: PollConfig)
        requires
            old(self).wf(),
            old(self).state_map().contains_key(id@) && !ok ==> old(self).state_map()[id@].failures < u32::MAX,
        ensures
            final(self).wf(),
            final(self).config_map() == old(self).config_map(),
            final(self).state_map().dom() == old(self).state_map().dom().insert(id@),
            forall|k: Seq<char>| k != id@ && #[trigger] old(self).state_map().contains_key(k) ==> final(self).state_map()[k] == old(self).state_map()[k],
            ({
                let before = if old(self).state_map().contains_key(id@) {
                    old(self).state_map()[id@]
                } else {
                    ProviderState { level: HealthLevel::Healthy, failures: 0, latency_ms: None, last_error: None }
                };
                let after = final(self).state_map()[id@];
                &&& ok ==> after.level == HealthLevel::Healthy && after.failures == 0 && after.latency_ms == latency_ms && after.last_error is None
                &&& !ok ==> after.failures == before.failures + 1 && after.level == level_for(after.failures, cfg.fail_threshold, cfg.remove_threshold)
                    && after.latency_ms == before.latency_ms && opt_str_view(after.last_error) == opt_str_view(error)
            }),
    {
        let ghost old_map = smap(self.states@);
        let mut st = match take_key(&mut self.states, id) {
            Some(s) => s,
            None => ProviderState::fresh(),
        };
        st.observe(ok, latency_ms, error, cfg.fail_threshold, cfg.remove_threshold);
        put(&mut self.states, id.to_owned(), st);
        proof {
            assert(smap(self.states@).dom() =~= old_map.dom().insert(id@));
        }
    }
}

/// Whether a provider string names a supply-side executor preset (`pair` or
/// `agent`), which polls by default.
pub fn is_executor_provider(provider: &str) -> (r: bool)
    ensures
        r == (provider@ == "pair"@ || provider@ == "agent"@),
{
    crate::text::str_eq(provider, "pair") || crate::text::str_eq(provider, "agent")
}

/// From a fresh state, `n` consecutive failures give a failure count of `n`
/// and the level that count calls for; a success after any run of failures
/// returns to `ok` with the count cleared.
pub open spec fn after_failures(n: nat, ft: u32, rt: u32) -> (u32, HealthLevel)
    decreases n,
{
    if n == 0 {
        (0, HealthLevel::Healthy)
    } else {
        let prev = after_failures((n - 1) as nat, ft, rt);
        let f = (prev.0 + 1) as u32;
        (f, level_for(f, ft, rt))
    }
}

/// The failure count after `n` failures is `n`, and the level is the one the
/// thresholds assign to it: below the fail threshold `ok`, from it `degraded`,
/// from the remove threshold `removed`.
pub proof fn law_failure_run(n: nat, ft: u32, rt: u32)
    requires
        n <= u32::MAX,
    ensures
        after_failures(n, ft, rt).0 == n,
        n > 0 ==> after_failures(n, ft, rt).1 == level_for(n as u32, ft, rt),
    decreases n,
{
    if n > 0 {
        law_failure_run((n - 1) as nat, ft, rt);
    }
}

/// With positive thresholds, the level always agrees with the failure count:
/// every observation keeps `level == level_for(failures)`.
pub proof fn law_level_tracks_failures(before: ProviderState, after: ProviderState, ok: bool, latency_ms: Option<u64>, error: Option<String>, ft: u32, rt: u32)
    requires
        ft >= 1,
        rt >= 1,
        before.level == level_for(before.failures, ft, rt),
        ok ==> after.level == HealthLevel::Healthy && after.failures == 0,
        !ok ==> after.failures == before.failures + 1 && after.level == level_for(after.failures, ft, rt),
    ensures
        after.level == level_for(after.failures, ft, rt),
{
}

} // verus!

verus! {

/// The routing key of an entry: its `id`, else its provider.
pub open spec fn entry_id(e: BackendEntry) -> Seq<char> {
    match e.id {
        Some(i) => i@,
        None => e.provider@,
    }
}

impl HealthMonitor {
    /// Polling is on for an entry: its settings, or the fallback for its
    /// kind (executor presets poll by default).
    pub open spec fn polls(&self, e: BackendEntry) -> bool {
        (if self.config_map().contains_key(entry_id(e)) {
            self.config_map()[entry_id(e)]
        } else {
            fallback_config(e.provider@ == "pair"@ || e.provider@ == "agent"@)
        }).enabled
    }

    /// The ids of the entries with polling on, in entry order: what each
    /// tick of the monitor probes (the loop stops when there are none).
    pub fn enabled_ids(&self, entries: &Vec<BackendEntry>) -> (r: Vec<String>)
        requires
            self.wf(),
        ensures
            string_views(r@) == entries@.filter(|e: BackendEntry| self.polls(e)).map_values(|e: BackendEntry| entry_id(e)),
    {
        let mut r: Vec<String> = Vec::new();
        let mut i: usize = 0;
        while i < entries.len()
            invariant
                self.wf(),
                i <= entries.len(),
                string_views(r@) == entries@.take(i as int).filter(|e: BackendEntry| self.polls(e)).map_values(|e: BackendEntry| entry_id(e)),
            decreases entries.len() - i,
        {
            let e = &entries[i];
            let id = e.backend_id();
            let executor = is_executor_provider(e.provider.as_str());
            let c = self.config(id.as_str(), executor);
            let ghost before = string_views(r@);
            proof {
                reveal(Seq::filter);
                assert(entries@.take(i + 1).drop_last() =~= entries@.take(i as int));
            }
            if c.enabled {
                r.push(id);
                assert(string_views(r@) =~= before.push(entry_id(entries@[i as int])));
            }
            assert(string_views(r@) =~= entries@.take(i + 1).filter(|e: BackendEntry| self.polls(e)).map_values(|e: BackendEntry| entry_id(e)));
            i = i + 1;
        }
        assert(entries@.take(entries.len() as int) =~= entries@);
        r
    }

    /// Whether some entry has polling on (the monitor only runs then).
    pub fn has_enabled(&self, entries: &Vec<BackendEntry>) -> (b: bool)
        requires
            self.wf(),
        ensures
            b == exists|i: int| 0 <= i < entries@.len() && self.polls(#[trigger] entries@[i]),
    {
        let ids = self.enabled_ids(entries);
        proof {
            let f = entries@.filter(|e: BackendEntry| self.polls(e));
            assert(string_views(ids@).len() == ids@.len());
            assert(f.map_values(|e: BackendEntry| entry_id(e)).len() == f.len());
            if exists|i: int| 0 <= i < entries@.len() && self.polls(#[trigger] entries@[i]) {
                let i = choose|i: int| 0 <= i < entries@.len() && self.polls(#[trigger] entries@[i]);
                entries@.lemma_filter_contains(|e: BackendEntry| self.polls(e), i);
                assert(f.len() > 0);
            } else {
                if f.len() > 0 {
                    assert(f.contains(f[0]));
                    entries@.lemma_filter_contains_rev(|e: BackendEntry| self.polls(e), f[0]);
                    entries@.lemma_filter_pred(|e: BackendEntry| self.polls(e), 0);
                    let k = choose|k: int| 0 <= k < entries@.len() && entries@[k] == f[0];
                    assert(self.polls(entries@[k]));
                }
            }
        }
        ids.len() > 0
    }
}

} // verus!
