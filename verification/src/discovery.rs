//! Leader discovery: what the announcements heard on the LAN make of the
//! leader list (listening on the socket is the caller's part).
use vstd::prelude::*;
use crate::kvmap::{get_key, lemma_key_order_covers, lemma_smap_at, lemma_smap_len, put, smap, swf};
use crate::text::{concat, decimal, seq_lt, str_eq, trim, trim_ws, u64_decimal};

verus! {

/// A leader heard on the network.
#[derive(Debug, Clone)]
pub struct LeaderInfo {
    /// Service name.
    pub name: String,
    /// API port.
    pub api_port: u16,
    /// Gateway-to-gateway share port (`None`: an older leader; `api_port` serves).
    pub share_port: Option<u16>,
    /// Fingerprint (prefix of the password hash).
    pub fingerprint: String,
    /// Source address (IP).
    pub address: String,
    /// Last heard (unix seconds).
    pub last_seen: u64,
    pub online: bool,
}

/// `http://address:port`.
pub open spec fn http_url(address: Seq<char>, port: u16) -> Seq<char> {
    "http://"@ + address + ":"@ + decimal(port as nat)
}

/// The port members link to: the share port when announced and nonzero,
/// else the API port.
pub open spec fn link_port(l: LeaderInfo) -> u16 {
    match l.share_port {
        Some(p) => if p > 0 { p } else { l.api_port },
        None => l.api_port,
    }
}

/// The leader's identity, `name@address:api_port`.
pub open spec fn leader_id(l: LeaderInfo) -> Seq<char> {
    l.name@ + "@"@ + l.address@ + ":"@ + decimal(l.api_port as nat)
}

fn push_port(base: String, port: u16) -> (s: String)
    ensures
        s@ == base@ + decimal(port as nat),
{
    let d = u64_decimal(port as u64);
    concat(base.as_str(), d.as_str())
}

impl LeaderInfo {
    /// Full API address.
    pub fn api_base(&self) -> (s: String)
        ensures
            s@ == http_url(self.address@, self.api_port),
    {
        let a = concat("http://", self.address.as_str());
        let b = concat(a.as_str(), ":");
        let s = push_port(b, self.api_port);
        assert(s@ =~= http_url(self.address@, self.api_port));
        s
    }

    /// Full gateway link address (share port first, API port for older leaders).
    pub fn link_base(&self) -> (s: String)
        ensures
            s@ == http_url(self.address@, link_port(*self)),
    {
        let p = match self.share_port {
            Some(p) => if p > 0 { p } else { self.api_port },
            None => self.api_port,
        };
        let a = concat("http://", self.address.as_str());
        let b = concat(a.as_str(), ":");
        let s = push_port(b, p);
        assert(s@ =~= http_url(self.address@, link_port(*self)));
        s
    }

    /// Service identity (`name@ip:port`).
    pub fn id(&self) -> (s: String)
        ensures
            s@ == leader_id(*self),
    {
        let a = concat(self.name.as_str(), "@");
        let b = concat(a.as_str(), self.address.as_str());
        let c = concat(b.as_str(), ":");
        let s = push_port(c, self.api_port);
        assert(s@ =~= leader_id(*self));
        s
    }

    pub fn duplicate(&self) -> (r: LeaderInfo)
        ensures
            r == *self,
    {
        LeaderInfo {
            name: self.name.clone(),
            api_port: self.api_port,
            share_port: self.share_port,
            fingerprint: self.fingerprint.clone(),
            address: self.address.clone(),
            last_seen: self.last_seen,
            online: self.online,
        }
    }
}

/// Discovery settings.
#[derive(Debug, Clone, Copy)]
pub struct DiscoveryConfig {
    /// UDP port leaders announce on.
    pub port: u16,
    /// Seconds of silence after which a leader counts as offline.
    pub online_threshold_secs: u64,
}

impl Default for DiscoveryConfig {
    fn default() -> (c: Self)
        ensures
            c.port == 39090,
            c.online_threshold_secs == 30,
    {
        DiscoveryConfig { port: 39090, online_threshold_secs: 30 }
    }
}

/// The fields of an announcement datagram (a JSON object), each present only
/// when the object has it with the right JSON type: `type`, `name` and
/// `fingerprint` as strings, `api_port` and `share_port` as unsigned integers.
#[derive(Debug, Clone)]
pub struct Announce {
    pub kind: Option<String>,
    pub name: Option<String>,
    pub api_port: Option<u64>,
    pub share_port: Option<u64>,
    pub fingerprint: Option<String>,
}

/// The text of an optional string field, empty when absent.
pub open spec fn text_or_empty(s: Option<String>) -> Seq<char> {
    match s {
        Some(t) => t@,
        None => Seq::empty(),
    }
}

/// The API port an announcement gives (taken modulo 2^16; 0 when absent).
pub open spec fn announced_api_port(a: Announce) -> u16 {
    (match a.api_port { Some(p) => p, None => 0u64 }) as u16
}

/// The share port an announcement gives (modulo 2^16; zero counts as absent).
pub open spec fn announced_share_port(a: Announce) -> Option<u16> {
    match a.share_port {
        Some(p) => if (p as u16) > 0 { Some(p as u16) } else { None },
        None => None,
    }
}

/// An announcement names a leader: `type == "AIPG_ANNOUNCE"`, a nonempty
/// name and a nonzero API port.
pub open spec fn announces(a: Announce) -> bool {
    &&& a.kind matches Some(k) && k@ == "AIPG_ANNOUNCE"@
    &&& text_or_empty(a.name).len() > 0
    &&& announced_api_port(a) != 0
}

/// `l` is the leader an announcement heard from `address` at `now` describes.
pub open spec fn describes(a: Announce, address: Seq<char>, now: u64, l: LeaderInfo) -> bool {
    &&& l.name@ == text_or_empty(a.name)
    &&& l.api_port == announced_api_port(a)
    &&& l.share_port == announced_share_port(a)
    &&& l.fingerprint@ == text_or_empty(a.fingerprint)
    &&& l.address@ == address
    &&& l.last_seen == now
    &&& l.online
}

fn text_of(s: &Option<String>) -> (r: String)
    ensures
        r@ == text_or_empty(*s),
{
    match s {
        Some(t) => t.clone(),
        None => String::new(),
    }
}

/// Reads an announcement; `None` when it announces no leader.
pub fn announce_leader(a: &Announce, address: &str, now: u64) -> (r: Option<LeaderInfo>)
    ensures
        r is Some <==> announces(*a),
        r matches Some(l) ==> describes(*a, address@, now, l),
{
    proof {
        reveal_strlit("AIPG_ANNOUNCE");
    }
    let is_announce = match &a.kind {
        Some(k) => str_eq(k.as_str(), "AIPG_ANNOUNCE"),
        None => false,
    };
    let raw_port: u64 = match a.api_port {
        Some(p) => p,
        None => 0,
    };
    let api = raw_port as u16;
    let name = text_of(&a.name);
    if !is_announce || crate::text::char_count(name.as_str()) == 0 || api == 0 {
        return None;
    }
    let share_port = match a.share_port {
        Some(p) => {
            let q = p as u16;
            if q > 0 { Some(q) } else { None }
        },
        None => None,
    };
    Some(LeaderInfo {
        name,
        api_port: api,
        share_port,
        fingerprint: text_of(&a.fingerprint),
        address: address.to_owned(),
        last_seen: now,
        online: true,
    })
}

/// A datagram that only asks leaders to announce themselves.
pub open spec fn is_ping_text(text: Seq<char>) -> bool {
    trim_ws(text) == "AIPG_PING"@
}

/// Whether a datagram is a member's ping rather than an announcement.
pub fn is_ping(text: &str) -> (r: bool)
    ensures
        r == is_ping_text(text@),
{
    let t = trim(text);
    str_eq(t.as_str(), "AIPG_PING")
}

/// `l` as listed at `now`: online when heard within `threshold` seconds.
pub open spec fn leader_as_of(l: LeaderInfo, now: u64, threshold: u64) -> LeaderInfo {
    LeaderInfo { online: crate::member::since(now, l.last_seen) <= threshold, ..l }
}

/// Each of `r` is a leader of `m` as listed at `now`.
pub open spec fn lists_leaders(m: Map<Seq<char>, LeaderInfo>, r: Seq<LeaderInfo>, now: u64, threshold: u64) -> bool {
    forall|i: int| 0 <= i < r.len() ==> #[trigger] m.contains_key(leader_id(r[i]))
        && r[i] == leader_as_of(m[leader_id(r[i])], now, threshold)
}

/// Discovery state: the leaders heard so far, keyed by identity.
pub struct DiscoveryClient {
    cfg: DiscoveryConfig,
    leaders: Vec<(String, LeaderInfo)>,
}

impl View for DiscoveryClient {
    type V = Map<Seq<char>, LeaderInfo>;

    closed spec fn view(&self) -> Map<Seq<char>, LeaderInfo> {
        smap(self.leaders@)
    }
}

impl DiscoveryClient {
    pub closed spec fn wf(&self) -> bool {
        &&& swf(self.leaders@)
        &&& forall|i: int| 0 <= i < self.leaders@.len() ==> (#[trigger] self.leaders@[i]).0@ == leader_id(self.leaders@[i].1)
    }

    /// The settings.
    pub closed spec fn config(&self) -> DiscoveryConfig {
        self.cfg
    }

    /// Every listed leader is filed under its own identity.
    pub proof fn lemma_keys(&self, k: Seq<char>)
        requires
            self.wf(),
            self@.contains_key(k),
        ensures
            leader_id(self@[k]) == k,
    {
        crate::kvmap::lemma_map_of_dom(crate::kvmap::string_pairs(self.leaders@), k);
        let m = choose|m: int| crate::kvmap::key_at(crate::kvmap::string_pairs(self.leaders@), k, m);
        lemma_smap_at(self.leaders@, m);
    }

    pub fn new(cfg: DiscoveryConfig) -> (r: Self)
        ensures
            r.wf(),
            r@ == Map::<Seq<char>, LeaderInfo>::empty(),
            r.config() == cfg,
    {
        let r = DiscoveryClient { cfg, leaders: Vec::new() };
        assert(smap(r.leaders@) =~= Map::empty());
        r
    }

    /// The settings.
    pub fn config_value(&self) -> (c: DiscoveryConfig)
        ensures
            c == self.config(),
    {
        self.cfg
    }

    /// Files a leader under its identity, replacing what was heard of it before.
    pub fn record(&mut self, info: LeaderInfo)
        requires
            old(self).wf(),
        ensures
            final(self).wf(),
            final(self).config() == old(self).config(),
            final(self)@ == old(self)@.insert(leader_id(info), info),
    {
        let id = info.id();
        let ghost before = self.leaders@;
        put(&mut self.leaders, id, info);
        proof {
            assert forall|i: int| 0 <= i < self.leaders@.len() implies (#[trigger] self.leaders@[i]).0@ == leader_id(self.leaders@[i].1) by {
                lemma_smap_at(self.leaders@, i);
                let k = self.leaders@[i].0@;
                if k != leader_id(info) {
                    assert(smap(before).contains_key(k));
                    crate::kvmap::lemma_map_of_dom(crate::kvmap::string_pairs(before), k);
                    let m = choose|m: int| crate::kvmap::key_at(crate::kvmap::string_pairs(before), k, m);
                    lemma_smap_at(before, m);
                }
            }
        }
    }

    /// Takes in an announcement datagram's fields, heard from `address` at `now`.
    pub fn record_announce(&mut self, a: &Announce, address: &str, now: u64) -> (r: Option<LeaderInfo>)
        requires
            old(self).wf(),
        ensures
            final(self).wf(),
            final(self).config() == old(self).config(),
            r is Some <==> announces(*a),
            r matches Some(l) ==> describes(*a, address@, now, l) && final(self)@ == old(self)@.insert(leader_id(l), l),
            r is None ==> final(self)@ == old(self)@,
    {
        match announce_leader(a, address, now) {
            Some(l) => {
                let c = l.duplicate();
                self.record(l);
                Some(c)
            },
            None => None,
        }
    }

    /// The leader filed under `id`, if any.
    pub fn get(&self, id: &str) -> (r: Option<LeaderInfo>)
        requires
            self.wf(),
        ensures
            r is Some == self@.contains_key(id@),
            r matches Some(l) ==> l == self@[id@],
    {
        match get_key(&self.leaders, id) {
            Some(l) => Some(l.duplicate()),
            None => None,
        }
    }

    /// Number of leaders heard.
    pub fn count(&self) -> (n: usize)
        requires
            self.wf(),
        ensures
            n == self@.len(),
    {
        proof {
            lemma_smap_len(self.leaders@);
        }
        self.leaders.len()
    }

    /// The leaders as of `now`, by ascending identity, online recomputed.
    pub fn leaders_at(&self, now: u64) -> (r: Vec<LeaderInfo>)
        requires
            self.wf(),
        ensures
            r.len() == self@.len(),
            lists_leaders(self@, r@, now, self.config().online_threshold_secs),
            forall|i: int, j: int| 0 <= i < j < r.len() ==> seq_lt(leader_id(#[trigger] r@[i]), leader_id(#[trigger] r@[j])),
            forall|k: Seq<char>| #[trigger] self@.contains_key(k) ==> exists|i: int| 0 <= i < r.len() && leader_id(r@[i]) == k,
    {
        let threshold = self.cfg.online_threshold_secs;
        let p = crate::kvmap::key_order(&self.leaders);
        let mut r: Vec<LeaderInfo> = Vec::new();
        let mut a: usize = 0;
        while a < p.len()
            invariant
                self.wf(),
                threshold == self.cfg.online_threshold_secs,
                crate::sort::is_index_perm(p@, self.leaders.len() as nat),
                a <= p.len(),
                r@.len() == a,
                forall|b: int| 0 <= b < a ==> #[trigger] r@[b] == leader_as_of(self.leaders@[p@[b] as int].1, now, threshold),
            decreases p.len() - a,
        {
            let l = &self.leaders[p[a]].1;
            let mut c = l.duplicate();
            c.online = now.saturating_sub(l.last_seen) <= threshold;
            r.push(c);
            a = a + 1;
        }
        proof {
            lemma_smap_len(self.leaders@);
            assert forall|i: int| 0 <= i < r.len() implies #[trigger] self@.contains_key(leader_id(r@[i]))
                && r@[i] == leader_as_of(self@[leader_id(r@[i])], now, self.config().online_threshold_secs) by {
                let x = p@[i] as int;
                lemma_smap_at(self.leaders@, x);
                assert(leader_id(r@[i]) == leader_id(self.leaders@[x].1));
            }
            assert forall|i: int, j: int| 0 <= i < j < r.len() implies seq_lt(leader_id(#[trigger] r@[i]), leader_id(#[trigger] r@[j])) by {
                assert(leader_id(r@[i]) == self.leaders@[p@[i] as int].0@);
                assert(leader_id(r@[j]) == self.leaders@[p@[j] as int].0@);
            }
            assert forall|k: Seq<char>| #[trigger] self@.contains_key(k) implies exists|i: int| 0 <= i < r.len() && leader_id(r@[i]) == k by {
                lemma_key_order_covers(self.leaders@, p@, k);
                let a = choose|a: int| 0 <= a < p@.len() && self.leaders@[p@[a] as int].0@ == k && self.leaders@[p@[a] as int].1 == smap(self.leaders@)[k];
                assert(leader_id(r@[a]) == self.leaders@[p@[a] as int].0@);
            }
        }
        r
    }

    /// The leaders now.
    pub fn leaders(&self) -> (r: Vec<LeaderInfo>)
        requires
            self.wf(),
        ensures
            r.len() == self@.len(),
            forall|i: int, j: int| 0 <= i < j < r.len() ==> seq_lt(leader_id(#[trigger] r@[i]), leader_id(#[trigger] r@[j])),
            exists|now: u64| #[trigger] lists_leaders(self@, r@, now, self.config().online_threshold_secs),
    {
        let now = crate::clock::now_secs();
        self.leaders_at(now)
    }
}

} // verus!

verus! {

/// Hearing the same leader again replaces its entry: the list does not grow,
/// and it holds what was heard last.
pub proof fn law_reannounce_replaces(m: Map<Seq<char>, LeaderInfo>, first: LeaderInfo, again: LeaderInfo)
    requires
        leader_id(first) == leader_id(again),
    ensures
        m.insert(leader_id(first), first).insert(leader_id(again), again) == m.insert(leader_id(again), again),
{
    assert(m.insert(leader_id(first), first).insert(leader_id(again), again) =~= m.insert(leader_id(again), again));
}

} // verus!
