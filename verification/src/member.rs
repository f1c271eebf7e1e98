//! Member registry: sign-in, online status, renaming.
use vstd::prelude::*;
use crate::kvmap::{get_key, lemma_smap_at, lemma_smap_len, lemma_smap_pointwise, put, smap, swf, take_key};
use crate::sort::{is_stable_order_u64, stable_order_u64};

verus! {

/// A member of the group.
#[derive(Debug, Clone)]
pub struct Member {
    /// Member id (machine name).
    pub member_id: String,
    pub machine_name: String,
    /// Source IP.
    pub ip: String,
    /// Gateway the member joined (`name:port` of this leader).
    pub gateway_id: String,
    pub display_name: String,
    /// Last heartbeat (unix seconds).
    pub last_seen: u64,
    /// First sign-in (unix seconds).
    pub joined_at: u64,
    pub online: bool,
}

/// `now - then`, or 0 when `then` is later.
pub open spec fn since(now: u64, then: u64) -> int {
    if now >= then { now - then } else { 0 }
}

impl Member {
    /// Online: flagged so and heard from within `timeout` seconds.
    pub fn is_online(&self, now: u64, timeout: u64) -> (r: bool)
        ensures
            r == (self.online && since(now, self.last_seen) <= timeout),
    {
        self.online && now.saturating_sub(self.last_seen) <= timeout
    }

    pub fn duplicate(&self) -> (r: Member)
        ensures
            r == *self,
    {
        Member {
            member_id: self.member_id.clone(),
            machine_name: self.machine_name.clone(),
            ip: self.ip.clone(),
            gateway_id: self.gateway_id.clone(),
            display_name: self.display_name.clone(),
            last_seen: self.last_seen,
            joined_at: self.joined_at,
            online: self.online,
        }
    }
}

/// The entry of a member after it signs in at `now` from `ip` with `display`
/// (empty strings leave the field as it was; a new member shows its machine name).
pub open spec fn signed_in(old: Option<Member>, m: Member, machine: Seq<char>, display: Seq<char>, ip: Seq<char>, gateway: Seq<char>, now: u64) -> bool {
    &&& m.last_seen == now
    &&& m.online
    &&& match old {
        Some(o) => {
            &&& m.member_id@ == o.member_id@
            &&& m.machine_name@ == o.machine_name@
            &&& m.gateway_id@ == o.gateway_id@
            &&& m.joined_at == o.joined_at
            &&& m.ip@ == (if ip.len() > 0 { ip } else { o.ip@ })
            &&& m.display_name@ == (if display.len() > 0 { display } else { o.display_name@ })
        },
        None => {
            &&& m.member_id@ == machine
            &&& m.machine_name@ == machine
            &&& m.gateway_id@ == gateway
            &&& m.joined_at == now
            &&& m.ip@ == ip
            &&& m.display_name@ == (if display.len() > 0 { display } else { machine })
        },
    }
}

/// A member after a sweep at `now`: silent longer than `timeout` means offline.
pub open spec fn swept(m: Member, now: u64, timeout: u64) -> Member {
    if since(now, m.last_seen) > timeout {
        Member { online: false, ..m }
    } else {
        m
    }
}

/// A member as seen at `now`: online only if flagged so and heard from in time.
pub open spec fn as_of(m: Member, now: u64, timeout: u64) -> Member {
    Member { online: m.online && since(now, m.last_seen) <= timeout, ..m }
}

/// `after` is `before` swept at `now`.
pub open spec fn swept_all(before: Map<Seq<char>, Member>, after: Map<Seq<char>, Member>, now: u64, timeout: u64) -> bool {
    forall|k: Seq<char>| #[trigger] after.contains_key(k) ==> after[k] == swept(before[k], now, timeout)
}

/// Every member of `m`, as of `now`, is listed in `r`.
pub open spec fn lists_as_of(m: Map<Seq<char>, Member>, r: Seq<Member>, now: u64, timeout: u64) -> bool {
    forall|k: Seq<char>| #[trigger] m.contains_key(k) ==> exists|i: int| 0 <= i < r.len() && r[i] == as_of(m[k], now, timeout)
}

/// `r` lists the members of `m` as of `now` in the order of the keys `ks`,
/// each key once and every key of `m`.
pub open spec fn listed_by_keys(m: Map<Seq<char>, Member>, r: Seq<Member>, ks: Seq<Seq<char>>, now: u64, timeout: u64) -> bool {
    &&& ks.len() == r.len()
    &&& ks.no_duplicates()
    &&& ks.to_set() == m.dom()
    &&& forall|i: int| 0 <= i < r.len() ==> m.contains_key(#[trigger] ks[i]) && r[i] == as_of(m[ks[i]], now, timeout)
}

/// `r` is a permutation of the members of `m`, each taken as of `now`.
pub open spec fn lists_each_once(m: Map<Seq<char>, Member>, r: Seq<Member>, now: u64, timeout: u64) -> bool {
    exists|ks: Seq<Seq<char>>| #[trigger] listed_by_keys(m, r, ks, now, timeout)
}

/// `x` is some member of `m` as of `now`.
pub open spec fn is_member_as_of(m: Map<Seq<char>, Member>, x: Member, now: u64, timeout: u64) -> bool {
    exists|k: Seq<char>| #[trigger] m.contains_key(k) && x == as_of(m[k], now, timeout)
}

/// Member registry.
pub struct MemberRegistry {
    members: Vec<(String, Member)>,
    /// Heartbeat timeout (seconds).
    timeout_secs: u64,
    gateway_id: String,
}

impl View for MemberRegistry {
    type V = Map<Seq<char>, Member>;

    closed spec fn view(&self) -> Map<Seq<char>, Member> {
        smap(self.members@)
    }
}

impl MemberRegistry {
    pub closed spec fn wf(&self) -> bool {
        swf(self.members@)
    }

    /// Heartbeat timeout (seconds).
    pub closed spec fn timeout(&self) -> u64 {
        self.timeout_secs
    }

    /// This leader's gateway id.
    pub closed spec fn gateway(&self) -> Seq<char> {
        self.gateway_id@
    }

    pub fn new(timeout_secs: u64, gateway_id: &str) -> (r: Self)
        ensures
            r.wf(),
            r@ == Map::<Seq<char>, Member>::empty(),
            r.timeout() == timeout_secs,
            r.gateway() == gateway_id@,
    {
        let r = MemberRegistry { members: Vec::new(), timeout_secs, gateway_id: gateway_id.to_owned() };
        assert(smap(r.members@) =~= Map::empty());
        r
    }

    /// Registers or refreshes a member at time `now`; hands back its entry.
    pub fn upsert_at(&mut self, machine_name: &str, display_name: &str, ip: &str, now: u64) -> (m: Member)
        requires
            old(self).wf(),
        ensures
            final(self).wf(),
            final(self).timeout() == old(self).timeout(),
            final(self).gateway() == old(self).gateway(),
            final(self)@ == old(self)@.insert(machine_name@, m),
            signed_in(
                if old(self)@.contains_key(machine_name@) { Some(old(self)@[machine_name@]) } else { None },
                m,
                machine_name@,
                display_name@,
                ip@,
                old(self).gateway(),
                now,
            ),
    {
        let has_ip = crate::text::char_count(ip) > 0;
        let has_display = crate::text::char_count(display_name) > 0;
        let m = match take_key(&mut self.members, machine_name) {
            Some(o) => Member {
                member_id: o.member_id,
                machine_name: o.machine_name,
                ip: if has_ip { ip.to_owned() } else { o.ip },
                gateway_id: o.gateway_id,
                display_name: if has_display { display_name.to_owned() } else { o.display_name },
                last_seen: now,
                joined_at: o.joined_at,
                online: true,
            },
            None => Member {
                member_id: machine_name.to_owned(),
                machine_name: machine_name.to_owned(),
                ip: ip.to_owned(),
                gateway_id: self.gateway_id.clone(),
                display_name: if has_display { display_name.to_owned() } else { machine_name.to_owned() },
                last_seen: now,
                joined_at: now,
                online: true,
            },
        };
        let r = m.duplicate();
        put(&mut self.members, machine_name.to_owned(), m);
        proof {
            assert(smap(self.members@) =~= old(self)@.insert(machine_name@, r));
        }
        r
    }

    /// Registers or refreshes a member now.
    pub fn upsert(&mut self, machine_name: &str, display_name: &str, ip: &str) -> (m: Member)
        requires
            old(self).wf(),
        ensures
            final(self).wf(),
            final(self).timeout() == old(self).timeout(),
            final(self)@ == old(self)@.insert(machine_name@, m),
            signed_in(
                if old(self)@.contains_key(machine_name@) { Some(old(self)@[machine_name@]) } else { None },
                m,
                machine_name@,
                display_name@,
                ip@,
                old(self).gateway(),
                m.last_seen,
            ),
    {
        let now = crate::clock::now_secs();
        self.upsert_at(machine_name, display_name, ip, now)
    }

    /// Renames a member; false when there is no such member.
    pub fn rename(&mut self, machine_name: &str, new_display: &str) -> (r: bool)
        requires
            old(self).wf(),
        ensures
            final(self).wf(),
            final(self).timeout() == old(self).timeout(),
            final(self).gateway() == old(self).gateway(),
            r == old(self)@.contains_key(machine_name@),
            r ==> final(self)@ == old(self)@.insert(
                machine_name@,
                Member { display_name: final(self)@[machine_name@].display_name, ..old(self)@[machine_name@] },
            ) && final(self)@[machine_name@].display_name@ == new_display@,
            !r ==> final(self)@ == old(self)@,
    {
        match take_key(&mut self.members, machine_name) {
            Some(o) => {
                let m = Member { display_name: new_display.to_owned(), ..o };
                let ghost mm = m;
                put(&mut self.members, machine_name.to_owned(), m);
                proof {
                    assert(smap(self.members@) =~= old(self)@.insert(machine_name@, mm));
                }
                true
            },
            None => {
                proof {
                    assert(old(self)@.remove(machine_name@) =~= old(self)@);
                }
                false
            },
        }
    }

    /// Flags a member offline.
    pub fn mark_offline(&mut self, machine_name: &str)
        requires
            old(self).wf(),
        ensures
            final(self).wf(),
            final(self).timeout() == old(self).timeout(),
            final(self).gateway() == old(self).gateway(),
            old(self)@.contains_key(machine_name@) ==> final(self)@ == old(self)@.insert(
                machine_name@,
                Member { online: false, ..old(self)@[machine_name@] },
            ),
            !old(self)@.contains_key(machine_name@) ==> final(self)@ == old(self)@,
    {
        match take_key(&mut self.members, machine_name) {
            Some(o) => {
                let m = Member { online: false, ..o };
                let ghost mm = m;
                put(&mut self.members, machine_name.to_owned(), m);
                proof {
                    assert(smap(self.members@) =~= old(self)@.insert(machine_name@, mm));
                }
            },
            None => {
                proof {
                    assert(old(self)@.remove(machine_name@) =~= old(self)@);
                }
            },
        }
    }

    /// Flags offline every member silent for longer than the timeout, as of `now`.
    pub fn sweep_at(&mut self, now: u64)
        requires
            old(self).wf(),
        ensures
            final(self).wf(),
            final(self).timeout() == old(self).timeout(),
            final(self).gateway() == old(self).gateway(),
            final(self)@.dom() == old(self)@.dom(),
            forall|k: Seq<char>| #[trigger] final(self)@.contains_key(k) ==> final(self)@[k] == swept(old(self)@[k], now, old(self).timeout()),
    {
        let timeout = self.timeout_secs;
        let mut out: Vec<(String, Member)> = Vec::new();
        let mut i: usize = 0;
        while i < self.members.len()
            invariant
                i <= self.members.len(),
                timeout == self.timeout_secs,
                out@.len() == i,
                forall|j: int| 0 <= j < i ==> (#[trigger] out@[j]).0@ == self.members@[j].0@ && out@[j].1 == swept(self.members@[j].1, now, timeout),
            decreases self.members.len() - i,
        {
            let m = &self.members[i].1;
            let stale = now.saturating_sub(m.last_seen) > timeout;
            let mut c = m.duplicate();
            if stale {
                c.online = false;
            }
            assert(c == swept(self.members@[i as int].1, now, timeout));
            let ghost prev = out@;
            out.push((self.members[i].0.clone(), c));
            assert forall|j: int| 0 <= j < i + 1 implies (#[trigger] out@[j]).0@ == self.members@[j].0@ && out@[j].1 == swept(self.members@[j].1, now, timeout) by {
                if j < i {
                    assert(out@[j] == prev[j]);
                }
            }
            i = i + 1;
        }
        proof {
            let f = |m: Member| swept(m, now, timeout);
            assert forall|i: int| 0 <= i < self.members@.len() implies (#[trigger] out@[i]).0@ == self.members@[i].0@ && out@[i].1 == f(self.members@[i].1) by {
            }
            lemma_smap_pointwise(self.members@, out@, f);
        }
        self.members = out;
    }

    /// Sweeps now.
    pub fn sweep(&mut self)
        requires
            old(self).wf(),
        ensures
            final(self).wf(),
            final(self).timeout() == old(self).timeout(),
            final(self)@.dom() == old(self)@.dom(),
            exists|now: u64| #[trigger] swept_all(old(self)@, final(self)@, now, old(self).timeout()),
    {
        let now = crate::clock::now_secs();
        self.sweep_at(now);
        assert(swept_all(old(self)@, self@, now, old(self).timeout()));
    }

    /// Everyone as of `now` (online recomputed), by ascending sign-in time.
    pub fn all_at(&self, now: u64) -> (r: Vec<Member>)
        requires
            self.wf(),
        ensures
            r.len() == self@.len(),
            forall|i: int| 0 <= i < r.len() ==> #[trigger] is_member_as_of(self@, r@[i], now, self.timeout()),
            forall|i: int, j: int| 0 <= i < j < r.len() ==> (#[trigger] r@[i]).joined_at <= (#[trigger] r@[j]).joined_at,
            forall|k: Seq<char>| #[trigger] self@.contains_key(k) ==> exists|i: int| 0 <= i < r.len() && r@[i] == as_of(self@[k], now, self.timeout()),
            lists_each_once(self@, r@, now, self.timeout()),
    {
        let mut keys: Vec<u64> = Vec::new();
        let mut i: usize = 0;
        while i < self.members.len()
            invariant
                i <= self.members.len(),
                keys@.len() == i,
                forall|j: int| 0 <= j < i ==> #[trigger] keys@[j] == self.members@[j].1.joined_at,
            decreases self.members.len() - i,
        {
            keys.push(self.members[i].1.joined_at);
            i = i + 1;
        }
        let p = stable_order_u64(&keys);
        let mut r: Vec<Member> = Vec::new();
        let mut a: usize = 0;
        while a < p.len()
            invariant
                swf(self.members@),
                is_stable_order_u64(keys@, p@),
                keys@.len() == self.members.len(),
                forall|j: int| 0 <= j < keys@.len() ==> #[trigger] keys@[j] == self.members@[j].1.joined_at,
                a <= p.len(),
                r@.len() == a,
                forall|b: int| 0 <= b < a ==> #[trigger] r@[b] == as_of(self.members@[p@[b] as int].1, now, self.timeout_secs),
            decreases p.len() - a,
        {
            let m = &self.members[p[a]].1;
            let mut c = m.duplicate();
            c.online = m.is_online(now, self.timeout_secs);
            r.push(c);
            a = a + 1;
        }
        proof {
            lemma_smap_len(self.members@);
            assert forall|i: int| 0 <= i < r.len() implies #[trigger] is_member_as_of(self@, r@[i], now, self.timeout()) by {
                lemma_smap_at(self.members@, p@[i] as int);
                let k = self.members@[p@[i] as int].0@;
                assert(self@.contains_key(k));
            }
            assert forall|i: int, j: int| 0 <= i < j < r.len() implies (#[trigger] r@[i]).joined_at <= (#[trigger] r@[j]).joined_at by {
                assert(crate::sort::before_u64(keys@, p@[i] as int, p@[j] as int));
            }
            assert forall|k: Seq<char>| #[trigger] self@.contains_key(k) implies exists|i: int| 0 <= i < r.len() && r@[i] == as_of(self@[k], now, self.timeout()) by {
                crate::kvmap::lemma_key_order_covers(self.members@, p@, k);
                let a = choose|a: int| 0 <= a < p@.len() && self.members@[p@[a] as int].0@ == k && self.members@[p@[a] as int].1 == smap(self.members@)[k];
                assert(r@[a] == as_of(self@[k], now, self.timeout()));
            }
            let ks = Seq::new(p@.len(), |a: int| self.members@[p@[a] as int].0@);
            assert(ks.no_duplicates()) by {
                assert forall|a: int, b: int| 0 <= a < ks.len() && 0 <= b < ks.len() && a != b implies ks[a] != ks[b] by {
                    let x = p@[a] as int;
                    let y = p@[b] as int;
                    assert(x != y);
                    assert(crate::kvmap::string_pairs(self.members@)[x].0 == ks[a]);
                    assert(crate::kvmap::string_pairs(self.members@)[y].0 == ks[b]);
                }
            }
            assert(ks.to_set() =~= self@.dom()) by {
                assert forall|k: Seq<char>| #[trigger] self@.dom().contains(k) implies ks.to_set().contains(k) by {
                    crate::kvmap::lemma_key_order_covers(self.members@, p@, k);
                    let a = choose|a: int| 0 <= a < p@.len() && self.members@[p@[a] as int].0@ == k && self.members@[p@[a] as int].1 == smap(self.members@)[k];
                    assert(ks[a] == k);
                }
                assert forall|k: Seq<char>| #[trigger] ks.to_set().contains(k) implies self@.dom().contains(k) by {
                    let a = choose|a: int| 0 <= a < ks.len() && ks[a] == k;
                    lemma_smap_at(self.members@, p@[a] as int);
                }
            }
            assert forall|i: int| 0 <= i < r.len() implies self@.contains_key(#[trigger] ks[i]) && r@[i] == as_of(self@[ks[i]], now, self.timeout()) by {
                lemma_smap_at(self.members@, p@[i] as int);
            }
            assert(listed_by_keys(self@, r@, ks, now, self.timeout()));
        }
        r
    }

    /// Everyone now.
    pub fn all(&self) -> (r: Vec<Member>)
        requires
            self.wf(),
        ensures
            r.len() == self@.len(),
            forall|i: int, j: int| 0 <= i < j < r.len() ==> (#[trigger] r@[i]).joined_at <= (#[trigger] r@[j]).joined_at,
            exists|now: u64| #![trigger lists_each_once(self@, r@, now, self.timeout())]
                lists_as_of(self@, r@, now, self.timeout()) && lists_each_once(self@, r@, now, self.timeout()),
    {
        let now = crate::clock::now_secs();
        let r = self.all_at(now);
        assert(lists_as_of(self@, r@, now, self.timeout()));
        assert(lists_each_once(self@, r@, now, self.timeout()));
        r
    }
}

} // verus!
