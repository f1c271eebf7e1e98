//! Per-member token quotas (the leader sets a ceiling per member; beyond it the
//! request is answered 429). A limit of 0, or none, means unlimited.
use vstd::prelude::*;
use crate::kvmap::{get_key, key_order, lemma_key_order_covers, lemma_smap_at, put, smap, swf, take_key};
use crate::text::seq_lt;

verus! {

/// Quota exceeded: the member's ceiling (in tokens).
#[derive(Debug, Clone, Copy, PartialEq, Eq, Structural)]
pub struct QuotaExceeded {
    pub limit: u64,
}

/// One member's quota.
#[derive(Debug, Clone)]
pub struct MemberQuota {
    /// Member id (machine name).
    pub member_id: String,
    /// Token ceiling (0 = unlimited).
    pub limit: u64,
}

/// Quota table: member id to ceiling.
pub struct QuotaService {
    quotas: Vec<(String, u64)>,
}

/// The table after `set`: a zero limit lifts the quota, any other stores it.
pub open spec fn spec_set(m: Map<Seq<char>, u64>, member: Seq<char>, limit: u64) -> Map<Seq<char>, u64> {
    if limit == 0 {
        m.remove(member)
    } else {
        m.insert(member, limit)
    }
}

/// A member is over quota when it has a positive ceiling that its usage reached.
pub open spec fn spec_over_quota(m: Map<Seq<char>, u64>, member: Seq<char>, used: u64) -> bool {
    m.contains_key(member) && m[member] > 0 && used >= m[member]
}

impl View for QuotaService {
    type V = Map<Seq<char>, u64>;

    closed spec fn view(&self) -> Map<Seq<char>, u64> {
        smap(self.quotas@)
    }
}

impl QuotaService {
    pub closed spec fn wf(&self) -> bool {
        swf(self.quotas@)
    }

    /// An empty table (what is on disk is loaded by the caller through `load`).
    pub fn new() -> (s: Self)
        ensures
            s.wf(),
            s@ == Map::<Seq<char>, u64>::empty(),
    {
        let s = QuotaService { quotas: Vec::new() };
        assert(smap(s.quotas@) =~= Map::empty());
        s
    }

    /// Replaces the table by persisted entries (a later entry wins).
    pub fn load(&mut self, entries: Vec<(String, u64)>)
        requires
            old(self).wf(),
        ensures
            final(self).wf(),
            final(self)@ == crate::kvmap::map_of(crate::kvmap::string_pairs(entries@)),
    {
        self.quotas = Vec::new();
        assert(smap(self.quotas@) =~= Map::empty());
        let ghost src = crate::kvmap::string_pairs(entries@);
        let mut i: usize = 0;
        assert(src.take(0) =~= Seq::empty());
        while i < entries.len()
            invariant
                i <= entries.len(),
                src == crate::kvmap::string_pairs(entries@),
                swf(self.quotas@),
                smap(self.quotas@) == crate::kvmap::map_of(src.take(i as int)),
            decreases entries.len() - i,
        {
            assert(src.take(i + 1).drop_last() =~= src.take(i as int));
            put(&mut self.quotas, entries[i].0.clone(), entries[i].1);
            i = i + 1;
        }
        assert(src.take(entries.len() as int) =~= src);
    }

    /// Sets a member's quota (0 lifts it).
    pub fn set(&mut self, member_id: &str, limit: u64)
        requires
            old(self).wf(),
        ensures
            final(self).wf(),
            final(self)@ == spec_set(old(self)@, member_id@, limit),
    {
        if limit == 0 {
            let _ = take_key(&mut self.quotas, member_id);
        } else {
            put(&mut self.quotas, member_id.to_owned(), limit);
        }
    }

    /// A member's quota (`None` = unlimited).
    pub fn get(&self, member_id: &str) -> (r: Option<u64>)
        requires
            self.wf(),
        ensures
            r == (if self@.contains_key(member_id@) { Some(self@[member_id@]) } else { None::<u64> }),
    {
        match get_key(&self.quotas, member_id) {
            Some(v) => Some(*v),
            None => None,
        }
    }

    /// All quotas, by ascending member id.
    pub fn all(&self) -> (r: Vec<MemberQuota>)
        requires
            self.wf(),
        ensures
            forall|i: int| 0 <= i < r.len() ==> #[trigger] self@.contains_key(r@[i].member_id@) && self@[r@[i].member_id@] == r@[i].limit,
            forall|i: int, j: int| 0 <= i < j < r.len() ==> seq_lt(#[trigger] r@[i].member_id@, #[trigger] r@[j].member_id@),
            forall|k: Seq<char>| #[trigger] self@.contains_key(k) ==> exists|i: int| 0 <= i < r.len() && r@[i].member_id@ == k,
    {
        let p = key_order(&self.quotas);
        let mut r: Vec<MemberQuota> = Vec::new();
        let mut a: usize = 0;
        while a < p.len()
            invariant
                swf(self.quotas@),
                crate::sort::is_index_perm(p@, self.quotas.len() as nat),
                a <= p.len(),
                r@.len() == a,
                forall|b: int| 0 <= b < a ==> #[trigger] r@[b].member_id@ == self.quotas@[p@[b] as int].0@
                    && r@[b].limit == self.quotas@[p@[b] as int].1,
            decreases p.len() - a,
        {
            let j = p[a];
            r.push(MemberQuota { member_id: self.quotas[j].0.clone(), limit: self.quotas[j].1 });
            a = a + 1;
        }
        proof {
            assert forall|i: int| 0 <= i < r.len() implies #[trigger] self@.contains_key(r@[i].member_id@) && self@[r@[i].member_id@] == r@[i].limit by {
                lemma_smap_at(self.quotas@, p@[i] as int);
            }
            assert forall|i: int, j: int| 0 <= i < j < r.len() implies seq_lt(#[trigger] r@[i].member_id@, #[trigger] r@[j].member_id@) by {
                assert(seq_lt(self.quotas@[p@[i] as int].0@, self.quotas@[p@[j] as int].0@));
            }
            assert forall|k: Seq<char>| #[trigger] self@.contains_key(k) implies exists|i: int| 0 <= i < r.len() && r@[i].member_id@ == k by {
                lemma_key_order_covers(self.quotas@, p@, k);
                let a = choose|a: int| 0 <= a < p@.len() && self.quotas@[p@[a] as int].0@ == k && self.quotas@[p@[a] as int].1 == smap(self.quotas@)[k];
                assert(r@[a].member_id@ == k);
            }
        }
        r
    }

    /// Checks a member's accumulated usage against its quota.
    pub fn check(&self, member_id: &str, used: u64) -> (r: Result<(), QuotaExceeded>)
        requires
            self.wf(),
        ensures
            r is Err <==> spec_over_quota(self@, member_id@, used),
            r matches Err(e) ==> e.limit == self@[member_id@],
    {
        match get_key(&self.quotas, member_id) {
            Some(v) => {
                let limit = *v;
                if limit > 0 && used >= limit {
                    Err(QuotaExceeded { limit })
                } else {
                    Ok(())
                }
            },
            None => Ok(()),
        }
    }

    /// The table as pairs (for persisting).
    pub fn entries(&self) -> (r: Vec<(String, u64)>)
        requires
            self.wf(),
        ensures
            swf(r@),
            smap(r@) == self@,
    {
        let mut r: Vec<(String, u64)> = Vec::new();
        let mut i: usize = 0;
        while i < self.quotas.len()
            invariant
                i <= self.quotas.len(),
                r@ == self.quotas@.take(i as int),
            decreases self.quotas.len() - i,
        {
            r.push((self.quotas[i].0.clone(), self.quotas[i].1));
            assert(self.quotas@.take(i + 1) =~= self.quotas@.take(i as int).push(self.quotas@[i as int]));
            i = i + 1;
        }
        assert(self.quotas@.take(self.quotas.len() as int) =~= self.quotas@);
        assert(r@ == self.quotas@);
        r
    }
}

/// Setting a quota and checking it agree: right after `set(m, limit)`, a usage
/// is over quota exactly when the limit is positive and the usage reached it;
/// a zero limit never blocks.
pub proof fn law_set_then_check(m: Map<Seq<char>, u64>, member: Seq<char>, limit: u64, used: u64)
    ensures
        spec_over_quota(spec_set(m, member, limit), member, used) <==> (limit > 0 && used >= limit),
{
}

/// Setting one member's quota leaves every other member's verdict unchanged.
pub proof fn law_set_is_local(m: Map<Seq<char>, u64>, member: Seq<char>, other: Seq<char>, limit: u64, used: u64)
    requires
        member != other,
    ensures
        spec_over_quota(spec_set(m, member, limit), other, used) == spec_over_quota(m, other, used),
{
}

/// More usage never lifts a block: once over quota, a larger usage stays over it.
pub proof fn law_over_quota_monotone(m: Map<Seq<char>, u64>, member: Seq<char>, used: u64, more: u64)
    requires
        spec_over_quota(m, member, used),
        used <= more,
    ensures
        spec_over_quota(m, member, more),
{
}

} // verus!
