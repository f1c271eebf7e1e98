//! Per-member token metering (fed by the `usage` of API responses).
use vstd::prelude::*;
use crate::kvmap::{find_key, key_order, lemma_key_order_covers, lemma_smap_at, lemma_smap_len, lemma_string_pairs_lookup, put, smap, swf};
use crate::sort::{is_stable_order_u64, occurs_in, stable_order_u64};

verus! {

/// One member's accumulated usage.
#[derive(Debug, Clone)]
pub struct MemberUsage {
    /// Member id (machine name).
    pub member_id: String,
    pub prompt_tokens: u64,
    pub completion_tokens: u64,
    /// Number of calls.
    pub calls: u64,
}

impl MemberUsage {
    pub open spec fn spec_total(&self) -> int {
        self.prompt_tokens + self.completion_tokens
    }

    /// Prompt plus completion tokens.
    pub fn total(&self) -> (t: u64)
        requires
            self.spec_total() <= u64::MAX,
        ensures
            t == self.spec_total(),
    {
        self.prompt_tokens + self.completion_tokens
    }

    pub fn duplicate(&self) -> (r: MemberUsage)
        ensures
            r == *self,
    {
        MemberUsage {
            member_id: self.member_id.clone(),
            prompt_tokens: self.prompt_tokens,
            completion_tokens: self.completion_tokens,
            calls: self.calls,
        }
    }
}

/// Usage of `member` after one more call of `prompt` + `completion` tokens.
pub open spec fn recorded(old: Option<MemberUsage>, member: Seq<char>, prompt: u64, completion: u64, u: MemberUsage) -> bool {
    &&& u.member_id@ == member
    &&& match old {
        Some(o) => {
            &&& u.prompt_tokens == o.prompt_tokens + prompt
            &&& u.completion_tokens == o.completion_tokens + completion
            &&& u.calls == o.calls + 1
        },
        None => {
            &&& u.prompt_tokens == prompt
            &&& u.completion_tokens == completion
            &&& u.calls == 1
        },
    }
}

/// The counters stay in range after recording.
pub open spec fn can_record(old: Option<MemberUsage>, prompt: u64, completion: u64) -> bool {
    match old {
        Some(o) => o.prompt_tokens + prompt + o.completion_tokens + completion <= u64::MAX && o.calls
            < u64::MAX,
        None => prompt + completion <= u64::MAX,
    }
}

/// Usage table: member id to usage.
pub struct UsageService {
    by_member: Vec<(String, MemberUsage)>,
}

impl View for UsageService {
    type V = Map<Seq<char>, MemberUsage>;

    closed spec fn view(&self) -> Map<Seq<char>, MemberUsage> {
        smap(self.by_member@)
    }
}

impl UsageService {
    /// Keys are distinct, each entry is filed under its member id, totals fit in u64.
    pub closed spec fn wf(&self) -> bool {
        &&& swf(self.by_member@)
        &&& forall|i: int| 0 <= i < self.by_member@.len() ==> (#[trigger] self.by_member@[i]).1.member_id@ == self.by_member@[i].0@
        &&& forall|i: int| 0 <= i < self.by_member@.len() ==> (#[trigger] self.by_member@[i]).1.spec_total() <= u64::MAX
    }

    /// Facts every entry of a well-formed table satisfies.
    pub proof fn lemma_entry(&self, k: Seq<char>)
        requires
            self.wf(),
            self@.contains_key(k),
        ensures
            self@[k].member_id@ == k,
            self@[k].spec_total() <= u64::MAX,
    {
        crate::kvmap::lemma_map_of_dom(crate::kvmap::string_pairs(self.by_member@), k);
        let i = choose|i: int| crate::kvmap::key_at(crate::kvmap::string_pairs(self.by_member@), k, i);
        lemma_smap_at(self.by_member@, i);
    }

    /// An empty table.
    pub fn new() -> (s: Self)
        ensures
            s.wf(),
            s@ == Map::<Seq<char>, MemberUsage>::empty(),
    {
        let s = UsageService { by_member: Vec::new() };
        assert(smap(s.by_member@) =~= Map::empty());
        s
    }

    /// Records one call.
    pub fn record(&mut self, member_id: &str, prompt_tokens: u64, completion_tokens: u64)
        requires
            old(self).wf(),
            can_record(
                if old(self)@.contains_key(member_id@) { Some(old(self)@[member_id@]) } else { None },
                prompt_tokens,
                completion_tokens,
            ),
        ensures
            final(self).wf(),
            final(self)@.dom() == old(self)@.dom().insert(member_id@),
            forall|k: Seq<char>| k != member_id@ && #[trigger] old(self)@.contains_key(k) ==> final(self)@[k] == old(self)@[k],
            recorded(
                if old(self)@.contains_key(member_id@) { Some(old(self)@[member_id@]) } else { None },
                member_id@,
                prompt_tokens,
                completion_tokens,
                final(self)@[member_id@],
            ),
    {
        let ghost old_map = self@;
        let found = find_key(&self.by_member, member_id);
        proof {
            lemma_string_pairs_lookup(self.by_member@, member_id@, found);
        }
        let u = match found {
            Some(i) => {
                let o = &self.by_member[i].1;
                proof {
                    lemma_smap_at(self.by_member@, i as int);
                }
                MemberUsage {
                    member_id: member_id.to_owned(),
                    prompt_tokens: o.prompt_tokens + prompt_tokens,
                    completion_tokens: o.completion_tokens + completion_tokens,
                    calls: o.calls + 1,
                }
            },
            None => MemberUsage {
                member_id: member_id.to_owned(),
                prompt_tokens,
                completion_tokens,
                calls: 1,
            },
        };
        let ghost uu = u;
        let ghost before = self.by_member@;
        put(&mut self.by_member, member_id.to_owned(), u);
        proof {
            assert(self@ == old_map.insert(member_id@, uu));
            assert forall|i: int| 0 <= i < self.by_member@.len() implies (#[trigger] self.by_member@[i]).1.member_id@ == self.by_member@[i].0@
                && self.by_member@[i].1.spec_total() <= u64::MAX by {
                lemma_smap_at(self.by_member@, i);
                let k = self.by_member@[i].0@;
                if k != member_id@ {
                    assert(old_map.contains_key(k));
                    crate::kvmap::lemma_map_of_dom(crate::kvmap::string_pairs(before), k);
                    let j = choose|j: int| crate::kvmap::key_at(crate::kvmap::string_pairs(before), k, j);
                    lemma_smap_at(before, j);
                }
            }
            assert(self@.dom() =~= old_map.dom().insert(member_id@));
        }
    }

    /// Restores a persisted entry, filed under its own member id.
    pub fn restore(&mut self, u: MemberUsage)
        requires
            old(self).wf(),
            u.spec_total() <= u64::MAX,
        ensures
            final(self).wf(),
            final(self)@ == old(self)@.insert(u.member_id@, u),
    {
        let ghost old_map = self@;
        let ghost uu = u;
        let ghost before = self.by_member@;
        let key = u.member_id.clone();
        put(&mut self.by_member, key, u);
        proof {
            assert forall|i: int| 0 <= i < self.by_member@.len() implies (#[trigger] self.by_member@[i]).1.member_id@ == self.by_member@[i].0@
                && self.by_member@[i].1.spec_total() <= u64::MAX by {
                lemma_smap_at(self.by_member@, i);
                let k = self.by_member@[i].0@;
                if k != uu.member_id@ {
                    assert(old_map.contains_key(k));
                    crate::kvmap::lemma_map_of_dom(crate::kvmap::string_pairs(before), k);
                    let j = choose|j: int| crate::kvmap::key_at(crate::kvmap::string_pairs(before), k, j);
                    lemma_smap_at(before, j);
                }
            }
        }
    }

    /// One member's usage.
    pub fn get(&self, member_id: &str) -> (r: Option<MemberUsage>)
        requires
            self.wf(),
        ensures
            r is Some == self@.contains_key(member_id@),
            r matches Some(u) ==> u == self@[member_id@],
    {
        match crate::kvmap::get_key(&self.by_member, member_id) {
            Some(u) => Some(u.duplicate()),
            None => None,
        }
    }

    /// Whether `member_id`'s counters can take one more call of these tokens.
    pub fn can_take(&self, member_id: &str, prompt_tokens: u64, completion_tokens: u64) -> (r: bool)
        requires
            self.wf(),
        ensures
            r == can_record(
                if self@.contains_key(member_id@) { Some(self@[member_id@]) } else { None },
                prompt_tokens,
                completion_tokens,
            ),
    {
        match self.get(member_id) {
            Some(u) => {
                if u.calls == u64::MAX {
                    return false;
                }
                match u.prompt_tokens.checked_add(prompt_tokens) {
                    None => false,
                    Some(a) => match a.checked_add(u.completion_tokens) {
                        None => false,
                        Some(b) => b.checked_add(completion_tokens).is_some(),
                    },
                }
            },
            None => prompt_tokens.checked_add(completion_tokens).is_some(),
        }
    }

    /// Everyone's usage, largest total first.
    pub fn all(&self) -> (r: Vec<MemberUsage>)
        requires
            self.wf(),
        ensures
            r.len() == self@.len(),
            forall|i: int| 0 <= i < r.len() ==> #[trigger] self@.contains_key(r@[i].member_id@) && self@[r@[i].member_id@] == r@[i],
            forall|i: int, j: int| 0 <= i < j < r.len() ==> (#[trigger] r@[i]).member_id@ != (#[trigger] r@[j]).member_id@,
            forall|i: int, j: int| 0 <= i < j < r.len() ==> (#[trigger] r@[i]).spec_total() >= (#[trigger] r@[j]).spec_total(),
    {
        let mut keys: Vec<u64> = Vec::new();
        let mut i: usize = 0;
        while i < self.by_member.len()
            invariant
                self.wf(),
                i <= self.by_member.len(),
                keys@.len() == i,
                forall|j: int| 0 <= j < i ==> #[trigger] keys@[j] == u64::MAX - self.by_member@[j].1.spec_total(),
            decreases self.by_member.len() - i,
        {
            let t = self.by_member[i].1.total();
            keys.push(u64::MAX - t);
            i = i + 1;
        }
        let p = stable_order_u64(&keys);
        let mut r: Vec<MemberUsage> = Vec::new();
        let mut a: usize = 0;
        while a < p.len()
            invariant
                self.wf(),
                is_stable_order_u64(keys@, p@),
                keys@.len() == self.by_member.len(),
                a <= p.len(),
                r@.len() == a,
                forall|b: int| 0 <= b < a ==> #[trigger] r@[b] == self.by_member@[p@[b] as int].1,
            decreases p.len() - a,
        {
            r.push(self.by_member[p[a]].1.duplicate());
            a = a + 1;
        }
        proof {
            lemma_smap_len(self.by_member@);
            assert forall|i: int| 0 <= i < r.len() implies #[trigger] self@.contains_key(r@[i].member_id@) && self@[r@[i].member_id@] == r@[i] by {
                lemma_smap_at(self.by_member@, p@[i] as int);
            }
            assert forall|i: int, j: int| 0 <= i < j < r.len() implies (#[trigger] r@[i]).member_id@ != (#[trigger] r@[j]).member_id@ by {
                let x = p@[i] as int;
                let y = p@[j] as int;
                assert(x != y);
                assert(crate::kvmap::string_pairs(self.by_member@)[x].0 == self.by_member@[x].0@);
                assert(crate::kvmap::string_pairs(self.by_member@)[y].0 == self.by_member@[y].0@);
                if x < y {
                    assert(crate::kvmap::string_pairs(self.by_member@)[x].0 != crate::kvmap::string_pairs(self.by_member@)[y].0);
                } else {
                    assert(crate::kvmap::string_pairs(self.by_member@)[y].0 != crate::kvmap::string_pairs(self.by_member@)[x].0);
                }
            }
            assert forall|i: int, j: int| 0 <= i < j < r.len() implies (#[trigger] r@[i]).spec_total() >= (#[trigger] r@[j]).spec_total() by {
                let x = p@[i] as int;
                let y = p@[j] as int;
                assert(crate::sort::before_u64(keys@, x, y));
            }
        }
        r
    }

    /// The table as pairs (for persisting).
    pub fn entries(&self) -> (r: Vec<(String, MemberUsage)>)
        requires
            self.wf(),
        ensures
            swf(r@),
            smap(r@) == self@,
    {
        let mut r: Vec<(String, MemberUsage)> = Vec::new();
        let mut i: usize = 0;
        while i < self.by_member.len()
            invariant
                i <= self.by_member.len(),
                r@ == self.by_member@.take(i as int),
            decreases self.by_member.len() - i,
        {
            r.push((self.by_member[i].0.clone(), self.by_member[i].1.duplicate()));
            assert(self.by_member@.take(i + 1) =~= self.by_member@.take(i as int).push(self.by_member@[i as int]));
            i = i + 1;
        }
        assert(self.by_member@.take(self.by_member.len() as int) =~= self.by_member@);
        assert(r@ == self.by_member@);
        r
    }
}

} // verus!

verus! {

/// Recording a call adds exactly its prompt and completion tokens to the
/// member's total, and one call to its count (nothing counted twice).
pub proof fn law_record_adds_total(old: Option<MemberUsage>, member: Seq<char>, prompt: u64, completion: u64, u: MemberUsage)
    requires
        recorded(old, member, prompt, completion, u),
    ensures
        u.spec_total() == (match old {
            Some(o) => o.spec_total(),
            None => 0,
        }) + prompt + completion,
        u.calls == (match old {
            Some(o) => o.calls + 1,
            None => 1,
        }),
{
}

} // verus!
