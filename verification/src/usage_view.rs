//! A member's own token usage, per leader.
use vstd::prelude::*;
use crate::kvmap::{get_key, put, smap, swf};

verus! {

/// Personal usage.
#[derive(Debug, Clone)]
pub struct PersonalUsage {
    pub prompt_tokens: u64,
    pub completion_tokens: u64,
    pub calls: u64,
    /// Tokens per leader name.
    pub leaders: Vec<(String, u64)>,
}

/// The counters can take one more call of `prompt` + `completion` tokens via `leader`.
pub open spec fn can_add(u: PersonalUsage, leader: Seq<char>, prompt: u64, completion: u64) -> bool {
    &&& u.prompt_tokens + prompt <= u64::MAX
    &&& u.completion_tokens + completion <= u64::MAX
    &&& u.calls < u64::MAX
    &&& (if smap(u.leaders@).contains_key(leader) { smap(u.leaders@)[leader] } else { 0 }) + prompt + completion <= u64::MAX
}

impl PersonalUsage {
    /// Nothing used yet.
    pub fn new() -> (u: PersonalUsage)
        ensures
            u.prompt_tokens == 0 && u.completion_tokens == 0 && u.calls == 0,
            swf(u.leaders@),
            smap(u.leaders@) == Map::<Seq<char>, u64>::empty(),
    {
        let u = PersonalUsage { prompt_tokens: 0, completion_tokens: 0, calls: 0, leaders: Vec::new() };
        assert(smap(u.leaders@) =~= Map::empty());
        u
    }

    /// Prompt plus completion tokens.
    pub fn total(&self) -> (t: u64)
        requires
            self.prompt_tokens + self.completion_tokens <= u64::MAX,
        ensures
            t == self.prompt_tokens + self.completion_tokens,
    {
        self.prompt_tokens + self.completion_tokens
    }

    /// Tokens used via `leader`.
    pub fn leader_tokens(&self, leader: &str) -> (r: Option<u64>)
        requires
            swf(self.leaders@),
        ensures
            r == (if smap(self.leaders@).contains_key(leader@) { Some(smap(self.leaders@)[leader@]) } else { None::<u64> }),
    {
        match get_key(&self.leaders, leader) {
            Some(v) => Some(*v),
            None => None,
        }
    }

    /// Records one call.
    pub fn record(&mut self, leader: &str, prompt: u64, completion: u64)
        requires
            swf(old(self).leaders@),
            can_add(*old(self), leader@, prompt, completion),
        ensures
            swf(final(self).leaders@),
            final(self).prompt_tokens == old(self).prompt_tokens + prompt,
            final(self).completion_tokens == old(self).completion_tokens + completion,
            final(self).calls == old(self).calls + 1,
            smap(final(self).leaders@) == smap(old(self).leaders@).insert(
                leader@,
                ((if smap(old(self).leaders@).contains_key(leader@) { smap(old(self).leaders@)[leader@] } else { 0 }) + prompt
                    + completion) as u64,
            ),
    {
        self.prompt_tokens = self.prompt_tokens + prompt;
        self.completion_tokens = self.completion_tokens + completion;
        self.calls = self.calls + 1;
        let prev = match get_key(&self.leaders, leader) {
            Some(v) => *v,
            None => 0,
        };
        put(&mut self.leaders, leader.to_owned(), prev + prompt + completion);
    }

    pub fn duplicate(&self) -> (r: PersonalUsage)
        ensures
            r.prompt_tokens == self.prompt_tokens,
            r.completion_tokens == self.completion_tokens,
            r.calls == self.calls,
            r.leaders@ == self.leaders@,
    {
        let mut l: Vec<(String, u64)> = Vec::new();
        let mut i: usize = 0;
        while i < self.leaders.len()
            invariant
                i <= self.leaders.len(),
                l@ == self.leaders@.take(i as int),
            decreases self.leaders.len() - i,
        {
            l.push((self.leaders[i].0.clone(), self.leaders[i].1));
            assert(self.leaders@.take(i + 1) =~= self.leaders@.take(i as int).push(self.leaders@[i as int]));
            i = i + 1;
        }
        assert(self.leaders@.take(self.leaders.len() as int) =~= self.leaders@);
        PersonalUsage {
            prompt_tokens: self.prompt_tokens,
            completion_tokens: self.completion_tokens,
            calls: self.calls,
            leaders: l,
        }
    }
}

/// Usage view held by the member gateway (the caller persists it).
pub struct UsageView {
    inner: PersonalUsage,
}

impl UsageView {
    pub closed spec fn usage(&self) -> PersonalUsage {
        self.inner
    }

    pub closed spec fn wf(&self) -> bool {
        swf(self.inner.leaders@)
    }

    /// Starts from `loaded` (what was persisted), or from nothing.
    pub fn new(loaded: Option<PersonalUsage>) -> (v: Self)
        requires
            loaded matches Some(u) ==> swf(u.leaders@),
        ensures
            v.wf(),
            loaded matches Some(u) ==> v.usage() == u,
            loaded is None ==> v.usage().prompt_tokens == 0 && v.usage().completion_tokens == 0 && v.usage().calls == 0
                && smap(v.usage().leaders@) == Map::<Seq<char>, u64>::empty(),
    {
        match loaded {
            Some(u) => UsageView { inner: u },
            None => UsageView { inner: PersonalUsage::new() },
        }
    }

    /// Records one call.
    pub fn record(&mut self, leader: &str, prompt: u64, completion: u64)
        requires
            old(self).wf(),
            can_add(old(self).usage(), leader@, prompt, completion),
        ensures
            final(self).wf(),
            final(self).usage().prompt_tokens == old(self).usage().prompt_tokens + prompt,
            final(self).usage().completion_tokens == old(self).usage().completion_tokens + completion,
            final(self).usage().calls == old(self).usage().calls + 1,
            smap(final(self).usage().leaders@) == smap(old(self).usage().leaders@).insert(
                leader@,
                ((if smap(old(self).usage().leaders@).contains_key(leader@) {
                    smap(old(self).usage().leaders@)[leader@]
                } else {
                    0
                }) + prompt + completion) as u64,
            ),
    {
        self.inner.record(leader, prompt, completion);
    }

    /// A copy of the usage.
    pub fn get(&self) -> (u: PersonalUsage)
        ensures
            u.prompt_tokens == self.usage().prompt_tokens,
            u.completion_tokens == self.usage().completion_tokens,
            u.calls == self.usage().calls,
            u.leaders@ == self.usage().leaders@,
    {
        self.inner.duplicate()
    }

    /// Total tokens.
    pub fn total(&self) -> (t: u64)
        requires
            self.usage().prompt_tokens + self.usage().completion_tokens <= u64::MAX,
        ensures
            t == self.usage().prompt_tokens + self.usage().completion_tokens,
    {
        self.inner.total()
    }
}

} // verus!
