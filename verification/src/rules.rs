//! Rule execution engine: a requested model name may be a rule-set name, which
//! resolves into an ordered list of real upstream candidate models.
use vstd::prelude::*;
use crate::kvmap::{
    key_at, keys_distinct, lemma_keys_distinct_push, lemma_map_of_absent, lemma_map_of_dom,
    lemma_map_of_len, lemma_map_of_push, lemma_map_of_remove, lemma_map_of_update,
    lemma_map_of_value, map_of,
};
use crate::sort::{is_stable_order_str, is_stable_order_u64, occurs_in, stable_order_str, stable_order_u64};
use crate::text::{clone_strings, chars_of, char_count, lemma_seq_lt_irreflexive, seq_lt, str_eq};

verus! {

/// A rule candidate: a real upstream model and the largest prompt it accepts.
#[derive(Debug, Clone, PartialEq)]
pub struct Candidate {
    /// Real upstream model name.
    pub model: String,
    /// Largest prompt (in tokens) this model takes; `None` = unbounded (last resort).
    pub max_prompt_tokens: Option<u64>,
}

/// One rule of a rule set: its candidates and how to pick among them.
#[derive(Debug, Clone, PartialEq)]
pub struct Rule {
    /// Sub-model match: `"*"` (catch-all) or an exact model name.
    pub match_model: String,
    /// Selection order when no `match_model` applies (smallest first).
    pub order: u32,
    /// `"token_tier"` (default) or `"fixed"`.
    pub strategy: String,
    /// Candidate sequence.
    pub candidates: Vec<Candidate>,
    /// Models tried after every candidate (appended at the end, unbounded).
    pub fallback: Vec<String>,
}

/// A rule set; the `model` field of a request names it.
#[derive(Debug, Clone, PartialEq)]
pub struct RuleSet {
    pub id: String,
    /// The rule name a request writes as its model.
    pub name: String,
    pub version: u64,
    pub rules: Vec<Rule>,
}

/// Outcome of resolving a rule name.
#[derive(Debug, Clone, PartialEq)]
pub struct Resolution {
    /// Name of the matched rule set.
    pub rule_set: String,
    /// Filtered, ordered candidate models (fallback already appended).
    pub candidates: Vec<String>,
}

/// Abstract candidate.
pub struct CandidateView {
    pub model: Seq<char>,
    pub max_prompt_tokens: Option<u64>,
}

/// Abstract rule.
pub struct RuleView {
    pub match_model: Seq<char>,
    pub order: u32,
    pub strategy: Seq<char>,
    pub candidates: Seq<CandidateView>,
    pub fallback: Seq<Seq<char>>,
}

/// Abstract rule set.
pub struct RuleSetView {
    pub id: Seq<char>,
    pub name: Seq<char>,
    pub version: u64,
    pub rules: Seq<RuleView>,
}

impl View for Candidate {
    type V = CandidateView;

    open spec fn view(&self) -> CandidateView {
        CandidateView { model: self.model@, max_prompt_tokens: self.max_prompt_tokens }
    }
}

pub open spec fn strings_view(v: Seq<String>) -> Seq<Seq<char>> {
    v.map_values(|s: String| s@)
}

pub open spec fn candidates_view(v: Seq<Candidate>) -> Seq<CandidateView> {
    v.map_values(|c: Candidate| c@)
}

pub open spec fn rules_view(v: Seq<Rule>) -> Seq<RuleView> {
    v.map_values(|r: Rule| r@)
}

impl View for Rule {
    type V = RuleView;

    open spec fn view(&self) -> RuleView {
        RuleView {
            match_model: self.match_model@,
            order: self.order,
            strategy: self.strategy@,
            candidates: candidates_view(self.candidates@),
            fallback: strings_view(self.fallback@),
        }
    }
}

impl View for RuleSet {
    type V = RuleSetView;

    open spec fn view(&self) -> RuleSetView {
        RuleSetView {
            id: self.id@,
            name: self.name@,
            version: self.version,
            rules: rules_view(self.rules@),
        }
    }
}

impl Candidate {
    pub fn duplicate(&self) -> (r: Candidate)
        ensures
            r == *self,
    {
        Candidate { model: self.model.clone(), max_prompt_tokens: self.max_prompt_tokens }
    }
}

impl Rule {
    pub fn duplicate(&self) -> (r: Rule)
        ensures
            r@ == self@,
    {
        let mut cands: Vec<Candidate> = Vec::new();
        let mut i: usize = 0;
        while i < self.candidates.len()
            invariant
                i <= self.candidates.len(),
                cands@ == self.candidates@.take(i as int),
            decreases self.candidates.len() - i,
        {
            cands.push(self.candidates[i].duplicate());
            assert(self.candidates@.take(i + 1) =~= self.candidates@.take(i as int).push(self.candidates@[i as int]));
            i = i + 1;
        }
        assert(self.candidates@.take(self.candidates.len() as int) =~= self.candidates@);
        Rule {
            match_model: self.match_model.clone(),
            order: self.order,
            strategy: self.strategy.clone(),
            candidates: cands,
            fallback: clone_strings(&self.fallback),
        }
    }
}

impl RuleSet {
    pub fn duplicate(&self) -> (r: RuleSet)
        ensures
            r@ == self@,
    {
        let mut rules: Vec<Rule> = Vec::new();
        let mut i: usize = 0;
        while i < self.rules.len()
            invariant
                i <= self.rules.len(),
                rules@.len() == i,
                rules_view(rules@) == rules_view(self.rules@.take(i as int)),
            decreases self.rules.len() - i,
        {
            let ghost prev = rules@;
            let d = self.rules[i].duplicate();
            rules.push(d);
            assert forall|j: int| 0 <= j < i + 1 implies #[trigger] rules_view(rules@)[j] == rules_view(self.rules@.take(i + 1))[j] by {
                if j < i {
                    assert(rules@[j] == prev[j]);
                    assert(rules_view(prev)[j] == rules_view(self.rules@.take(i as int))[j]);
                }
            }
            assert(rules_view(rules@) =~= rules_view(self.rules@.take(i + 1)));
            i = i + 1;
        }
        assert(self.rules@.take(self.rules.len() as int) =~= self.rules@);
        RuleSet { id: self.id.clone(), name: self.name.clone(), version: self.version, rules }
    }
}

impl Resolution {
    /// First candidate (streaming and Anthropic paths always take candidate 0).
    pub fn first(&self) -> (r: Option<&str>)
        ensures
            r is Some <==> self.candidates.len() > 0,
            r matches Some(s) ==> s@ == self.candidates@[0]@,
    {
        if self.candidates.len() > 0 {
            Some(self.candidates[0].as_str())
        } else {
            None
        }
    }
}

} // verus!

verus! {

/// Rule `i` is the first whose `match_model` is `m`.
pub open spec fn first_match(rules: Seq<RuleView>, m: Seq<char>, i: int) -> bool {
    &&& 0 <= i < rules.len()
    &&& rules[i].match_model == m
    &&& forall|j: int| 0 <= j < i ==> rules[j].match_model != m
}

/// Some rule has `match_model == m`.
pub open spec fn has_match(rules: Seq<RuleView>, m: Seq<char>) -> bool {
    exists|j: int| 0 <= j < rules.len() && rules[j].match_model == m
}

/// Rule `i` is the first rule of smallest `order`.
pub open spec fn first_min_order(rules: Seq<RuleView>, i: int) -> bool {
    &&& 0 <= i < rules.len()
    &&& forall|j: int| 0 <= j < rules.len() ==> rules[i].order <= rules[j].order
    &&& forall|j: int| 0 <= j < i ==> rules[j].order != rules[i].order
}

/// Rule selection: `match_model == "*"` first, else `match_model == requested`,
/// else the smallest `order` (the first one on ties).
pub open spec fn selected_rule(rules: Seq<RuleView>, requested: Seq<char>, i: int) -> bool {
    if has_match(rules, "*"@) {
        first_match(rules, "*"@, i)
    } else if has_match(rules, requested) {
        first_match(rules, requested, i)
    } else {
        first_min_order(rules, i)
    }
}

/// A candidate fits when its context bound (if any) holds the estimated prompt.
pub open spec fn fits(c: CandidateView, est: u64) -> bool {
    match c.max_prompt_tokens {
        Some(m) => m >= est,
        None => true,
    }
}

/// The fitting candidates, in their given order.
pub open spec fn fitting(cs: Seq<CandidateView>, est: u64) -> Seq<CandidateView>
    decreases cs.len(),
{
    if cs.len() == 0 {
        Seq::empty()
    } else {
        let rest = fitting(cs.drop_last(), est);
        if fits(cs.last(), est) {
            rest.push(cs.last())
        } else {
            rest
        }
    }
}

/// Sort key of the token tier: the context bound, unbounded candidates last.
pub open spec fn tier_key(c: CandidateView) -> u64 {
    match c.max_prompt_tokens {
        Some(m) => m,
        None => u64::MAX,
    }
}

pub open spec fn tier_keys(cs: Seq<CandidateView>) -> Seq<u64> {
    cs.map_values(|c: CandidateView| tier_key(c))
}

/// The models of the candidates, empty names left out.
pub open spec fn model_list(cs: Seq<CandidateView>) -> Seq<Seq<char>>
    decreases cs.len(),
{
    if cs.len() == 0 {
        Seq::empty()
    } else {
        let rest = model_list(cs.drop_last());
        if cs.last().model.len() > 0 {
            rest.push(cs.last().model)
        } else {
            rest
        }
    }
}

/// The non-empty names, in order.
pub open spec fn nonempty(ss: Seq<Seq<char>>) -> Seq<Seq<char>>
    decreases ss.len(),
{
    if ss.len() == 0 {
        Seq::empty()
    } else {
        let rest = nonempty(ss.drop_last());
        if ss.last().len() > 0 {
            rest.push(ss.last())
        } else {
            rest
        }
    }
}

/// `out` is `cs` stably sorted by ascending tier key.
pub open spec fn tier_ordered(cs: Seq<CandidateView>, out: Seq<CandidateView>) -> bool {
    exists|p: Seq<usize>|
        is_stable_order_u64(tier_keys(cs), p) && out == p.map_values(|j: usize| cs[j as int])
}

/// The candidate list a rule yields for an estimated prompt size: `fixed` keeps
/// the given order; `token_tier` drops candidates whose bound is below the
/// estimate and sorts the rest by ascending bound (unbounded last, stable);
/// both append the non-empty fallback models.
pub open spec fn rule_candidates(rule: RuleView, est: u64, out: Seq<Seq<char>>) -> bool {
    if rule.strategy == "fixed"@ {
        out == model_list(rule.candidates) + nonempty(rule.fallback)
    } else {
        exists|ordered: Seq<CandidateView>|
            tier_ordered(fitting(rule.candidates, est), ordered) && out == model_list(ordered)
                + nonempty(rule.fallback)
    }
}

/// Picks the rule a request uses.
pub fn select_rule(rules: &Vec<Rule>, requested: &str) -> (r: Option<usize>)
    ensures
        r is None <==> rules.len() == 0,
        r matches Some(i) ==> selected_rule(rules_view(rules@), requested@, i as int),
{
    let ghost rv = rules_view(rules@);
    let mut j: usize = 0;
    while j < rules.len()
        invariant
            rv == rules_view(rules@),
            j <= rules.len(),
            forall|k: int| 0 <= k < j ==> rv[k].match_model != "*"@,
        decreases rules.len() - j,
    {
        if str_eq(rules[j].match_model.as_str(), "*") {
            return Some(j);
        }
        j = j + 1;
    }
    j = 0;
    while j < rules.len()
        invariant
            rv == rules_view(rules@),
            j <= rules.len(),
            !has_match(rv, "*"@),
            forall|k: int| 0 <= k < j ==> rv[k].match_model != requested@,
        decreases rules.len() - j,
    {
        if str_eq(rules[j].match_model.as_str(), requested) {
            return Some(j);
        }
        j = j + 1;
    }
    if rules.len() == 0 {
        return None;
    }
    let mut best: usize = 0;
    j = 1;
    while j < rules.len()
        invariant
            rv == rules_view(rules@),
            1 <= j <= rules.len(),
            best < j,
            !has_match(rv, "*"@),
            !has_match(rv, requested@),
            forall|k: int| 0 <= k < j ==> rv[best as int].order <= rv[k].order,
            forall|k: int| 0 <= k < best ==> rv[k].order != rv[best as int].order,
        decreases rules.len() - j,
    {
        if rules[j].order < rules[best].order {
            best = j;
        }
        j = j + 1;
    }
    Some(best)
}

/// Non-empty model names of `cs`, in order.
fn push_models(out: &mut Vec<String>, cs: &Vec<Candidate>)
    ensures
        strings_view(final(out)@) == strings_view(old(out)@) + model_list(candidates_view(cs@)),
{
    let ghost cv = candidates_view(cs@);
    let ghost start = strings_view(out@);
    let mut k: usize = 0;
    assert(cv.take(0) =~= Seq::<CandidateView>::empty());
    assert(start + model_list(cv.take(0)) =~= start);
    while k < cs.len()
        invariant
            cv == candidates_view(cs@),
            k <= cs.len(),
            strings_view(out@) == start + model_list(cv.take(k as int)),
        decreases cs.len() - k,
    {
        assert(cv.take(k + 1).drop_last() =~= cv.take(k as int));
        if char_count(cs[k].model.as_str()) > 0 {
            let ghost prev = out@;
            out.push(cs[k].model.clone());
            assert(strings_view(out@) =~= strings_view(prev).push(cs@[k as int].model@));
            assert(model_list(cv.take(k + 1)) == model_list(cv.take(k as int)).push(cv[k as int].model));
            assert(strings_view(out@) =~= start + model_list(cv.take(k + 1)));
        } else {
            assert(model_list(cv.take(k + 1)) == model_list(cv.take(k as int)));
        }
        k = k + 1;
    }
    assert(cv.take(cs.len() as int) =~= cv);
}

/// Appends the non-empty names of `ss`.
pub fn push_nonempty(out: &mut Vec<String>, ss: &Vec<String>)
    ensures
        strings_view(final(out)@) == strings_view(old(out)@) + nonempty(strings_view(ss@)),
{
    let ghost sv = strings_view(ss@);
    let ghost start = strings_view(out@);
    let mut k: usize = 0;
    assert(sv.take(0) =~= Seq::<Seq<char>>::empty());
    assert(start + nonempty(sv.take(0)) =~= start);
    while k < ss.len()
        invariant
            sv == strings_view(ss@),
            k <= ss.len(),
            strings_view(out@) == start + nonempty(sv.take(k as int)),
        decreases ss.len() - k,
    {
        assert(sv.take(k + 1).drop_last() =~= sv.take(k as int));
        if char_count(ss[k].as_str()) > 0 {
            let ghost prev = out@;
            out.push(ss[k].clone());
            assert(strings_view(out@) =~= strings_view(prev).push(ss@[k as int]@));
            assert(nonempty(sv.take(k + 1)) == nonempty(sv.take(k as int)).push(sv[k as int]));
            assert(strings_view(out@) =~= start + nonempty(sv.take(k + 1)));
        } else {
            assert(nonempty(sv.take(k + 1)) == nonempty(sv.take(k as int)));
        }
        k = k + 1;
    }
    assert(sv.take(ss.len() as int) =~= sv);
}

/// The candidate models a rule yields for an estimated prompt of `est` tokens.
pub fn rule_candidate_list(rule: &Rule, est: u64) -> (out: Vec<String>)
    ensures
        rule_candidates(rule@, est, strings_view(out@)),
{
    let mut out: Vec<String> = Vec::new();
    if str_eq(rule.strategy.as_str(), "fixed") {
        push_models(&mut out, &rule.candidates);
        push_nonempty(&mut out, &rule.fallback);
        assert(strings_view(out@) =~= model_list(rule@.candidates) + nonempty(rule@.fallback));
        return out;
    }
    let ghost cv = candidates_view(rule.candidates@);
    // fitting candidates, given order
    let mut fit: Vec<Candidate> = Vec::new();
    let mut keys: Vec<u64> = Vec::new();
    let mut k: usize = 0;
    assert(cv.take(0) =~= Seq::<CandidateView>::empty());
    while k < rule.candidates.len()
        invariant
            cv == candidates_view(rule.candidates@),
            k <= rule.candidates.len(),
            candidates_view(fit@) == fitting(cv.take(k as int), est),
            keys@ == tier_keys(candidates_view(fit@)),
        decreases rule.candidates.len() - k,
    {
        assert(cv.take(k + 1).drop_last() =~= cv.take(k as int));
        let c = &rule.candidates[k];
        let ok = match c.max_prompt_tokens {
            Some(m) => m >= est,
            None => true,
        };
        if ok {
            fit.push(c.duplicate());
            keys.push(
                match c.max_prompt_tokens {
                    Some(m) => m,
                    None => u64::MAX,
                },
            );
            assert(candidates_view(fit@) =~= fitting(cv.take(k + 1), est));
            assert(keys@ =~= tier_keys(candidates_view(fit@)));
        }
        k = k + 1;
    }
    assert(cv.take(rule.candidates.len() as int) =~= cv);
    let ghost fs = candidates_view(fit@);
    let p = stable_order_u64(&keys);
    let ghost ordered = p@.map_values(|j: usize| fs[j as int]);
    let mut a: usize = 0;
    assert(ordered.take(0) =~= Seq::<CandidateView>::empty());
    while a < p.len()
        invariant
            fs == candidates_view(fit@),
            keys@ == tier_keys(fs),
            is_stable_order_u64(keys@, p@),
            ordered == p@.map_values(|j: usize| fs[j as int]),
            a <= p.len(),
            strings_view(out@) == model_list(ordered.take(a as int)),
        decreases p.len() - a,
    {
        assert(ordered.take(a + 1).drop_last() =~= ordered.take(a as int));
        let j = p[a];
        assert(j < fit.len());
        assert(ordered[a as int] == fs[j as int]);
        if char_count(fit[j].model.as_str()) > 0 {
            let ghost prev = out@;
            out.push(fit[j].model.clone());
            assert(strings_view(out@) =~= strings_view(prev).push(fit@[j as int].model@));
            assert(model_list(ordered.take(a + 1)) == model_list(ordered.take(a as int)).push(ordered[a as int].model));
            assert(strings_view(out@) =~= model_list(ordered.take(a + 1)));
        } else {
            assert(model_list(ordered.take(a + 1)) == model_list(ordered.take(a as int)));
        }
        a = a + 1;
    }
    assert(ordered.take(p.len() as int) =~= ordered);
    assert(tier_ordered(fitting(cv, est), ordered));
    let ghost before = strings_view(out@);
    push_nonempty(&mut out, &rule.fallback);
    assert(strings_view(out@) == model_list(ordered) + nonempty(rule@.fallback));
    assert(rule@.strategy != "fixed"@);
    assert(tier_ordered(fitting(rule@.candidates, est), ordered) && strings_view(out@) == model_list(ordered) + nonempty(rule@.fallback));
    out
}

} // verus!

verus! {

pub open spec fn rulesets_view(v: Seq<RuleSet>) -> Seq<RuleSetView> {
    v.map_values(|r: RuleSet| r@)
}

/// Rule-set pairs (name, set) that a list of rule sets describes.
pub open spec fn named_sets(v: Seq<RuleSet>) -> Seq<(Seq<char>, RuleSetView)> {
    v.map_values(|r: RuleSet| (r@.name, r@))
}

/// What resolving `req` against the rule sets `m` gives for an estimated
/// prompt size: `None` when `req` names no rule set, the set has no rules, or
/// the selected rule yields no model; otherwise the selected rule's non-empty
/// candidate list.
pub open spec fn resolves_to(m: Map<Seq<char>, RuleSetView>, req: Seq<char>, est: u64, r: Option<Seq<Seq<char>>>) -> bool {
    match r {
        None => !m.contains_key(req) || m[req].rules.len() == 0
            || exists|i: int| selected_rule(m[req].rules, req, i) && rule_candidates(m[req].rules[i], est, Seq::empty()),
        Some(c) => {
            &&& m.contains_key(req)
            &&& c.len() > 0
            &&& exists|i: int| selected_rule(m[req].rules, req, i) && rule_candidates(m[req].rules[i], est, c)
        },
    }
}

/// The candidate names of a resolution.
pub open spec fn resolution_candidates(r: Option<Resolution>) -> Option<Seq<Seq<char>>> {
    match r {
        None => None,
        Some(res) => Some(strings_view(res.candidates@)),
    }
}

/// `r` lists the names of `m` once each, in strictly ascending order.
pub open spec fn lists_names(m: Map<Seq<char>, RuleSetView>, r: Seq<Seq<char>>) -> bool {
    &&& r.len() == m.len()
    &&& forall|i: int| 0 <= i < r.len() ==> #[trigger] m.contains_key(r[i])
    &&& forall|i: int, j: int| 0 <= i < j < r.len() ==> seq_lt(#[trigger] r[i], #[trigger] r[j])
    &&& forall|k: Seq<char>| #[trigger] m.contains_key(k) ==> exists|i: int| 0 <= i < r.len() && r[i] == k
}

/// Rule resolver: rule-set name to rule set.
pub struct RuleResolver {
    sets: Vec<RuleSet>,
}

impl View for RuleResolver {
    type V = Map<Seq<char>, RuleSetView>;

    closed spec fn view(&self) -> Map<Seq<char>, RuleSetView> {
        map_of(named_sets(self.sets@))
    }
}

impl RuleResolver {
    /// Names are unique among the stored rule sets.
    pub closed spec fn wf(&self) -> bool {
        keys_distinct(named_sets(self.sets@))
    }

    pub fn new() -> (r: Self)
        ensures
            r.wf(),
            r@ == Map::<Seq<char>, RuleSetView>::empty(),
    {
        let r = RuleResolver { sets: Vec::new() };
        assert(named_sets(r.sets@) =~= Seq::empty());
        r
    }

    /// Every stored rule set is filed under its own name.
    pub proof fn lemma_names(&self, k: Seq<char>)
        requires
            self.wf(),
            self@.contains_key(k),
        ensures
            self@[k].name == k,
    {
        lemma_map_of_dom(named_sets(self.sets@), k);
        let i = choose|i: int| key_at(named_sets(self.sets@), k, i);
        lemma_map_of_value(named_sets(self.sets@), i);
    }

    fn find(&self, name: &str) -> (r: Option<usize>)
        ensures
            r matches Some(i) ==> i < self.sets.len() && self.sets@[i as int].name@ == name@,
            r is None ==> forall|i: int| 0 <= i < self.sets.len() ==> self.sets@[i].name@ != name@,
    {
        let mut i: usize = 0;
        while i < self.sets.len()
            invariant
                i <= self.sets.len(),
                forall|j: int| 0 <= j < i ==> self.sets@[j].name@ != name@,
            decreases self.sets.len() - i,
        {
            if str_eq(self.sets[i].name.as_str(), name) {
                return Some(i);
            }
            i = i + 1;
        }
        None
    }

    /// Adds a rule set, or replaces the one of the same name.
    pub fn upsert(&mut self, rs: RuleSet)
        requires
            old(self).wf(),
        ensures
            final(self).wf(),
            final(self)@ == old(self)@.insert(rs@.name, rs@),
    {
        let ghost ps = named_sets(self.sets@);
        let ghost entry = (rs@.name, rs@);
        match self.find(rs.name.as_str()) {
            Some(i) => {
                self.sets.set(i, rs);
                proof {
                    assert(named_sets(self.sets@) =~= ps.update(i as int, (ps[i as int].0, entry.1)));
                    lemma_map_of_update(ps, i as int, entry.1);
                }
            },
            None => {
                self.sets.push(rs);
                proof {
                    assert(named_sets(self.sets@) =~= ps.push(entry));
                    lemma_keys_distinct_push(ps, entry.0, entry.1);
                    lemma_map_of_push(ps, entry.0, entry.1);
                }
            },
        }
    }

    /// Replaces every rule set by `rule_sets` (a later set wins over an earlier one of the same name).
    pub fn load(&mut self, rule_sets: Vec<RuleSet>)
        requires
            old(self).wf(),
        ensures
            final(self).wf(),
            final(self)@ == map_of(named_sets(rule_sets@)),
    {
        self.sets = Vec::new();
        assert(named_sets(self.sets@) =~= Seq::empty());
        let ghost src = named_sets(rule_sets@);
        let mut rule_sets = rule_sets;
        let ghost all = rule_sets@;
        let mut taken: Vec<RuleSet> = Vec::new();
        let mut i: usize = 0;
        assert(src.take(0) =~= Seq::empty());
        while rule_sets.len() > 0
            invariant
                self.wf(),
                src == named_sets(all),
                taken@.len() + rule_sets@.len() == all.len(),
                all =~= taken@ + rule_sets@,
                self@ == map_of(src.take(taken@.len() as int)),
            decreases rule_sets.len(),
        {
            let rs = rule_sets.remove(0);
            let ghost n = taken@.len();
            assert(all[n as int] == rs);
            assert(src.take(n as int + 1).drop_last() =~= src.take(n as int));
            assert(src[n as int] == (rs@.name, rs@));
            self.upsert(rs.duplicate());
            taken.push(rs);
        }
        assert(src.take(all.len() as int) =~= src);
    }

    /// Deletes the rule set of that name; tells whether there was one.
    pub fn remove(&mut self, name: &str) -> (r: bool)
        requires
            old(self).wf(),
        ensures
            final(self).wf(),
            r == old(self)@.contains_key(name@),
            final(self)@ == old(self)@.remove(name@),
    {
        let ghost ps = named_sets(self.sets@);
        match self.find(name) {
            Some(i) => {
                proof {
                    lemma_map_of_value(ps, i as int);
                }
                self.sets.remove(i);
                proof {
                    assert(named_sets(self.sets@) =~= ps.remove(i as int));
                    lemma_map_of_remove(ps, i as int);
                }
                true
            },
            None => {
                proof {
                    lemma_map_of_absent(ps, name@);
                    assert(self@ =~= old(self)@.remove(name@));
                }
                false
            },
        }
    }

    /// Number of rule sets.
    /// The stored rule sets are finitely many.
    pub proof fn lemma_finite(&self)
        requires
            self.wf(),
        ensures
            self@.dom().finite(),
    {
        lemma_map_of_len(named_sets(self.sets@));
    }

    pub fn len(&self) -> (n: usize)
        requires
            self.wf(),
        ensures
            n == self@.len(),
    {
        proof {
            lemma_map_of_len(named_sets(self.sets@));
        }
        self.sets.len()
    }

    pub fn is_empty(&self) -> (b: bool)
        requires
            self.wf(),
        ensures
            b == (self@.len() == 0),
    {
        self.len() == 0
    }

    /// Positions of the stored sets in ascending name order.
    fn name_order(&self) -> (p: Vec<usize>)
        ensures
            is_stable_order_str(named_sets(self.sets@).map_values(|e: (Seq<char>, RuleSetView)| e.0), p@),
    {
        let mut keys: Vec<Vec<char>> = Vec::new();
        let mut i: usize = 0;
        while i < self.sets.len()
            invariant
                i <= self.sets.len(),
                keys@.len() == i,
                forall|j: int| 0 <= j < i ==> #[trigger] keys@[j]@ == self.sets@[j].name@,
            decreases self.sets.len() - i,
        {
            keys.push(chars_of(self.sets[i].name.as_str()));
            i = i + 1;
        }
        assert(keys@.map_values(|k: Vec<char>| k@) =~= named_sets(self.sets@).map_values(
            |e: (Seq<char>, RuleSetView)| e.0,
        ));
        stable_order_str(&keys)
    }

    /// All rule sets, in ascending name order.
    pub fn list(&self) -> (r: Vec<RuleSet>)
        requires
            self.wf(),
        ensures
            r.len() == self@.len(),
            forall|i: int| 0 <= i < r.len() ==> #[trigger] self@.contains_key(r@[i]@.name) && self@[r@[i]@.name] == r@[i]@,
            forall|i: int, j: int| 0 <= i < j < r.len() ==> seq_lt(#[trigger] r@[i]@.name, #[trigger] r@[j]@.name),
            forall|k: Seq<char>| #[trigger] self@.contains_key(k) ==> exists|i: int| 0 <= i < r.len() && r@[i]@.name == k,
    {
        let ghost ps = named_sets(self.sets@);
        let ghost ks = ps.map_values(|e: (Seq<char>, RuleSetView)| e.0);
        let p = self.name_order();
        let mut r: Vec<RuleSet> = Vec::new();
        let mut a: usize = 0;
        while a < p.len()
            invariant
                self.wf(),
                ps == named_sets(self.sets@),
                ks == ps.map_values(|e: (Seq<char>, RuleSetView)| e.0),
                is_stable_order_str(ks, p@),
                a <= p.len(),
                r@.len() == a,
                forall|b: int| 0 <= b < a ==> #[trigger] r@[b]@ == self.sets@[p@[b] as int]@,
            decreases p.len() - a,
        {
            let j = p[a];
            r.push(self.sets[j].duplicate());
            a = a + 1;
        }
        proof {
            lemma_map_of_len(ps);
            assert forall|i: int| 0 <= i < r.len() implies #[trigger] self@.contains_key(r@[i]@.name) && self@[r@[i]@.name] == r@[i]@ by {
                lemma_map_of_value(ps, p@[i] as int);
            }
            assert forall|i: int, j: int| 0 <= i < j < r.len() implies seq_lt(#[trigger] r@[i]@.name, #[trigger] r@[j]@.name) by {
                assert(ks[p@[i] as int] == r@[i]@.name);
                assert(ks[p@[j] as int] == r@[j]@.name);
            }
            assert forall|k: Seq<char>| #[trigger] self@.contains_key(k) implies exists|i: int| 0 <= i < r.len() && r@[i]@.name == k by {
                lemma_map_of_dom(ps, k);
                let m = choose|m: int| key_at(ps, k, m);
                assert(occurs_in(p@, m));
                let i = choose|i: int| 0 <= i < p@.len() && p@[i] == m;
                assert(r@[i]@.name == k);
            }
        }
        r
    }

    /// Rule-set names, ascending.
    pub fn rule_names(&self) -> (r: Vec<String>)
        requires
            self.wf(),
        ensures
            r.len() == self@.len(),
            forall|i: int| 0 <= i < r.len() ==> #[trigger] self@.contains_key(r@[i]@),
            forall|i: int, j: int| 0 <= i < j < r.len() ==> seq_lt(#[trigger] r@[i]@, #[trigger] r@[j]@),
            forall|k: Seq<char>| #[trigger] self@.contains_key(k) ==> exists|i: int| 0 <= i < r.len() && r@[i]@ == k,
            lists_names(self@, strings_view(r@)),
    {
        let sets = self.list();
        let mut r: Vec<String> = Vec::new();
        let mut a: usize = 0;
        while a < sets.len()
            invariant
                a <= sets.len(),
                r@.len() == a,
                forall|b: int| 0 <= b < a ==> #[trigger] r@[b]@ == sets@[b]@.name,
            decreases sets.len() - a,
        {
            r.push(sets[a].name.clone());
            a = a + 1;
        }
        proof {
            assert forall|i: int, j: int| 0 <= i < j < r.len() implies seq_lt(#[trigger] r@[i]@, #[trigger] r@[j]@) by {
                assert(seq_lt(sets@[i]@.name, sets@[j]@.name));
            }
            assert forall|k: Seq<char>| #[trigger] self@.contains_key(k) implies exists|i: int| 0 <= i < r.len() && r@[i]@ == k by {
                let i = choose|i: int| 0 <= i < sets.len() && sets@[i]@.name == k;
                assert(r@[i]@ == k);
            }
            let names = strings_view(r@);
            assert forall|i: int| 0 <= i < names.len() implies #[trigger] self@.contains_key(names[i]) by {
                assert(names[i] == r@[i]@);
            }
            assert forall|i: int, j: int| 0 <= i < j < names.len() implies seq_lt(#[trigger] names[i], #[trigger] names[j]) by {
                assert(names[i] == r@[i]@ && names[j] == r@[j]@);
            }
            assert forall|k: Seq<char>| #[trigger] self@.contains_key(k) implies exists|i: int| 0 <= i < names.len() && names[i] == k by {
                let i = choose|i: int| 0 <= i < r.len() && r@[i]@ == k;
                assert(names[i] == k);
            }
        }
        r
    }

    /// Resolves a requested model: `None` when it names no rule set (the caller
    /// then routes it as a real model), else the selected rule's candidates.
    pub fn resolve(&self, requested_model: &str, est_tokens: u64) -> (r: Option<Resolution>)
        requires
            self.wf(),
        ensures
            resolves_to(self@, requested_model@, est_tokens, resolution_candidates(r)),
            r matches Some(res) ==> res.rule_set@ == requested_model@,
    {
        let ghost ps = named_sets(self.sets@);
        let idx = match self.find(requested_model) {
            Some(i) => i,
            None => {
                proof {
                    lemma_map_of_absent(ps, requested_model@);
                }
                return None;
            },
        };
        proof {
            lemma_map_of_value(ps, idx as int);
        }
        let rs = &self.sets[idx];
        let ri = match select_rule(&rs.rules, requested_model) {
            Some(i) => i,
            None => return None,
        };
        let candidates = rule_candidate_list(&rs.rules[ri], est_tokens);
        proof {
            assert(self@[requested_model@] == rs@);
            assert(self@[requested_model@].rules[ri as int] == rs.rules@[ri as int]@);
            assert(selected_rule(self@[requested_model@].rules, requested_model@, ri as int));
            assert(rule_candidates(self@[requested_model@].rules[ri as int], est_tokens, strings_view(candidates@)));
        }
        if candidates.len() == 0 {
            proof {
                assert(strings_view(candidates@) =~= Seq::empty());
            }
            return None;
        }
        Some(Resolution { rule_set: rs.name.clone(), candidates })
    }
}

/// Rough prompt-size estimate without a tokenizer: a quarter of the character count, at least 1.
pub fn estimate_tokens(text: &str) -> (n: u64)
    ensures
        n == if text@.len() / 4 >= 1 { text@.len() / 4 } else { 1 },
{
    let chars = char_count(text) as u64;
    let q = chars / 4;
    if q >= 1 {
        q
    } else {
        1
    }
}

/// Upserting a rule set counts one more name when its name is new, and the
/// same number otherwise.
pub proof fn law_upsert_count(before: RuleResolver, after: RuleResolver, rs: RuleSetView)
    requires
        before.wf(),
        after@ == before@.insert(rs.name, rs),
    ensures
        after@.len() == if before@.contains_key(rs.name) { before@.len() } else { before@.len() + 1 },
{
    before.lemma_finite();
}

/// Removing a name counts one name fewer when it was there, and the same
/// number otherwise.
pub proof fn law_remove_count(before: RuleResolver, after: RuleResolver, name: Seq<char>)
    requires
        before.wf(),
        after@ == before@.remove(name),
    ensures
        after@.len() == if before@.contains_key(name) { before@.len() - 1 } else { before@.len() as int },
{
    before.lemma_finite();
}

/// At most one rule is selected for a request.
pub proof fn law_selected_rule_unique(rules: Seq<RuleView>, requested: Seq<char>, i: int, j: int)
    requires
        selected_rule(rules, requested, i),
        selected_rule(rules, requested, j),
    ensures
        i == j,
{
    if i < j {
        assert(rules[i].order == rules[j].order ==> false) by {
            if !has_match(rules, "*"@) && !has_match(rules, requested) {
                assert(rules[i].order <= rules[j].order && rules[j].order <= rules[i].order);
            }
        }
    } else if j < i {
        if !has_match(rules, "*"@) && !has_match(rules, requested) {
            assert(rules[i].order <= rules[j].order && rules[j].order <= rules[i].order);
        }
    }
}

/// A rule yields one candidate list for a given prompt size.
pub proof fn law_rule_candidates_unique(rule: RuleView, est: u64, a: Seq<Seq<char>>, b: Seq<Seq<char>>)
    requires
        rule_candidates(rule, est, a),
        rule_candidates(rule, est, b),
    ensures
        a == b,
{
    if rule.strategy != "fixed"@ {
        let cs = fitting(rule.candidates, est);
        let oa = choose|o: Seq<CandidateView>| tier_ordered(cs, o) && a == model_list(o) + nonempty(rule.fallback);
        let ob = choose|o: Seq<CandidateView>| tier_ordered(cs, o) && b == model_list(o) + nonempty(rule.fallback);
        let pa = choose|p: Seq<usize>| is_stable_order_u64(tier_keys(cs), p) && oa == p.map_values(|j: usize| cs[j as int]);
        let pb = choose|p: Seq<usize>| is_stable_order_u64(tier_keys(cs), p) && ob == p.map_values(|j: usize| cs[j as int]);
        crate::sort::lemma_stable_order_u64_unique(tier_keys(cs), pa, pb);
    }
}

/// Resolution is a function of the rule sets, the requested name and the
/// prompt size: two outcomes that both meet `resolves_to` are equal.
pub proof fn law_resolve_determined(
    m: Map<Seq<char>, RuleSetView>,
    req: Seq<char>,
    est: u64,
    a: Option<Seq<Seq<char>>>,
    b: Option<Seq<Seq<char>>>,
)
    requires
        resolves_to(m, req, est, a),
        resolves_to(m, req, est, b),
    ensures
        a == b,
{
    match (a, b) {
        (Some(x), Some(y)) => {
            let i = choose|i: int| selected_rule(m[req].rules, req, i) && rule_candidates(m[req].rules[i], est, x);
            let j = choose|j: int| selected_rule(m[req].rules, req, j) && rule_candidates(m[req].rules[j], est, y);
            law_selected_rule_unique(m[req].rules, req, i, j);
            law_rule_candidates_unique(m[req].rules[i], est, x, y);
        },
        (Some(x), None) => {
            law_some_excludes_none(m, req, est, x);
        },
        (None, Some(y)) => {
            law_some_excludes_none(m, req, est, y);
        },
        (None, None) => {},
    }
}

/// A request resolves to nothing exactly when it names no rule set, that set
/// has no rules, or the selected rule yields no model.
pub proof fn law_resolve_none_iff(m: Map<Seq<char>, RuleSetView>, req: Seq<char>, est: u64, r: Option<Seq<Seq<char>>>)
    requires
        resolves_to(m, req, est, r),
    ensures
        r is None <==> (!m.contains_key(req) || m[req].rules.len() == 0
            || exists|i: int| selected_rule(m[req].rules, req, i) && rule_candidates(m[req].rules[i], est, Seq::empty())),
{
    if let Some(c) = r {
        law_some_excludes_none(m, req, est, c);
    }
}

proof fn law_some_excludes_none(m: Map<Seq<char>, RuleSetView>, req: Seq<char>, est: u64, c: Seq<Seq<char>>)
    requires
        resolves_to(m, req, est, Some(c)),
    ensures
        !resolves_to(m, req, est, None),
{
    let i = choose|i: int| selected_rule(m[req].rules, req, i) && rule_candidates(m[req].rules[i], est, c);
    assert(0 <= i < m[req].rules.len());
    if exists|j: int| selected_rule(m[req].rules, req, j) && rule_candidates(m[req].rules[j], est, Seq::empty()) {
        let j = choose|j: int| selected_rule(m[req].rules, req, j) && rule_candidates(m[req].rules[j], est, Seq::empty());
        law_selected_rule_unique(m[req].rules, req, i, j);
        law_rule_candidates_unique(m[req].rules[i], est, c, Seq::empty());
    }
}

/// Two name listings of the same rule sets agree below `a`.
proof fn lemma_names_agree(m: Map<Seq<char>, RuleSetView>, x: Seq<Seq<char>>, y: Seq<Seq<char>>, a: int)
    requires
        lists_names(m, x),
        lists_names(m, y),
        0 <= a <= x.len(),
    ensures
        forall|b: int| 0 <= b < a ==> x[b] == y[b],
    decreases a,
{
    if a > 0 {
        lemma_names_agree(m, x, y, a - 1);
        let t = a - 1;
        if x[t] != y[t] {
            assert(m.contains_key(x[t]));
            let d = choose|d: int| 0 <= d < y.len() && y[d] == x[t];
            if d < t {
                assert(x[d] == y[d]);
                assert(seq_lt(x[d], x[t]));
                lemma_seq_lt_irreflexive(x[t]);
            }
            assert(m.contains_key(y[t]));
            let c = choose|c: int| 0 <= c < x.len() && x[c] == y[t];
            if c < t {
                assert(y[c] == x[c]);
                assert(seq_lt(y[c], y[t]));
                lemma_seq_lt_irreflexive(y[t]);
            }
            assert(d > t && c > t);
            assert(seq_lt(y[t], y[d]));
            assert(seq_lt(x[t], x[c]));
            crate::text::lemma_seq_lt_asymmetric(x[t], y[t]);
        }
    }
}

/// The name list is determined by the stored rule sets: two lists that each
/// hold every name once in ascending order are equal. So after `remove` or
/// `load`, `rule_names` is the ascending list of the names that remain.
pub proof fn law_names_unique(m: Map<Seq<char>, RuleSetView>, x: Seq<Seq<char>>, y: Seq<Seq<char>>)
    requires
        lists_names(m, x),
        lists_names(m, y),
    ensures
        x == y,
{
    lemma_names_agree(m, x, y, x.len() as int);
    assert(x =~= y);
}

} // verus!
