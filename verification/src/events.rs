//! Event bus: subscriptions by event name (calling the handlers is the
//! caller's part, with the listeners handed back here).
use vstd::prelude::*;
use crate::kvmap::{find_key, get_key, key_at, lemma_smap_at, lemma_smap_len, lemma_string_pairs_lookup, put, smap, string_pairs, swf};

verus! {

/// Event subscriptions: per event name, handlers by subscription id (the
/// position of the subscription; an unsubscribed one leaves a hole).
pub struct EventBus<H> {
    handlers: Vec<(String, Vec<Option<H>>)>,
}

impl<H> EventBus<H> {
    pub closed spec fn wf(&self) -> bool {
        swf(self.handlers@)
    }

    /// Subscriptions by event name.
    pub closed spec fn subs(&self) -> Map<Seq<char>, Seq<Option<H>>> {
        smap(self.handlers@).map_values(|v: Vec<Option<H>>| v@)
    }

    pub fn new() -> (b: Self)
        ensures
            b.wf(),
            b.subs() == Map::<Seq<char>, Seq<Option<H>>>::empty(),
    {
        let b = EventBus { handlers: Vec::new() };
        assert(b.subs() =~= Map::<Seq<char>, Seq<Option<H>>>::empty());
        b
    }

    /// Subscribes a handler; its id is its position among the event's handlers.
    pub fn subscribe(&mut self, event: &str, handler: H) -> (id: usize)
        requires
            old(self).wf(),
        ensures
            final(self).wf(),
            id == (if old(self).subs().contains_key(event@) { old(self).subs()[event@].len() } else { 0 }),
            final(self).subs() == old(self).subs().insert(
                event@,
                (if old(self).subs().contains_key(event@) { old(self).subs()[event@] } else { Seq::empty() }).push(Some(handler)),
            ),
    {
        let found = find_key(&self.handlers, event);
        proof {
            lemma_string_pairs_lookup(self.handlers@, event@, found);
        }
        match found {
            Some(i) => {
                let ghost before = self.handlers@;
                let (k, mut list) = self.handlers.remove(i);
                let id = list.len();
                list.push(Some(handler));
                let ghost newlist = list;
                self.handlers.insert(i, (k, list));
                proof {
                    assert(self.handlers@ =~= before.update(i as int, (before[i as int].0, newlist)));
                    assert(crate::kvmap::string_pairs(self.handlers@) =~= crate::kvmap::string_pairs(before).update(i as int, (event@, newlist)));
                    crate::kvmap::lemma_map_of_update(crate::kvmap::string_pairs(before), i as int, newlist);
                    assert(self.subs() =~= old(self).subs().insert(event@, old(self).subs()[event@].push(Some(handler))));
                }
                id
            },
            None => {
                let mut list: Vec<Option<H>> = Vec::new();
                list.push(Some(handler));
                let ghost newlist = list;
                put(&mut self.handlers, event.to_string(), list);
                proof {
                    assert(newlist@ =~= Seq::<Option<H>>::empty().push(Some(handler)));
                    assert(self.subs() =~= old(self).subs().insert(event@, Seq::<Option<H>>::empty().push(Some(handler))));
                }
                0
            },
        }
    }

    /// Drops subscription `id` of `event` (its position stays, empty).
    pub fn unsubscribe(&mut self, event: &str, id: usize)
        requires
            old(self).wf(),
        ensures
            final(self).wf(),
            old(self).subs().contains_key(event@) && id < old(self).subs()[event@].len() ==> final(self).subs() == old(self).subs().insert(
                event@,
                old(self).subs()[event@].update(id as int, None),
            ),
            !(old(self).subs().contains_key(event@) && id < old(self).subs()[event@].len()) ==> final(self).subs() == old(self).subs(),
    {
        let found = find_key(&self.handlers, event);
        proof {
            lemma_string_pairs_lookup(self.handlers@, event@, found);
        }
        match found {
            Some(i) => {
                if id < self.handlers[i].1.len() {
                    let ghost before = self.handlers@;
                    let (k, mut list) = self.handlers.remove(i);
                    list.set(id, None);
                    let ghost newlist = list;
                    self.handlers.insert(i, (k, list));
                    proof {
                        assert(self.handlers@ =~= before.update(i as int, (before[i as int].0, newlist)));
                        assert(crate::kvmap::string_pairs(self.handlers@) =~= crate::kvmap::string_pairs(before).update(i as int, (event@, newlist)));
                        crate::kvmap::lemma_map_of_update(crate::kvmap::string_pairs(before), i as int, newlist);
                        assert(self.subs() =~= old(self).subs().insert(event@, old(self).subs()[event@].update(id as int, None)));
                    }
                }
            },
            None => {},
        }
    }

    /// The live handlers of `event`, in subscription order (the caller
    /// invokes each with the event and its payload).
    pub fn listeners(&self, event: &str) -> (r: Vec<&H>)
        requires
            self.wf(),
        ensures
            !self.subs().contains_key(event@) ==> r@.len() == 0,
            self.subs().contains_key(event@) ==> r@.map_values(|h: &H| *h) == live(self.subs()[event@]),
    {
        let mut r: Vec<&H> = Vec::new();
        let found = find_key(&self.handlers, event);
        proof {
            lemma_string_pairs_lookup(self.handlers@, event@, found);
        }
        match found {
            Some(i) => {
                let list = &self.handlers[i].1;
                let mut j: usize = 0;
                while j < list.len()
                    invariant
                        j <= list.len(),
                        r@.map_values(|h: &H| *h) == live(list@.take(j as int)),
                    decreases list.len() - j,
                {
                    proof {
                        assert(list@.take(j + 1).drop_last() =~= list@.take(j as int));
                    }
                    match &list[j] {
                        Some(h) => {
                            r.push(h);
                            assert(r@.map_values(|h: &H| *h) =~= live(list@.take(j as int)).push(*h));
                        },
                        None => {},
                    }
                    j = j + 1;
                }
                assert(list@.take(list.len() as int) =~= list@);
            },
            None => {},
        }
        r
    }

    /// Publishes an event: calls each live handler of `event`, in subscription
    /// order, with the event name and the payload.
    pub fn emit<P>(&self, event: &str, payload: &P)
        where H: Fn(&str, &P),
        requires
            self.wf(),
            self.subs().contains_key(event@) ==> forall|i: int| 0 <= i < live(self.subs()[event@]).len()
                ==> call_requires(#[trigger] live(self.subs()[event@])[i], (event, payload)),
    {
        let hs = self.listeners(event);
        proof {
            assert forall|k: int| 0 <= k < hs@.len() implies call_requires(*#[trigger] hs@[k], (event, payload)) by {
                assert(hs@.map_values(|h: &H| *h)[k] == *hs@[k]);
            }
        }
        let mut i: usize = 0;
        while i < hs.len()
            invariant
                i <= hs.len(),
                forall|k: int| 0 <= k < hs@.len() ==> call_requires(*#[trigger] hs@[k], (event, payload)),
            decreases hs.len() - i,
        {
            let h = hs[i];
            h(event, payload);
            i = i + 1;
        }
    }

    /// Whether anything ever subscribed to `event`.
    pub fn has_subscribers(&self, event: &str) -> (b: bool)
        requires
            self.wf(),
        ensures
            b == self.subs().contains_key(event@),
    {
        let found = find_key(&self.handlers, event);
        proof {
            lemma_string_pairs_lookup(self.handlers@, event@, found);
        }
        found.is_some()
    }
}

/// The subscribed handlers among `s`, in order.
pub open spec fn live<H>(s: Seq<Option<H>>) -> Seq<H>
    decreases s.len(),
{
    if s.len() == 0 {
        Seq::empty()
    } else {
        match s.last() {
            Some(h) => live(s.drop_last()).push(h),
            None => live(s.drop_last()),
        }
    }
}

} // verus!

verus! {

/// What a module reaches of its host: services registered by name, and the
/// event bus.
pub struct Host<S, H> {
    services: Vec<(String, S)>,
    events: EventBus<H>,
}

impl<S, H> Host<S, H> {
    pub closed spec fn wf(&self) -> bool {
        swf(self.services@) && self.events.wf()
    }

    /// Services by name.
    pub closed spec fn services(&self) -> Map<Seq<char>, S> {
        smap(self.services@)
    }

    /// Event subscriptions by event name.
    pub closed spec fn subs(&self) -> Map<Seq<char>, Seq<Option<H>>> {
        self.events.subs()
    }

    pub fn new() -> (h: Self)
        ensures
            h.wf(),
            h.services() == Map::<Seq<char>, S>::empty(),
            h.subs() == Map::<Seq<char>, Seq<Option<H>>>::empty(),
    {
        let h = Host { services: Vec::new(), events: EventBus::new() };
        assert(h.services() =~= Map::<Seq<char>, S>::empty());
        h
    }

    /// Registers a named service (a later one under the same name replaces it).
    pub fn provide(&mut self, name: &str, svc: S)
        requires
            old(self).wf(),
        ensures
            final(self).wf(),
            final(self).services() == old(self).services().insert(name@, svc),
            final(self).subs() == old(self).subs(),
    {
        put(&mut self.services, name.to_string(), svc);
    }

    /// The service registered under `name`.
    pub fn get(&self, name: &str) -> (r: Option<&S>)
        requires
            self.wf(),
        ensures
            r is Some == self.services().contains_key(name@),
            r matches Some(x) ==> *x == self.services()[name@],
    {
        get_key(&self.services, name)
    }

    /// Subscribes to an event (the id is for unsubscribing).
    pub fn on(&mut self, event: &str, handler: H) -> (id: usize)
        requires
            old(self).wf(),
        ensures
            final(self).wf(),
            final(self).services() == old(self).services(),
            id == (if old(self).subs().contains_key(event@) { old(self).subs()[event@].len() } else { 0 }),
            final(self).subs() == old(self).subs().insert(
                event@,
                (if old(self).subs().contains_key(event@) { old(self).subs()[event@] } else { Seq::empty() }).push(Some(handler)),
            ),
    {
        self.events.subscribe(event, handler)
    }

    /// Publishes an event to its live handlers, in subscription order.
    pub fn emit<P>(&self, event: &str, payload: &P)
        where H: Fn(&str, &P),
        requires
            self.wf(),
            self.subs().contains_key(event@) ==> forall|i: int| 0 <= i < live(self.subs()[event@]).len()
                ==> call_requires(#[trigger] live(self.subs()[event@])[i], (event, payload)),
    {
        self.events.emit(event, payload)
    }

    /// The names of the registered services, each once (in registration
    /// order; the order is not part of the contract).
    pub fn service_names(&self) -> (r: Vec<String>)
        requires
            self.wf(),
        ensures
            r@.len() == self.services().dom().len(),
            forall|i: int| 0 <= i < r@.len() ==> self.services().contains_key(#[trigger] r@[i]@),
            forall|k: Seq<char>| #[trigger] self.services().contains_key(k) ==> exists|i: int| 0 <= i < r@.len() && r@[i]@ == k,
            forall|i: int, j: int| 0 <= i < j < r@.len() ==> r@[i]@ != r@[j]@,
    {
        let mut r: Vec<String> = Vec::new();
        let mut i: usize = 0;
        proof {
            lemma_smap_len(self.services@);
        }
        while i < self.services.len()
            invariant
                i <= self.services.len(),
                swf(self.services@),
                r@.len() == i,
                forall|j: int| 0 <= j < i ==> (#[trigger] r@[j])@ == self.services@[j].0@,
            decreases self.services.len() - i,
        {
            r.push(self.services[i].0.clone());
            i = i + 1;
        }
        proof {
            assert forall|j: int| 0 <= j < r@.len() implies self.services().contains_key(#[trigger] r@[j]@) by {
                lemma_smap_at(self.services@, j);
            }
            assert forall|k: Seq<char>| #[trigger] self.services().contains_key(k) implies exists|j: int| 0 <= j < r@.len() && r@[j]@ == k by {
                crate::kvmap::lemma_map_of_dom(string_pairs(self.services@), k);
                let j = choose|j: int| key_at(string_pairs(self.services@), k, j);
                assert(r@[j]@ == k);
            }
            assert forall|a: int, b: int| 0 <= a < b < r@.len() implies r@[a]@ != r@[b]@ by {
                assert(string_pairs(self.services@)[a].0 == r@[a]@);
                assert(string_pairs(self.services@)[b].0 == r@[b]@);
            }
        }
        r
    }
}

} // verus!
