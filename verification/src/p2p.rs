//! Cross-network P2P signalling: the decisions of the leader's punching
//! session and of a member joining it. Candidates travel through the
//! coordination server's signal mailbox as JSON; binding sockets, probing and
//! carrying QUIC are the caller's part.
use vstd::prelude::*;
use crate::json::{field, jarr, jnum, jstr, jtext, lemma_view_items, view_fields, view_items, Json, JsonView};
use crate::protocol::{put_field, put_item};
use crate::punch::{Candidate, CandidateKind};
use crate::strset::{set_contains, set_insert, set_of};
use crate::text::{decimal, str_eq};

verus! {

/// A candidate as plain values: ip, port, kind.
pub open spec fn cand_view(c: Candidate) -> (Seq<char>, u16, CandidateKind) {
    (c.ip@, c.port, c.kind)
}

/// A list of candidates as plain values.
pub open spec fn cands_view(s: Seq<Candidate>) -> Seq<(Seq<char>, u16, CandidateKind)> {
    s.map_values(|c: Candidate| cand_view(c))
}

/// The candidate one signalled item describes: a string `ip` and an unsigned
/// `port` (kept to its low 16 bits) are needed; `kind` is `mapped` when it
/// says so and `local` otherwise.
pub open spec fn candidate_of(c: JsonView) -> Option<(Seq<char>, u16, CandidateKind)> {
    match (jstr(c, "ip"@), crate::json::ju64(c, "port"@)) {
        (Some(ip), Some(p)) => Some((
            ip,
            p as u16,
            if jstr(c, "kind"@) == Some("mapped"@) {
                CandidateKind::Mapped
            } else {
                CandidateKind::Local
            },
        )),
        _ => None,
    }
}

/// The candidates a signalled list describes, in order; items that describe
/// none are skipped.
pub open spec fn candidates_of(items: Seq<JsonView>) -> Seq<(Seq<char>, u16, CandidateKind)>
    decreases items.len(),
{
    if items.len() == 0 {
        Seq::empty()
    } else {
        let rest = candidates_of(items.drop_last());
        match candidate_of(items.last()) {
            Some(c) => rest.push(c),
            None => rest,
        }
    }
}

/// The candidate one signalled item describes.
pub fn candidate_from(c: &Json) -> (r: Option<Candidate>)
    ensures
        match r {
            Some(x) => candidate_of(c.view_of()) == Some(cand_view(x)),
            None => candidate_of(c.view_of()) is None,
        },
{
    let ip = match c.get_str("ip") {
        Some(s) => s,
        None => return None,
    };
    let port = match c.get_u64("port") {
        Some(p) => p,
        None => return None,
    };
    let kind = match c.get_str("kind") {
        Some(k) => if str_eq(k, "mapped") {
            CandidateKind::Mapped
        } else {
            CandidateKind::Local
        },
        None => CandidateKind::Local,
    };
    Some(Candidate::new(ip, port as u16, kind))
}

/// The candidates of a signalled list, in order.
pub fn parse_candidates(items: &Vec<Json>) -> (r: Vec<Candidate>)
    ensures
        cands_view(r@) == candidates_of(view_items(items@)),
{
    let ghost vs = view_items(items@);
    proof {
        lemma_view_items(items@);
        assert(vs.take(0) =~= Seq::<JsonView>::empty());
    }
    let mut r: Vec<Candidate> = Vec::new();
    let mut i: usize = 0;
    while i < items.len()
        invariant
            i <= items.len(),
            vs == view_items(items@),
            vs.len() == items.len(),
            forall|k: int| 0 <= k < items.len() ==> #[trigger] vs[k] == items@[k].view_of(),
            cands_view(r@) == candidates_of(vs.take(i as int)),
        decreases items.len() - i,
    {
        assert(vs.take(i + 1).drop_last() =~= vs.take(i as int));
        assert(vs.take(i + 1).last() == items@[i as int].view_of());
        let ghost before = r@;
        match candidate_from(&items[i]) {
            Some(c) => {
                r.push(c);
                assert(cands_view(r@) =~= cands_view(before).push(cand_view(c)));
            },
            None => {},
        }
        i = i + 1;
    }
    assert(vs.take(items.len() as int) =~= vs);
    r
}

/// The word a candidate kind is signalled as.
pub open spec fn kind_word(k: CandidateKind) -> Seq<char> {
    match k {
        CandidateKind::Local => "local"@,
        CandidateKind::Mapped => "mapped"@,
    }
}

/// The signalled form of a candidate: `{"ip", "port", "kind"}`.
pub open spec fn cand_json(c: (Seq<char>, u16, CandidateKind)) -> JsonView {
    JsonView::Obj(
        seq![
            ("ip"@, JsonView::Str(c.0)),
            ("port"@, JsonView::Num(decimal(c.1 as nat), Some(c.1 as u64))),
            ("kind"@, JsonView::Str(kind_word(c.2))),
        ],
    )
}

/// A candidate offer: `{"type": "candidate", "candidates": [...]}`, with the
/// leader's certificate fingerprint as `cert_fp` when one is given.
pub open spec fn offer_json(cs: Seq<(Seq<char>, u16, CandidateKind)>, cert_fp: Option<Seq<char>>) -> JsonView {
    let base = seq![
        ("type"@, JsonView::Str("candidate"@)),
        ("candidates"@, JsonView::Arr(cs.map_values(|c: (Seq<char>, u16, CandidateKind)| cand_json(c)))),
    ];
    JsonView::Obj(
        match cert_fp {
            Some(fp) => base.push(("cert_fp"@, JsonView::Str(fp))),
            None => base,
        },
    )
}

/// The signalled form of a candidate.
pub fn candidate_json(c: &Candidate) -> (j: Json)
    ensures
        j.view_of() == cand_json(cand_view(*c)),
{
    let mut o: Vec<(String, Json)> = Vec::new();
    put_field(&mut o, "ip", jtext(c.ip.as_str()));
    put_field(&mut o, "port", jnum(c.port as u64));
    let kind = match c.kind {
        CandidateKind::Local => "local",
        CandidateKind::Mapped => "mapped",
    };
    put_field(&mut o, "kind", jtext(kind));
    let j = Json::Object(o);
    assert(view_fields(o@) =~= cand_json(cand_view(*c))->Obj_0);
    j
}

/// A candidate offer for the signal mailbox (the leader adds its
/// certificate fingerprint; a member sends none).
pub fn signal_offer(cands: &Vec<Candidate>, cert_fp: Option<&str>) -> (j: Json)
    ensures
        j.view_of() == offer_json(cands_view(cands@), match cert_fp {
            Some(f) => Some(f@),
            None => None,
        }),
{
    let ghost cs = cands_view(cands@);
    let ghost want = cs.map_values(|c: (Seq<char>, u16, CandidateKind)| cand_json(c));
    let mut a: Vec<Json> = Vec::new();
    let mut i: usize = 0;
    while i < cands.len()
        invariant
            i <= cands.len(),
            cs == cands_view(cands@),
            want == cs.map_values(|c: (Seq<char>, u16, CandidateKind)| cand_json(c)),
            view_items(a@) == want.take(i as int),
        decreases cands.len() - i,
    {
        let ghost before = a@;
        put_item(&mut a, candidate_json(&cands[i]));
        assert(want.take(i + 1) =~= want.take(i as int).push(want[i as int]));
        i = i + 1;
    }
    assert(want.take(cands.len() as int) =~= want);
    let mut o: Vec<(String, Json)> = Vec::new();
    put_field(&mut o, "type", jtext("candidate"));
    put_field(&mut o, "candidates", Json::Array(a));
    match cert_fp {
        Some(f) => {
            put_field(&mut o, "cert_fp", jtext(f));
        },
        None => {},
    }
    let j = Json::Object(o);
    assert(view_fields(o@) =~= offer_json(cs, match cert_fp {
        Some(f) => Some(f@),
        None => None,
    })->Obj_0);
    j
}

} // verus!

verus! {

/// A signalled message is a candidate offer: its `type` is `candidate`.
pub open spec fn is_offer(body: JsonView) -> bool {
    jstr(body, "type"@) == Some("candidate"@)
}

/// The candidates the leader punches towards for a message from `from`:
/// none when a tunnel to that member is already up, when the message is no
/// offer or has no candidate list, or when the list describes no candidate.
pub open spec fn leader_wants(tunnels: Set<Seq<char>>, from: Seq<char>, body: JsonView) -> Option<Seq<(Seq<char>, u16, CandidateKind)>> {
    if tunnels.contains(from) || !is_offer(body) {
        None
    } else {
        match jarr(body, "candidates"@) {
            Some(items) => if candidates_of(items).len() > 0 {
                Some(candidates_of(items))
            } else {
                None
            },
            None => None,
        }
    }
}

/// What the leader's punching session learns.
pub enum LeaderEvent {
    /// A message pulled from the signal mailbox.
    Signal { from: String, body: Json },
    /// The tunnel to a member came up.
    TunnelUp { member: String },
}

/// What the leader's punching session does next.
pub enum LeaderAction {
    /// Nothing for this message.
    Ignore,
    /// Bind a socket for `member`, send it the leader's offer and punch
    /// towards `candidates`.
    Punch { member: String, candidates: Vec<Candidate> },
    /// The member is recorded as connected.
    Noted,
}

/// The leader's punching session: the members whose tunnel is up.
pub struct LeaderPunch {
    tunnels: Vec<String>,
}

impl LeaderPunch {
    /// The members with a tunnel.
    pub closed spec fn connected(&self) -> Set<Seq<char>> {
        set_of(self.tunnels@)
    }

    pub fn new() -> (s: Self)
        ensures
            s.connected() == Set::<Seq<char>>::empty(),
    {
        let s = LeaderPunch { tunnels: Vec::new() };
        assert(s.connected() =~= Set::<Seq<char>>::empty());
        s
    }

    /// Whether a tunnel to `member` is up.
    pub fn is_connected(&self, member: &str) -> (b: bool)
        ensures
            b == self.connected().contains(member@),
    {
        set_contains(&self.tunnels, member)
    }

    /// One step of the session: a pulled message yields a punch towards the
    /// member's candidates or nothing (`leader_wants`); a tunnel coming up is
    /// recorded.
    pub fn leader_punch_step(&mut self, event: LeaderEvent) -> (a: LeaderAction)
        ensures
            match event {
                LeaderEvent::Signal { from, body } => {
                    &&& final(self).connected() == old(self).connected()
                    &&& match leader_wants(old(self).connected(), from@, body.view_of()) {
                        Some(cs) => a matches LeaderAction::Punch { member, candidates }
                            && member@ == from@ && cands_view(candidates@) == cs,
                        None => a is Ignore,
                    }
                },
                LeaderEvent::TunnelUp { member } => {
                    &&& final(self).connected() == old(self).connected().insert(member@)
                    &&& a is Noted
                },
            },
    {
        match event {
            LeaderEvent::Signal { from, body } => {
                if set_contains(&self.tunnels, from.as_str()) {
                    return LeaderAction::Ignore;
                }
                match body.get_str("type") {
                    Some(t) => if !str_eq(t, "candidate") {
                        return LeaderAction::Ignore;
                    },
                    None => return LeaderAction::Ignore,
                }
                let items = match body.get_array("candidates") {
                    Some(items) => items,
                    None => return LeaderAction::Ignore,
                };
                let candidates = parse_candidates(items);
                if candidates.len() == 0 {
                    return LeaderAction::Ignore;
                }
                LeaderAction::Punch { member: from, candidates }
            },
            LeaderEvent::TunnelUp { member } => {
                set_insert(&mut self.tunnels, member.as_str());
                LeaderAction::Noted
            },
        }
    }
}

} // verus!

verus! {

/// The leader's reply a member punches with: certificate fingerprint and
/// candidates.
#[derive(Debug)]
pub struct LeaderSignal {
    pub cert_fp: String,
    pub candidates: Vec<Candidate>,
}

/// What the first offer a member pulls reads as: its fingerprint and
/// candidates, or why it cannot be used.
pub open spec fn leader_signal_of(body: JsonView) -> Result<(Seq<char>, Seq<(Seq<char>, u16, CandidateKind)>), Seq<char>> {
    if !(body is Obj) {
        Err("组长信令格式无效"@)
    } else {
        match jstr(body, "cert_fp"@) {
            None => Err("组长信令缺 cert_fp"@),
            Some(fp) => match jarr(body, "candidates"@) {
                None => Err("组长信令缺 candidates"@),
                Some(items) => Ok((fp, candidates_of(items))),
            },
        }
    }
}

/// The position of the first offer among pulled messages.
pub fn pick_leader_signal(bodies: &Vec<Json>) -> (r: Option<usize>)
    ensures
        match r {
            Some(i) => i < bodies.len() && is_offer(bodies@[i as int].view_of())
                && forall|j: int| 0 <= j < i ==> !is_offer(#[trigger] bodies@[j].view_of()),
            None => forall|j: int| 0 <= j < bodies.len() ==> !is_offer(#[trigger] bodies@[j].view_of()),
        },
{
    let mut i: usize = 0;
    while i < bodies.len()
        invariant
            i <= bodies.len(),
            forall|j: int| 0 <= j < i ==> !is_offer(#[trigger] bodies@[j].view_of()),
        decreases bodies.len() - i,
    {
        match bodies[i].get_str("type") {
            Some(t) => if str_eq(t, "candidate") {
                return Some(i);
            },
            None => {},
        }
        i = i + 1;
    }
    None
}

/// Reads the leader's offer.
pub fn read_leader_signal(body: &Json) -> (r: Result<LeaderSignal, String>)
    ensures
        match leader_signal_of(body.view_of()) {
            Ok((fp, cs)) => r matches Ok(s) && s.cert_fp@ == fp && cands_view(s.candidates@) == cs,
            Err(m) => r matches Err(e) && e@ == m,
        },
{
    match body {
        Json::Object(_) => {},
        _ => return Err("组长信令格式无效".to_string()),
    }
    let cert_fp = match body.get_str("cert_fp") {
        Some(f) => f.to_string(),
        None => return Err("组长信令缺 cert_fp".to_string()),
    };
    let items = match body.get_array("candidates") {
        Some(items) => items,
        None => return Err("组长信令缺 candidates".to_string()),
    };
    Ok(LeaderSignal { cert_fp, candidates: parse_candidates(items) })
}

/// A member's decision on one pull of its mailbox: `None` to keep waiting
/// when no offer came; else what the first offer reads as.
pub fn take_leader_signal(bodies: &Vec<Json>) -> (r: Option<Result<LeaderSignal, String>>)
    ensures
        (r is None) == (forall|j: int| 0 <= j < bodies.len() ==> !is_offer(#[trigger] bodies@[j].view_of())),
        r matches Some(x) ==> exists|i: int|
            0 <= i < bodies.len() && is_offer(bodies@[i].view_of())
                && (forall|j: int| 0 <= j < i ==> !is_offer(#[trigger] bodies@[j].view_of()))
                && match leader_signal_of(bodies@[i].view_of()) {
                    Ok((fp, cs)) => x matches Ok(s) && s.cert_fp@ == fp && cands_view(s.candidates@) == cs,
                    Err(m) => x matches Err(e) && e@ == m,
                },
{
    match pick_leader_signal(bodies) {
        Some(i) => {
            let x = read_leader_signal(&bodies[i]);
            assert(is_offer(bodies@[i as int].view_of()));
            Some(x)
        },
        None => None,
    }
}

/// A signalled candidate reads back as itself.
pub proof fn law_candidate_round_trip(c: (Seq<char>, u16, CandidateKind))
    ensures
        candidate_of(cand_json(c)) == Some(c),
{
    reveal_strlit("ip");
    reveal_strlit("port");
    reveal_strlit("kind");
    reveal_strlit("local");
    reveal_strlit("mapped");
    let fs = cand_json(c)->Obj_0;
    let f1 = fs.drop_first();
    let f2 = f1.drop_first();
    assert(f1 =~= seq![fs[1], fs[2]]);
    assert(f2 =~= seq![fs[2]]);
    assert(field(fs, "ip"@) == Some(JsonView::Str(c.0)));
    assert(fs[0].0 == "ip"@ && fs[1].0 == "port"@);
    assert("ip"@.len() == 2 && "port"@.len() == 4 && "kind"@.len() == 4);
    assert("port"@[0] == 'p' && "kind"@[0] == 'k');
    assert(fs[0].0 != "port"@);
    assert(field(f1, "port"@) == Some(fs[1].1));
    assert(field(fs, "port"@) == Some(fs[1].1));
    assert(fs[0].0 != "kind"@);
    assert(f1[0].0 != "kind"@);
    assert(field(f2, "kind"@) == Some(fs[2].1));
    assert(field(f1, "kind"@) == Some(fs[2].1));
    assert(field(fs, "kind"@) == Some(fs[2].1));
    assert((c.1 as u64) as u16 == c.1);
    assert("local"@.len() == 5 && "mapped"@.len() == 6);
    assert(kind_word(c.2) == "mapped"@ <==> c.2 == CandidateKind::Mapped);
}

/// A signalled candidate list reads back as itself.
pub proof fn law_candidates_round_trip(cs: Seq<(Seq<char>, u16, CandidateKind)>)
    ensures
        candidates_of(cs.map_values(|c: (Seq<char>, u16, CandidateKind)| cand_json(c))) == cs,
    decreases cs.len(),
{
    let js = cs.map_values(|c: (Seq<char>, u16, CandidateKind)| cand_json(c));
    if cs.len() > 0 {
        law_candidates_round_trip(cs.drop_last());
        assert(js.drop_last() =~= cs.drop_last().map_values(|c: (Seq<char>, u16, CandidateKind)| cand_json(c)));
        law_candidate_round_trip(cs.last());
        assert(cs.drop_last().push(cs.last()) =~= cs);
    } else {
        assert(js.len() == 0);
        assert(cs =~= Seq::empty());
    }
}

/// The leader's offer, as a member reads it, gives back the leader's
/// fingerprint and candidates; a member's offer, as the leader reads it,
/// gives back the member's candidates (when there are any).
pub proof fn law_offer_round_trip(cs: Seq<(Seq<char>, u16, CandidateKind)>, fp: Seq<char>)
    ensures
        is_offer(offer_json(cs, Some(fp))),
        leader_signal_of(offer_json(cs, Some(fp))) == Ok::<(Seq<char>, Seq<(Seq<char>, u16, CandidateKind)>), Seq<char>>((fp, cs)),
        cs.len() > 0 ==> leader_wants(Set::empty(), "m"@, offer_json(cs, None)) == Some(cs),
{
    reveal_strlit("type");
    reveal_strlit("candidate");
    reveal_strlit("candidates");
    reveal_strlit("cert_fp");
    law_candidates_round_trip(cs);
    let items = cs.map_values(|c: (Seq<char>, u16, CandidateKind)| cand_json(c));
    let f = offer_json(cs, Some(fp))->Obj_0;
    let f1 = f.drop_first();
    let f2 = f1.drop_first();
    assert(f1 =~= seq![f[1], f[2]]);
    assert(f2 =~= seq![f[2]]);
    assert(field(f, "type"@) == Some(JsonView::Str("candidate"@)));
    assert(f[0].0 == "type"@ && f[1].0 == "candidates"@ && f[2].0 == "cert_fp"@);
    assert("type"@.len() == 4 && "candidates"@.len() == 10 && "cert_fp"@.len() == 7);
    assert(f[0].0 != "candidates"@);
    assert(field(f1, "candidates"@) == Some(JsonView::Arr(items)));
    assert(field(f, "candidates"@) == Some(JsonView::Arr(items)));
    assert(f[0].0 != "cert_fp"@);
    assert(f1[0].0 != "cert_fp"@);
    assert(field(f2, "cert_fp"@) == Some(JsonView::Str(fp)));
    assert(field(f1, "cert_fp"@) == Some(JsonView::Str(fp)));
    assert(field(f, "cert_fp"@) == Some(JsonView::Str(fp)));
    let g = offer_json(cs, None)->Obj_0;
    let g1 = g.drop_first();
    assert(g1 =~= seq![g[1]]);
    assert(field(g, "type"@) == Some(JsonView::Str("candidate"@)));
    assert(g[0].0 == "type"@);
    assert(g[0].0 != "candidates"@);
    assert(field(g1, "candidates"@) == Some(JsonView::Arr(items)));
    assert(field(g, "candidates"@) == Some(JsonView::Arr(items)));
}

} // verus!
