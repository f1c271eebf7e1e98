use aipg::json::{Json, JsonNumber};
use aipg::p2p::{candidate_json, parse_candidates, pick_leader_signal, read_leader_signal, signal_offer, take_leader_signal, LeaderAction, LeaderEvent, LeaderPunch};
use aipg::punch::{Candidate, CandidateKind};

fn s(x: &str) -> Json {
    Json::Str(x.to_string())
}

fn n(x: u64) -> Json {
    Json::Number(JsonNumber { text: x.to_string(), unsigned: Some(x) })
}

fn obj(fields: Vec<(&str, Json)>) -> Json {
    Json::Object(fields.into_iter().map(|(k, v)| (k.to_string(), v)).collect())
}

fn cand(ip: &str, port: u64, kind: Option<&str>) -> Json {
    let mut f = vec![("ip", s(ip)), ("port", n(port))];
    if let Some(k) = kind {
        f.push(("kind", s(k)));
    }
    obj(f)
}

#[test]
fn candidates_parse_skipping_bad_items() {
    let items = vec![
        cand("203.0.113.7", 39093, Some("mapped")),
        obj(vec![("ip", s("10.0.0.1"))]),
        cand("10.0.0.2", 40000, Some("weird")),
        cand("10.0.0.3", 65536 + 80, None),
        s("junk"),
    ];
    let cs = parse_candidates(&items);
    assert_eq!(cs.len(), 3);
    assert_eq!((cs[0].ip.as_str(), cs[0].port, cs[0].kind), ("203.0.113.7", 39093, CandidateKind::Mapped));
    assert_eq!((cs[1].ip.as_str(), cs[1].port, cs[1].kind), ("10.0.0.2", 40000, CandidateKind::Local));
    assert_eq!((cs[2].ip.as_str(), cs[2].port), ("10.0.0.3", 80));
}

#[test]
fn candidate_signalled_form() {
    let j = candidate_json(&Candidate::new("203.0.113.7", 39093, CandidateKind::Mapped));
    assert_eq!(j.get_str("ip"), Some("203.0.113.7"));
    assert_eq!(j.get_u64("port"), Some(39093));
    assert_eq!(j.get_str("kind"), Some("mapped"));
}

#[test]
fn leader_punches_new_members_only() {
    let mut lp = LeaderPunch::new();
    let offer = signal_offer(&vec![Candidate::new("10.0.0.5", 5000, CandidateKind::Local)], None);
    match lp.leader_punch_step(LeaderEvent::Signal { from: "m1".into(), body: offer.duplicate() }) {
        LeaderAction::Punch { member, candidates } => {
            assert_eq!(member, "m1");
            assert_eq!(candidates.len(), 1);
            assert_eq!(candidates[0].port, 5000);
        }
        _ => panic!("expected a punch"),
    }
    assert!(matches!(lp.leader_punch_step(LeaderEvent::TunnelUp { member: "m1".into() }), LeaderAction::Noted));
    assert!(lp.is_connected("m1"));
    assert!(matches!(lp.leader_punch_step(LeaderEvent::Signal { from: "m1".into(), body: offer.duplicate() }), LeaderAction::Ignore));
    let empty = signal_offer(&vec![], None);
    assert!(matches!(lp.leader_punch_step(LeaderEvent::Signal { from: "m2".into(), body: empty }), LeaderAction::Ignore));
    let other = obj(vec![("type", s("bye")), ("candidates", Json::Array(vec![cand("1.2.3.4", 1, None)]))]);
    assert!(matches!(lp.leader_punch_step(LeaderEvent::Signal { from: "m2".into(), body: other }), LeaderAction::Ignore));
}

#[test]
fn member_takes_first_offer() {
    let reply = signal_offer(&vec![Candidate::new("198.51.100.1", 7000, CandidateKind::Mapped)], Some("ab12"));
    let bodies = vec![obj(vec![("type", s("ping"))]), s("x"), reply.duplicate(), signal_offer(&vec![], Some("zz"))];
    assert_eq!(pick_leader_signal(&bodies), Some(2));
    match take_leader_signal(&bodies) {
        Some(Ok(sig)) => {
            assert_eq!(sig.cert_fp, "ab12");
            assert_eq!(sig.candidates.len(), 1);
            assert_eq!(sig.candidates[0].ip, "198.51.100.1");
            assert_eq!(sig.candidates[0].kind, CandidateKind::Mapped);
        }
        _ => panic!("expected the leader's offer"),
    }
    assert!(take_leader_signal(&vec![obj(vec![("type", s("ping"))])]).is_none());
}

#[test]
fn member_offer_errors() {
    let no_fp = obj(vec![("type", s("candidate")), ("candidates", Json::Array(vec![]))]);
    assert_eq!(read_leader_signal(&no_fp).err().as_deref(), Some("组长信令缺 cert_fp"));
    let no_cands = obj(vec![("type", s("candidate")), ("cert_fp", s("f"))]);
    assert_eq!(read_leader_signal(&no_cands).err().as_deref(), Some("组长信令缺 candidates"));
    assert_eq!(read_leader_signal(&s("candidate")).err().as_deref(), Some("组长信令格式无效"));
}
