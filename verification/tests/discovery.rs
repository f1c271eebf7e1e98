use aipg::broadcast::{announcement, BroadcastConfig, BroadcastService, LanDiscoveryBroadcastModule};
use aipg::discovery::{announce_leader, is_ping, Announce, DiscoveryClient, DiscoveryConfig, LeaderInfo};

fn announce(json_name: &str, api: u64, share: Option<u64>, fp: &str) -> Announce {
    Announce {
        kind: Some("AIPG_ANNOUNCE".to_string()),
        name: Some(json_name.to_string()),
        api_port: Some(api),
        share_port: share,
        fingerprint: Some(fp.to_string()),
    }
}

#[test]
fn parse_announce_with_share_channel() {
    let mut c = DiscoveryClient::new(DiscoveryConfig::default());
    c.record_announce(&announce("aipowerlink-share", 39091, Some(39092), ""), "192.168.1.5", 100);
    let list = c.leaders_at(100);
    let l = &list[0];
    assert_eq!(l.share_port, Some(39092));
    assert_eq!(l.link_base(), "http://192.168.1.5:39092");
}

#[test]
fn parse_announce() {
    let mut c = DiscoveryClient::new(DiscoveryConfig::default());
    c.record_announce(&announce("aipowerlink-share", 39091, None, "abc123"), "192.168.1.5", 100);
    assert_eq!(c.count(), 1);
    let list = c.leaders_at(100);
    let l = &list[0];
    assert_eq!(l.name, "aipowerlink-share");
    assert_eq!(l.api_port, 39091);
    assert_eq!(l.address, "192.168.1.5");
    assert_eq!(l.api_base(), "http://192.168.1.5:39091");
    assert_eq!(l.share_port, None);
    assert_eq!(l.link_base(), "http://192.168.1.5:39091");
}

#[test]
fn dedupe_same_leader() {
    let mut c = DiscoveryClient::new(DiscoveryConfig::default());
    c.record_announce(&announce("s1", 39091, None, "x"), "10.0.0.2", 1);
    c.record_announce(&announce("s1", 39091, None, "x"), "10.0.0.2", 2);
    assert_eq!(c.count(), 1);
}

#[test]
fn announcements_without_name_or_port_are_ignored() {
    assert!(announce_leader(&announce("", 39091, None, ""), "1.2.3.4", 0).is_none());
    assert!(announce_leader(&announce("s", 0, None, ""), "1.2.3.4", 0).is_none());
    assert!(announce_leader(&announce("s", 65536, None, ""), "1.2.3.4", 0).is_none(), "port taken modulo 2^16");
    let mut a = announce("s", 1, Some(0), "");
    a.kind = Some("OTHER".to_string());
    assert!(announce_leader(&a, "1.2.3.4", 0).is_none());
    a.kind = Some("AIPG_ANNOUNCE".to_string());
    let l = announce_leader(&a, "1.2.3.4", 0).unwrap();
    assert_eq!(l.share_port, None, "a zero share port counts as absent");
    assert_eq!(l.id(), "s@1.2.3.4:1");
}

#[test]
fn leaders_sorted_and_online_by_threshold() {
    let mut c = DiscoveryClient::new(DiscoveryConfig::default());
    c.record_announce(&announce("b", 2, None, ""), "10.0.0.1", 100);
    c.record_announce(&announce("a", 1, None, ""), "10.0.0.1", 50);
    let list = c.leaders_at(120);
    assert_eq!(list[0].name, "a");
    assert!(!list[0].online, "silent 70 s > 30 s threshold");
    assert!(list[1].online);
    assert!(c.get("b@10.0.0.1:2").is_some());
}

#[test]
fn ping_detection() {
    assert!(is_ping("  AIPG_PING\n"));
    assert!(!is_ping("AIPG_PINGS"));
}

#[test]
fn announcement_roundtrip_through_discovery() {
    let cfg = BroadcastConfig::default();
    let a = announcement(&cfg);
    let l: LeaderInfo = announce_leader(&a, "10.1.1.1", 5).unwrap();
    assert_eq!(l.name, "aipowerlink-share");
    assert_eq!(l.api_port, 39091);
    assert_eq!(l.share_port, Some(39092));
    assert_eq!(l.link_base(), "http://10.1.1.1:39092");
}

#[test]
fn broadcast_service_start_once() {
    let m = LanDiscoveryBroadcastModule::new(BroadcastConfig::default());
    assert_eq!(m.name(), "lan-discovery-broadcast");
    let mut s: BroadcastService = m.service();
    assert!(!s.is_running());
    assert!(s.start());
    assert!(!s.start(), "already running");
    s.stop();
    assert!(!s.is_running());
    assert_eq!(s.settings().interval_secs, 10);
}
