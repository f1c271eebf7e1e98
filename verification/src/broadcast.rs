//! Leader side of discovery: what the periodic announcement says, and whether
//! the announcer runs (sending the datagrams is the caller's part).
use vstd::prelude::*;
use crate::discovery::{announced_api_port, announced_share_port, announces, text_or_empty, Announce};

verus! {

/// Announcement settings.
#[derive(Debug, Clone)]
pub struct BroadcastConfig {
    /// UDP port (members listen on the same port).
    pub port: u16,
    /// Service name (the leader's label).
    pub name: String,
    /// API port members call.
    pub api_port: u16,
    /// Gateway-to-gateway share port.
    pub share_port: u16,
    /// Fingerprint (prefix of the password hash).
    pub fingerprint: String,
    /// Seconds between announcements.
    pub interval_secs: u64,
    /// Destination address (the subnet broadcast address by default).
    pub target: String,
}

impl Default for BroadcastConfig {
    fn default() -> (c: Self)
        ensures
            c.port == 39090,
            c.name@ == "aipowerlink-share"@,
            c.api_port == 39091,
            c.share_port == 39092,
            c.fingerprint@ == Seq::<char>::empty(),
            c.interval_secs == 10,
            c.target@ == "255.255.255.255"@,
    {
        BroadcastConfig {
            port: 39090,
            name: "aipowerlink-share".to_string(),
            api_port: 39091,
            share_port: 39092,
            fingerprint: String::new(),
            interval_secs: 10,
            target: "255.255.255.255".to_string(),
        }
    }
}

/// The announcement for these settings (its JSON rendering is the sender's part).
pub fn announcement(cfg: &BroadcastConfig) -> (a: Announce)
    ensures
        a.kind matches Some(k) && k@ == "AIPG_ANNOUNCE"@,
        a.name matches Some(n) && n@ == cfg.name@,
        a.api_port == Some(cfg.api_port as u64),
        a.share_port == Some(cfg.share_port as u64),
        a.fingerprint matches Some(f) && f@ == cfg.fingerprint@,
{
    Announce {
        kind: Some("AIPG_ANNOUNCE".to_string()),
        name: Some(cfg.name.clone()),
        api_port: Some(cfg.api_port as u64),
        share_port: Some(cfg.share_port as u64),
        fingerprint: Some(cfg.fingerprint.clone()),
    }
}

/// A member that hears a leader's announcement lists that leader: the name,
/// API port and fingerprint as configured, and the share port when nonzero.
pub proof fn law_announcement_heard_as_sent(cfg: BroadcastConfig, a: Announce, address: Seq<char>, now: u64)
    requires
        a.kind matches Some(k) && k@ == "AIPG_ANNOUNCE"@,
        a.name matches Some(n) && n@ == cfg.name@,
        a.api_port == Some(cfg.api_port as u64),
        a.share_port == Some(cfg.share_port as u64),
        a.fingerprint matches Some(f) && f@ == cfg.fingerprint@,
        cfg.name@.len() > 0,
        cfg.api_port != 0,
    ensures
        announces(a),
        announced_api_port(a) == cfg.api_port,
        announced_share_port(a) == (if cfg.share_port > 0 { Some(cfg.share_port) } else { None::<u16> }),
        text_or_empty(a.name) == cfg.name@,
        text_or_empty(a.fingerprint) == cfg.fingerprint@,
{
    assert((cfg.api_port as u64) as u16 == cfg.api_port);
    assert((cfg.share_port as u64) as u16 == cfg.share_port);
}

/// The periodic announcer: its settings and whether it runs.
#[derive(Debug, Clone)]
pub struct BroadcastService {
    cfg: BroadcastConfig,
    running: bool,
}

impl BroadcastService {
    pub closed spec fn config(&self) -> BroadcastConfig {
        self.cfg
    }

    pub closed spec fn runs(&self) -> bool {
        self.running
    }

    pub fn new(cfg: BroadcastConfig) -> (s: Self)
        ensures
            s.config() == cfg,
            !s.runs(),
    {
        BroadcastService { cfg, running: false }
    }

    /// Marks the announcer running; true when it was not (the caller then
    /// starts the sending loop), false when it already ran.
    pub fn start(&mut self) -> (started: bool)
        ensures
            started == !old(self).runs(),
            final(self).runs(),
            final(self).config() == old(self).config(),
    {
        let was = self.running;
        self.running = true;
        !was
    }

    /// Stops announcing (the sending loop ends at its next turn).
    pub fn stop(&mut self)
        ensures
            !final(self).runs(),
            final(self).config() == old(self).config(),
    {
        self.running = false;
    }

    pub fn is_running(&self) -> (b: bool)
        ensures
            b == self.runs(),
    {
        self.running
    }

    /// The settings.
    pub fn settings(&self) -> (c: &BroadcastConfig)
        ensures
            *c == self.config(),
    {
        &self.cfg
    }
}

/// The discovery-broadcast module: registers an announcer with its settings.
#[derive(Debug, Clone)]
pub struct LanDiscoveryBroadcastModule {
    cfg: BroadcastConfig,
}

impl LanDiscoveryBroadcastModule {
    pub closed spec fn config(&self) -> BroadcastConfig {
        self.cfg
    }

    pub fn new(cfg: BroadcastConfig) -> (m: Self)
        ensures
            m.config() == cfg,
    {
        LanDiscoveryBroadcastModule { cfg }
    }

    /// The module's name.
    pub fn name(&self) -> (s: &'static str)
        ensures
            s@ == "lan-discovery-broadcast"@,
    {
        crate::boot::MOD_LAN_DISCOVERY_BROADCAST
    }

    /// The announcer this module provides (not yet running).
    pub fn service(&self) -> (s: BroadcastService)
        ensures
            s.config().port == self.config().port,
            s.config().name@ == self.config().name@,
            s.config().api_port == self.config().api_port,
            s.config().share_port == self.config().share_port,
            s.config().fingerprint@ == self.config().fingerprint@,
            s.config().interval_secs == self.config().interval_secs,
            s.config().target@ == self.config().target@,
            !s.runs(),
    {
        let c = BroadcastConfig {
            port: self.cfg.port,
            name: self.cfg.name.clone(),
            api_port: self.cfg.api_port,
            share_port: self.cfg.share_port,
            fingerprint: self.cfg.fingerprint.clone(),
            interval_secs: self.cfg.interval_secs,
            target: self.cfg.target.clone(),
        };
        BroadcastService::new(c)
    }
}

} // verus!
