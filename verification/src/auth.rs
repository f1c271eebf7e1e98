//! Bearer-token issuing and revoking, and the ban list (passwordless access:
//! a member names its machine and gets a token; a ban blocks the member and
//! its source IP and revokes its tokens).
use vstd::prelude::*;
use crate::error::RuntimeError;
use crate::kvmap::{get_key, keep, lemma_smap_at, lemma_smap_keep, lemma_smap_len, put, smap, swf};
use crate::strset::{set_contains, set_insert, set_of, set_remove};
use crate::text::{char_count, hex_lower, str_eq, to_hex_lower};

verus! {

/// A member's session.
#[derive(Debug, Clone)]
pub struct Session {
    /// Bearer token.
    pub token: String,
    /// Member id (machine name).
    pub member_id: String,
    pub machine_name: String,
    pub display_name: String,
    /// Expiry (unix seconds).
    pub expires_at: u64,
    /// Issue time (unix seconds).
    pub issued_at: u64,
}

impl Session {
    pub fn duplicate(&self) -> (r: Session)
        ensures
            r == *self,
    {
        Session {
            token: self.token.clone(),
            member_id: self.member_id.clone(),
            machine_name: self.machine_name.clone(),
            display_name: self.display_name.clone(),
            expires_at: self.expires_at,
            issued_at: self.issued_at,
        }
    }
}

/// Abstract state of the authentication service.
pub struct AuthView {
    /// Sessions by token.
    pub sessions: Map<Seq<char>, Session>,
    /// Banned member ids.
    pub banned: Set<Seq<char>>,
    /// Banned source IPs.
    pub banned_ips: Set<Seq<char>>,
    /// Token lifetime (seconds).
    pub ttl: u64,
}

/// Token `t` is a session of `member` still valid after `now`.
pub open spec fn live_for(v: AuthView, member: Seq<char>, now: u64, t: Seq<char>) -> bool {
    v.sessions.contains_key(t) && v.sessions[t].member_id@ == member && v.sessions[t].expires_at > now
}

/// Sign-in from `ip` as `machine` is refused (banned IP or banned member).
pub open spec fn refused(v: AuthView, machine: Seq<char>, ip: Seq<char>) -> bool {
    v.banned_ips.contains(ip) || v.banned.contains(machine)
}

/// `now + ttl`, capped at the largest time.
pub open spec fn expiry(now: u64, ttl: u64) -> u64 {
    if now + ttl <= u64::MAX { (now + ttl) as u64 } else { u64::MAX }
}

/// `s` is the session newly issued at `now` under token `token`.
pub open spec fn new_session(machine: Seq<char>, display: Seq<char>, now: u64, ttl: u64, token: Seq<char>, s: Session) -> bool {
    &&& s.token@ == token
    &&& s.member_id@ == machine
    &&& s.machine_name@ == machine
    &&& s.display_name@ == (if display.len() > 0 { display } else { machine })
    &&& s.expires_at == expiry(now, ttl)
    &&& s.issued_at == now
}

/// The sessions that do not belong to `member`.
pub open spec fn without_member(m: Map<Seq<char>, Session>, member: Seq<char>) -> Map<Seq<char>, Session> {
    Map::new(|t: Seq<char>| m.contains_key(t) && m[t].member_id@ != member, |t: Seq<char>| m[t])
}

/// Sessions not belonging to `member`.
pub open spec fn not_of(member: Seq<char>) -> spec_fn(Session) -> bool {
    |s: Session| s.member_id@ != member
}

/// State with every session of `member` dropped.
pub open spec fn sessions_dropped(v: AuthView, member: Seq<char>) -> AuthView {
    AuthView { sessions: without_member(v.sessions, member), ..v }
}

/// Outcome of a token check at `now`: unknown, expired or banned tokens fail.
pub open spec fn spec_verify(v: AuthView, token: Seq<char>, now: u64) -> Option<Session> {
    if !v.sessions.contains_key(token) {
        None
    } else if v.sessions[token].expires_at < now {
        None
    } else if v.banned.contains(v.sessions[token].member_id@) {
        None
    } else {
        Some(v.sessions[token])
    }
}

/// State after banning `member` (and `ip`, when given): its sessions are gone.
pub open spec fn spec_revoke(v: AuthView, member: Seq<char>, ip: Seq<char>) -> AuthView {
    AuthView {
        sessions: without_member(v.sessions, member),
        banned: v.banned.insert(member),
        banned_ips: if ip.len() > 0 { v.banned_ips.insert(ip) } else { v.banned_ips },
        ttl: v.ttl,
    }
}

/// State after lifting the ban of `member` (and `ip`, when given).
pub open spec fn spec_unban(v: AuthView, member: Seq<char>, ip: Seq<char>) -> AuthView {
    AuthView {
        sessions: v.sessions,
        banned: v.banned.remove(member),
        banned_ips: if ip.len() > 0 { v.banned_ips.remove(ip) } else { v.banned_ips },
        ttl: v.ttl,
    }
}

/// What issuing a token does: refused sign-ins fail and change nothing; a
/// machine with a live session gets that session back; otherwise a new
/// session under `token` is stored and returned.
pub open spec fn issued(v: AuthView, machine: Seq<char>, display: Seq<char>, ip: Seq<char>, now: u64, token: Seq<char>, r: Result<Session, RuntimeError>, after: AuthView) -> bool {
    if refused(v, machine, ip) {
        &&& r matches Err(e) && e matches RuntimeError::Auth(msg) && msg@ == "banned"@
        &&& after == v
    } else if exists|t: Seq<char>| live_for(v, machine, now, t) {
        &&& r matches Ok(s) && live_for(v, machine, now, s.token@) && v.sessions[s.token@] == s
        &&& after == v
    } else {
        &&& r matches Ok(s) && new_session(machine, display, now, v.ttl, token, s) && after == (AuthView {
            sessions: v.sessions.insert(token, s),
            ..v
        })
    }
}

/// 32 random bytes from the thread-local generator of `rand`. Nothing is
/// stated of their value.
#[verifier::external_body]
fn random_token_bytes() -> (b: [u8; 32]) {
    rand::random::<[u8; 32]>()
}

/// A fresh token: 32 random bytes in lower-case hex (64 characters).
pub fn gen_token() -> (t: String)
    ensures
        t@.len() == 64,
        exists|b: Seq<u8>| b.len() == 32 && t@ == #[trigger] hex_lower(b),
{
    let b = random_token_bytes();
    let t = to_hex_lower(&b);
    assert(b@.len() == 32 && t@ == hex_lower(b@));
    t
}

/// Authentication service.
pub struct AuthService {
    sessions: Vec<(String, Session)>,
    banned: Vec<String>,
    banned_ips: Vec<String>,
    ttl_secs: u64,
}

impl View for AuthService {
    type V = AuthView;

    closed spec fn view(&self) -> AuthView {
        AuthView {
            sessions: smap(self.sessions@),
            banned: set_of(self.banned@),
            banned_ips: set_of(self.banned_ips@),
            ttl: self.ttl_secs,
        }
    }
}

impl AuthService {
    /// Tokens are distinct keys and each session is filed under its own token.
    pub closed spec fn wf(&self) -> bool {
        &&& swf(self.sessions@)
        &&& forall|i: int| 0 <= i < self.sessions@.len() ==> (#[trigger] self.sessions@[i]).1.token@ == self.sessions@[i].0@
    }

    /// A service with no sessions and no bans (the caller restores what was persisted).
    pub fn new(ttl_secs: u64) -> (s: Self)
        ensures
            s.wf(),
            s@.sessions == Map::<Seq<char>, Session>::empty(),
            s@.banned == Set::<Seq<char>>::empty(),
            s@.banned_ips == Set::<Seq<char>>::empty(),
            s@.ttl == ttl_secs,
    {
        let s = AuthService { sessions: Vec::new(), banned: Vec::new(), banned_ips: Vec::new(), ttl_secs };
        assert(smap(s.sessions@) =~= Map::empty());
        assert(set_of(s.banned@) =~= Set::empty());
        assert(set_of(s.banned_ips@) =~= Set::empty());
        s
    }

    /// Same as `new`; sessions are persisted by the caller.
    pub fn new_with_store(ttl_secs: u64) -> (s: Self)
        ensures
            s.wf(),
            s@.sessions == Map::<Seq<char>, Session>::empty(),
            s@.banned == Set::<Seq<char>>::empty(),
            s@.banned_ips == Set::<Seq<char>>::empty(),
            s@.ttl == ttl_secs,
    {
        Self::new(ttl_secs)
    }

    /// Every stored session is filed under its own token.
    pub proof fn lemma_token_key(&self, t: Seq<char>)
        requires
            self.wf(),
            self@.sessions.contains_key(t),
        ensures
            self@.sessions[t].token@ == t,
    {
        crate::kvmap::lemma_map_of_dom(crate::kvmap::string_pairs(self.sessions@), t);
        let i = choose|i: int| crate::kvmap::key_at(crate::kvmap::string_pairs(self.sessions@), t, i);
        lemma_smap_at(self.sessions@, i);
    }

    /// Issues a token to `machine_name` at time `now`, using `token` if a new one is needed.
    pub fn issue_at(&mut self, machine_name: &str, display_name: &str, ip: &str, now: u64, token: String) -> (r: Result<Session, RuntimeError>)
        requires
            old(self).wf(),
        ensures
            final(self).wf(),
            issued(old(self)@, machine_name@, display_name@, ip@, now, token@, r, final(self)@),
    {
        if set_contains(&self.banned_ips, ip) || set_contains(&self.banned, machine_name) {
            return Err(RuntimeError::Auth("banned".to_owned()));
        }
        let mut i: usize = 0;
        while i < self.sessions.len()
            invariant
                self.wf(),
                self@ == old(self)@,
                !refused(old(self)@, machine_name@, ip@),
                i <= self.sessions.len(),
                forall|j: int| 0 <= j < i ==> !((#[trigger] self.sessions@[j]).1.member_id@ == machine_name@ && self.sessions@[j].1.expires_at > now),
            decreases self.sessions.len() - i,
        {
            let s = &self.sessions[i].1;
            if str_eq(s.member_id.as_str(), machine_name) && s.expires_at > now {
                proof {
                    lemma_smap_at(self.sessions@, i as int);
                    assert(self.sessions@[i as int].1.token@ == self.sessions@[i as int].0@);
                    assert(self@.sessions[s.token@] == *s);
                    assert(live_for(self@, machine_name@, now, s.token@));
                }
                return Ok(s.duplicate());
            }
            i = i + 1;
        }
        proof {
            assert forall|t: Seq<char>| !live_for(self@, machine_name@, now, t) by {
                if self@.sessions.contains_key(t) {
                    crate::kvmap::lemma_map_of_dom(crate::kvmap::string_pairs(self.sessions@), t);
                    let j = choose|j: int| crate::kvmap::key_at(crate::kvmap::string_pairs(self.sessions@), t, j);
                    lemma_smap_at(self.sessions@, j);
                }
            }
        }
        let display = if char_count(display_name) > 0 { display_name.to_owned() } else { machine_name.to_owned() };
        let expires_at = now.saturating_add(self.ttl_secs);
        let session = Session {
            token: token.clone(),
            member_id: machine_name.to_owned(),
            machine_name: machine_name.to_owned(),
            display_name: display,
            expires_at,
            issued_at: now,
        };
        let ghost before = self.sessions@;
        let ghost ss = session;
        put(&mut self.sessions, token, session.duplicate());
        proof {
            assert forall|i: int| 0 <= i < self.sessions@.len() implies (#[trigger] self.sessions@[i]).1.token@ == self.sessions@[i].0@ by {
                lemma_smap_at(self.sessions@, i);
                let k = self.sessions@[i].0@;
                if k != ss.token@ {
                    crate::kvmap::lemma_map_of_dom(crate::kvmap::string_pairs(before), k);
                    let j = choose|j: int| crate::kvmap::key_at(crate::kvmap::string_pairs(before), k, j);
                    lemma_smap_at(before, j);
                }
            }
        }
        Ok(session)
    }

    /// Issues a token now (an existing live session of the machine is handed back).
    pub fn issue(&mut self, machine_name: &str, display_name: &str, ip: &str) -> (r: Result<Session, RuntimeError>)
        requires
            old(self).wf(),
        ensures
            final(self).wf(),
            exists|now: u64, token: Seq<char>| #[trigger] issued(old(self)@, machine_name@, display_name@, ip@, now, token, r, final(self)@)
                && exists|b: Seq<u8>| b.len() == 32 && token == #[trigger] hex_lower(b),
    {
        let now = crate::clock::now_secs();
        let token = gen_token();
        let ghost tv = token@;
        let r = self.issue_at(machine_name, display_name, ip, now, token);
        assert(issued(old(self)@, machine_name@, display_name@, ip@, now, tv, r, self@));
        assert(exists|b: Seq<u8>| b.len() == 32 && tv == #[trigger] hex_lower(b));
        r
    }

    /// Drops every session of `member`.
    fn drop_member_sessions(&mut self, member: &str)
        requires
            old(self).wf(),
        ensures
            final(self).wf(),
            final(self)@ == sessions_dropped(old(self)@, member@),
    {
        let ghost p = not_of(member@);
        let mut out: Vec<(String, Session)> = Vec::new();
        let mut i: usize = 0;
        assert(self.sessions@.take(0) =~= Seq::<(String, Session)>::empty());
        while i < self.sessions.len()
            invariant
                i <= self.sessions.len(),
                p == not_of(member@),
                out@ == keep(self.sessions@.take(i as int), p),
            decreases self.sessions.len() - i,
        {
            assert(self.sessions@.take(i + 1).drop_last() =~= self.sessions@.take(i as int));
            assert(p(self.sessions@[i as int].1) == (self.sessions@[i as int].1.member_id@ != member@));
            if !str_eq(self.sessions[i].1.member_id.as_str(), member) {
                out.push((self.sessions[i].0.clone(), self.sessions[i].1.duplicate()));
            }
            i = i + 1;
        }
        assert(self.sessions@.take(self.sessions.len() as int) =~= self.sessions@);
        proof {
            lemma_smap_keep(self.sessions@, p);
            assert(smap(out@) =~= without_member(old(self)@.sessions, member@));
            assert forall|i: int| 0 <= i < out@.len() implies (#[trigger] out@[i]).1.token@ == out@[i].0@ by {
                crate::kvmap::lemma_keep_from(self.sessions@, p, i);
            }
        }
        self.sessions = out;
    }

    /// Rotates at time `now`: revokes the machine's tokens, then issues one
    /// (under `token` when a new one is needed).
    pub fn rotate_at(&mut self, machine_name: &str, display_name: &str, ip: &str, now: u64, token: String) -> (r: Result<Session, RuntimeError>)
        requires
            old(self).wf(),
        ensures
            final(self).wf(),
            issued(sessions_dropped(old(self)@, machine_name@), machine_name@, display_name@, ip@, now, token@, r, final(self)@),
    {
        self.drop_member_sessions(machine_name);
        self.issue_at(machine_name, display_name, ip, now, token)
    }

    /// Rotates: revokes the machine's tokens, then issues a new one.
    pub fn rotate(&mut self, machine_name: &str, display_name: &str, ip: &str) -> (r: Result<Session, RuntimeError>)
        requires
            old(self).wf(),
        ensures
            final(self).wf(),
            exists|now: u64, token: Seq<char>| #[trigger] issued(
                sessions_dropped(old(self)@, machine_name@),
                machine_name@,
                display_name@,
                ip@,
                now,
                token,
                r,
                final(self)@,
            ),
    {
        self.drop_member_sessions(machine_name);
        self.issue(machine_name, display_name, ip)
    }

    /// Checks a token at time `now`.
    pub fn verify_at(&self, token: &str, now: u64) -> (r: Option<Session>)
        requires
            self.wf(),
        ensures
            r == spec_verify(self@, token@, now),
    {
        let s = match get_key(&self.sessions, token) {
            Some(s) => s,
            None => return None,
        };
        if s.expires_at < now {
            return None;
        }
        if set_contains(&self.banned, s.member_id.as_str()) {
            return None;
        }
        Some(s.duplicate())
    }

    /// Checks a token now.
    pub fn verify(&self, token: &str) -> (r: Option<Session>)
        requires
            self.wf(),
        ensures
            exists|now: u64| r == #[trigger] spec_verify(self@, token@, now),
    {
        let now = crate::clock::now_secs();
        self.verify_at(token, now)
    }

    /// Bans a member (and its source IP, when given) and revokes all its tokens.
    pub fn revoke_member(&mut self, member_id: &str, ip: &str)
        requires
            old(self).wf(),
        ensures
            final(self).wf(),
            final(self)@ == spec_revoke(old(self)@, member_id@, ip@),
    {
        set_insert(&mut self.banned, member_id);
        if char_count(ip) > 0 {
            set_insert(&mut self.banned_ips, ip);
        }
        self.drop_member_sessions(member_id);
    }

    /// Lifts the ban of a member (and of its source IP, when given).
    pub fn unban(&mut self, member_id: &str, ip: &str)
        requires
            old(self).wf(),
        ensures
            final(self).wf(),
            final(self)@ == spec_unban(old(self)@, member_id@, ip@),
    {
        set_remove(&mut self.banned, member_id);
        if char_count(ip) > 0 {
            set_remove(&mut self.banned_ips, ip);
        }
    }

    pub fn is_member_banned(&self, member_id: &str) -> (r: bool)
        ensures
            r == self@.banned.contains(member_id@),
    {
        set_contains(&self.banned, member_id)
    }

    pub fn is_banned(&self, ip: &str) -> (r: bool)
        ensures
            r == self@.banned_ips.contains(ip@),
    {
        set_contains(&self.banned_ips, ip)
    }

    /// Number of stored sessions.
    pub fn session_count(&self) -> (n: usize)
        requires
            self.wf(),
        ensures
            n == self@.sessions.len(),
    {
        proof {
            lemma_smap_len(self.sessions@);
        }
        self.sessions.len()
    }

    /// The banned members and source IPs (for persisting).
    pub fn banned_lists(&self) -> (r: (Vec<String>, Vec<String>))
        ensures
            set_of(r.0@) == self@.banned,
            set_of(r.1@) == self@.banned_ips,
    {
        (crate::text::clone_strings(&self.banned), crate::text::clone_strings(&self.banned_ips))
    }

    /// Every stored session (for persisting).
    pub fn sessions(&self) -> (r: Vec<Session>)
        requires
            self.wf(),
        ensures
            r@.len() == self@.sessions.len(),
            forall|i: int| 0 <= i < r@.len() ==> #[trigger] self@.sessions.contains_key(r@[i].token@) && self@.sessions[r@[i].token@] == r@[i],
    {
        let mut r: Vec<Session> = Vec::new();
        let mut i: usize = 0;
        while i < self.sessions.len()
            invariant
                self.wf(),
                i <= self.sessions.len(),
                r@.len() == i,
                forall|j: int| 0 <= j < i ==> #[trigger] r@[j] == self.sessions@[j].1,
            decreases self.sessions.len() - i,
        {
            r.push(self.sessions[i].1.duplicate());
            i = i + 1;
        }
        proof {
            lemma_smap_len(self.sessions@);
            assert forall|i: int| 0 <= i < r@.len() implies #[trigger] self@.sessions.contains_key(r@[i].token@) && self@.sessions[r@[i].token@] == r@[i] by {
                lemma_smap_at(self.sessions@, i);
            }
        }
        r
    }

    /// Restores a persisted ban list.
    pub fn restore_banned(&mut self, members: &Vec<String>, ips: &Vec<String>)
        requires
            old(self).wf(),
        ensures
            final(self).wf(),
            final(self)@ == (AuthView { banned: set_of(members@), banned_ips: set_of(ips@), ..old(self)@ }),
    {
        self.banned = crate::text::clone_strings(members);
        self.banned_ips = crate::text::clone_strings(ips);
    }

    /// Restores a persisted session if it is still valid after `now`.
    pub fn restore_session(&mut self, s: Session, now: u64)
        requires
            old(self).wf(),
        ensures
            final(self).wf(),
            s.expires_at > now ==> final(self)@ == (AuthView { sessions: old(self)@.sessions.insert(s.token@, s), ..old(self)@ }),
            s.expires_at <= now ==> final(self)@ == old(self)@,
    {
        if s.expires_at > now {
            let ghost before = self.sessions@;
            let ghost ss = s;
            let key = s.token.clone();
            put(&mut self.sessions, key, s);
            proof {
                assert forall|i: int| 0 <= i < self.sessions@.len() implies (#[trigger] self.sessions@[i]).1.token@ == self.sessions@[i].0@ by {
                    lemma_smap_at(self.sessions@, i);
                    let k = self.sessions@[i].0@;
                    if k != ss.token@ {
                        crate::kvmap::lemma_map_of_dom(crate::kvmap::string_pairs(before), k);
                        let j = choose|j: int| crate::kvmap::key_at(crate::kvmap::string_pairs(before), k, j);
                        lemma_smap_at(before, j);
                    }
                }
            }
        }
    }
}

} // verus!

verus! {

/// At `now`, no member holds two live sessions.
pub open spec fn single_live(v: AuthView, now: u64) -> bool {
    forall|m: Seq<char>, t1: Seq<char>, t2: Seq<char>|
        #![trigger live_for(v, m, now, t1), live_for(v, m, now, t2)]
        live_for(v, m, now, t1) && live_for(v, m, now, t2) ==> t1 == t2
}

/// A ban takes effect at once: no session of the banned member is left (so
/// none of its tokens verifies), the member cannot sign in again from any IP,
/// and nobody can sign in from the banned IP.
pub proof fn law_revoke_blocks(v: AuthView, member: Seq<char>, ip: Seq<char>, t: Seq<char>, now: u64, other: Seq<char>, other_ip: Seq<char>)
    ensures
        spec_verify(spec_revoke(v, member, ip), t, now) matches Some(s) ==> s.member_id@ != member,
        !(spec_revoke(v, member, ip).sessions.contains_key(t) && spec_revoke(v, member, ip).sessions[t].member_id@ == member),
        refused(spec_revoke(v, member, ip), member, other_ip),
        ip.len() > 0 ==> refused(spec_revoke(v, member, ip), other, ip),
{
}

/// A ban leaves the sessions of every other member as they were.
pub proof fn law_revoke_spares_others(v: AuthView, member: Seq<char>, ip: Seq<char>, t: Seq<char>)
    requires
        v.sessions.contains_key(t),
        v.sessions[t].member_id@ != member,
    ensures
        spec_revoke(v, member, ip).sessions.contains_key(t),
        spec_revoke(v, member, ip).sessions[t] == v.sessions[t],
{
}

/// Lifting a ban clears the member; given an IP, it readmits the member
/// from that IP; given none, the IP bans stay as they were. Sessions are
/// untouched either way.
pub proof fn law_unban_readmits(v: AuthView, member: Seq<char>, ip: Seq<char>)
    ensures
        !spec_unban(v, member, ip).banned.contains(member),
        ip.len() > 0 ==> !refused(spec_unban(v, member, ip), member, ip),
        ip.len() == 0 ==> spec_unban(v, member, ip).banned_ips == v.banned_ips,
        spec_unban(v, member, ip).sessions == v.sessions,
{
}

/// A token that was just issued verifies until it expires.
pub proof fn law_issue_then_verify(v: AuthView, machine: Seq<char>, display: Seq<char>, ip: Seq<char>, now: u64, token: Seq<char>, s: Session, after: AuthView, later: u64)
    requires
        issued(v, machine, display, ip, now, token, Ok(s), after),
        later <= s.expires_at,
    ensures
        spec_verify(after, s.token@, later) == Some(s),
{
}

/// Issuing keeps "at most one live session per member" for every later time.
pub proof fn law_issue_single_live(v: AuthView, machine: Seq<char>, display: Seq<char>, ip: Seq<char>, now: u64, token: Seq<char>, r: Result<Session, RuntimeError>, after: AuthView, later: u64)
    requires
        single_live(v, now),
        issued(v, machine, display, ip, now, token, r, after),
        now <= later,
    ensures
        single_live(after, later),
{
    assert forall|m: Seq<char>, t1: Seq<char>, t2: Seq<char>|
        live_for(after, m, later, t1) && live_for(after, m, later, t2) implies t1 == t2 by {
        assert(live_for(after, m, later, t1) ==> live_for(v, m, now, t1) || t1 == token);
        assert(live_for(after, m, later, t2) ==> live_for(v, m, now, t2) || t2 == token);
        if !refused(v, machine, ip) && !(exists|t: Seq<char>| live_for(v, machine, now, t)) {
            if t1 == token && t2 != token {
                assert(live_for(v, m, now, t2));
                assert(m == machine);
            }
            if t2 == token && t1 != token {
                assert(live_for(v, m, now, t1));
                assert(m == machine);
            }
        }
    }
}

/// Issuing is idempotent per machine: once a machine holds a token, asking
/// again before it expires (and while not banned) hands back the same session
/// and changes nothing.
pub proof fn law_issue_idempotent(
    v: AuthView,
    machine: Seq<char>,
    display: Seq<char>,
    ip: Seq<char>,
    now: u64,
    token: Seq<char>,
    s: Session,
    mid: AuthView,
    display2: Seq<char>,
    ip2: Seq<char>,
    later: u64,
    token2: Seq<char>,
    r2: Result<Session, RuntimeError>,
    end: AuthView,
)
    requires
        single_live(v, now),
        issued(v, machine, display, ip, now, token, Ok(s), mid),
        now <= later,
        later < s.expires_at,
        !refused(mid, machine, ip2),
        issued(mid, machine, display2, ip2, later, token2, r2, end),
    ensures
        r2 == Ok::<Session, RuntimeError>(s),
        end == mid,
{
    law_issue_single_live(v, machine, display, ip, now, token, Ok(s), mid, later);
    assert(live_for(mid, machine, later, s.token@));
    let r = r2.unwrap();
    assert(live_for(mid, machine, later, r.token@));
}

} // verus!
