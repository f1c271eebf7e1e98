//! Member-side gateway: which leader a request goes to, and the link
//! encryption of what is sent and what comes back (sending it is the
//! caller's part).
//!
//! A leader set from a deep link (across networks) comes first; otherwise
//! the online leader heard most recently. Requests to a deep-link leader are
//! encrypted when `link.encrypt` is not `off`, the path is not a token
//! exchange and the request carries a bearer token; the key is SHA-256 of
//! that token, as the leader derives it.
use vstd::prelude::*;
use crate::discovery::{link_port, LeaderInfo};
use crate::link::{exempt, is_exempt, token_key};
use crate::link_crypto::{gzip_of, opened, sealed_form, LinkCrypto, LinkEncryptMode, ENC_VERSION, NONCE_LEN, PAYLOAD_MAX, TAG_LEN};
use crate::text::{char_count, concat, decimal, has_prefix, str_eq, trim, trim_end, trim_end_char, trim_ws, u64_decimal};

verus! {

/// The member-side gateway's state: the deep-link leader, if any, and the
/// link encryption setting.
pub struct MemberGateway {
    static_leader: Option<LeaderInfo>,
    encrypt: LinkEncryptMode,
}

/// The leader `leaders[i]` is the one picked from a discovered list: online,
/// heard no earlier than any other online leader, and the first such.
pub open spec fn picked_at(leaders: Seq<LeaderInfo>, i: int) -> bool {
    &&& 0 <= i < leaders.len()
    &&& leaders[i].online
    &&& forall|j: int| 0 <= j < leaders.len() && leaders[j].online ==> leaders[j].last_seen <= leaders[i].last_seen
    &&& forall|j: int| 0 <= j < i && leaders[j].online ==> leaders[j].last_seen < leaders[i].last_seen
}

/// Some discovered leader is online.
pub open spec fn any_online(leaders: Seq<LeaderInfo>) -> bool {
    exists|j: int| 0 <= j < leaders.len() && leaders[j].online
}

/// The number of online leaders among the first `n`.
pub open spec fn online_count(leaders: Seq<LeaderInfo>, n: int) -> nat
    decreases n,
{
    if n <= 0 || n > leaders.len() {
        0
    } else {
        online_count(leaders, n - 1) + if leaders[n - 1].online { 1nat } else { 0nat }
    }
}

/// `name@address:port` of a leader.
pub open spec fn leader_line(l: LeaderInfo) -> Seq<char> {
    l.name@ + "@"@ + l.address@ + ":"@ + decimal(link_port(l) as nat)
}

/// The request to send to a leader.
pub struct ProxyRequest {
    /// Full URL.
    pub url: String,
    /// POST with the body, else GET.
    pub post: bool,
    /// `Authorization` header to pass on.
    pub authorization: Option<String>,
    /// The body is encrypted and `x-aipg-enc: v1` is sent.
    pub encrypted: bool,
    /// Link key (all zero when not encrypting).
    pub key: [u8; 32],
    pub body: Option<Vec<u8>>,
}

/// The bearer token of an `Authorization` value (`Bearer <token>`, trimmed;
/// empty otherwise).
pub open spec fn auth_token(auth: Option<Seq<char>>) -> Seq<char> {
    match auth {
        Some(a) => if has_prefix(a, "Bearer "@) {
            trim_ws(a.subrange(7, a.len() as int))
        } else {
            Seq::empty()
        },
        None => Seq::empty(),
    }
}

impl MemberGateway {
    /// The deep-link leader.
    pub closed spec fn static_leader_of(&self) -> Option<LeaderInfo> {
        self.static_leader
    }

    /// The link encryption setting.
    pub closed spec fn encrypt_of(&self) -> LinkEncryptMode {
        self.encrypt
    }

    /// A gateway without link encryption.
    pub fn new() -> (g: Self)
        ensures
            g.static_leader_of() is None,
            g.encrypt_of() == LinkEncryptMode::Off,
    {
        Self::with_encrypt(LinkEncryptMode::Off)
    }

    /// A gateway with the given link encryption setting.
    pub fn with_encrypt(encrypt: LinkEncryptMode) -> (g: Self)
        ensures
            g.static_leader_of() is None,
            g.encrypt_of() == encrypt,
    {
        MemberGateway { static_leader: None, encrypt }
    }

    /// Sets the deep-link leader (it takes precedence over discovery).
    pub fn set_static_leader(&mut self, leader: LeaderInfo)
        ensures
            final(self).static_leader_of() == Some(leader),
            final(self).encrypt_of() == old(self).encrypt_of(),
    {
        self.static_leader = Some(leader);
    }

    /// Online leaders: 1 with a deep-link leader, else the online ones heard.
    pub fn leader_count(&self, leaders: &Vec<LeaderInfo>) -> (n: usize)
        ensures
            self.static_leader_of() is Some ==> n == 1,
            self.static_leader_of() is None ==> n == online_count(leaders@, leaders@.len() as int),
    {
        if self.static_leader.is_some() {
            return 1;
        }
        let mut n: usize = 0;
        let mut i: usize = 0;
        while i < leaders.len()
            invariant
                i <= leaders.len(),
                n == online_count(leaders@, i as int),
                n <= i,
            decreases leaders.len() - i,
        {
            if leaders[i].online {
                n = n + 1;
            }
            i = i + 1;
        }
        n
    }

    /// One line on the leader in use: the deep-link leader marked
    /// `[deep-link]`, else the first online leader; `none` when nothing was
    /// heard, `offline` when nothing heard is online.
    pub fn leader_summary(&self, leaders: &Vec<LeaderInfo>) -> (s: String)
        ensures
            self.static_leader_of() matches Some(l) ==> s@ == "[deep-link] "@ + leader_line(l),
            self.static_leader_of() is None ==> (if any_online(leaders@) {
                exists|i: int| 0 <= i < leaders@.len() && leaders@[i].online
                    && (forall|j: int| 0 <= j < i ==> !leaders@[j].online) && s@ == leader_line(leaders@[i])
            } else if leaders@.len() == 0 {
                s@ == "none"@
            } else {
                s@ == "offline"@
            }),
    {
        match &self.static_leader {
            Some(l) => {
                let line = line_of(l);
                return concat("[deep-link] ", line.as_str());
            },
            None => {},
        }
        let mut i: usize = 0;
        while i < leaders.len()
            invariant
                self.static_leader_of() is None,
                i <= leaders.len(),
                forall|j: int| 0 <= j < i ==> !leaders@[j].online,
            decreases leaders.len() - i,
        {
            if leaders[i].online {
                return line_of(&leaders[i]);
            }
            i = i + 1;
        }
        if leaders.len() == 0 {
            "none".to_string()
        } else {
            "offline".to_string()
        }
    }

    /// The leader to send to: the deep-link leader, else the online leader
    /// heard most recently (the first of those heard at the same time).
    pub fn pick_leader(&self, leaders: &Vec<LeaderInfo>) -> (r: Option<LeaderInfo>)
        ensures
            self.static_leader_of() is Some ==> r == self.static_leader_of(),
            self.static_leader_of() is None ==> (r is Some <==> any_online(leaders@)),
            self.static_leader_of() is None ==> (r matches Some(l) ==> exists|i: int| picked_at(leaders@, i) && l == leaders@[i]),
    {
        match &self.static_leader {
            Some(l) => return Some(l.duplicate()),
            None => {},
        }
        let mut best: Option<usize> = None;
        let mut i: usize = 0;
        while i < leaders.len()
            invariant
                i <= leaders.len(),
                best is None ==> forall|j: int| 0 <= j < i ==> !leaders@[j].online,
                best matches Some(b) ==> b < i && picked_at(leaders@.take(i as int), b as int),
            decreases leaders.len() - i,
        {
            if leaders[i].online {
                match best {
                    Some(b) => {
                        if leaders[i].last_seen > leaders[b].last_seen {
                            best = Some(i);
                        }
                    },
                    None => {
                        best = Some(i);
                    },
                }
            }
            proof {
                let t = leaders@.take(i + 1);
                assert(forall|j: int| 0 <= j < i + 1 ==> t[j] == leaders@[j]);
            }
            i = i + 1;
        }
        assert(leaders@.take(leaders.len() as int) =~= leaders@);
        match best {
            Some(b) => Some(leaders[b].duplicate()),
            None => None,
        }
    }

    /// Link encryption is in force: a deep-link leader and a setting other
    /// than `off` (on the local network the link stays plain).
    pub fn link_encrypts(&self) -> (b: bool)
        ensures
            b == (self.encrypt_of() != LinkEncryptMode::Off && self.static_leader_of() is Some),
    {
        !matches!(self.encrypt, LinkEncryptMode::Off) && self.static_leader.is_some()
    }

    /// The request for `path` (with the caller's `Authorization` value and
    /// body) to the picked leader; an error when no leader is known, or when
    /// the body is beyond what AES-GCM seals.
    pub fn prepare(&self, leaders: &Vec<LeaderInfo>, path: &str, auth: Option<&str>, body: Option<Vec<u8>>) -> (r: Result<ProxyRequest, String>)
        ensures
            (self.static_leader_of() is None && !any_online(leaders@)) ==> (r matches Err(m)
                && m@ == "no leader available (LAN discovery empty + no deep-link target)"@),
            r matches Ok(q) ==> {
                let enc = self.encrypt_of() != LinkEncryptMode::Off && self.static_leader_of() is Some && !exempt(path@)
                    && auth_token(match auth { Some(a) => Some(a@), None => None }).len() > 0;
                &&& q.post == (body is Some)
                &&& (match q.authorization { Some(a) => Some(a@), None => None }) == (match auth { Some(a) => Some(a@), None => None })
                &&& q.encrypted == enc
                &&& enc ==> q.key@ == token_key(auth_token(match auth { Some(a) => Some(a@), None => None }))
                &&& !enc ==> q.key@ == Seq::new(32, |i: int| 0u8)
                &&& (exists|l: LeaderInfo| {
                    &&& (self.static_leader_of() matches Some(s) ==> l == s)
                    &&& (self.static_leader_of() is None ==> exists|i: int| picked_at(leaders@, i) && l == leaders@[i])
                    &&& q.url@ == trim_end("http://"@ + l.address@ + ":"@ + decimal(link_port(l) as nat), '/') + path@
                })
                &&& match body {
                    Some(b) => if enc {
                        q.body matches Some(c) && c@ == sealed_form(6, q.key@, c@.subrange(0, 12), b@)
                    } else {
                        q.body matches Some(c) && c@ == b@
                    },
                    None => q.body is None,
                }
            },
            r is Err && (self.static_leader_of() is Some || any_online(leaders@)) ==> {
                let enc = self.encrypt_of() != LinkEncryptMode::Off && self.static_leader_of() is Some && !exempt(path@)
                    && auth_token(match auth { Some(a) => Some(a@), None => None }).len() > 0;
                enc && (body matches Some(b) && gzip_of(6, b@).len() > PAYLOAD_MAX)
            },
    {
        proof {
            reveal_strlit("Bearer ");
        }
        let leader = match self.pick_leader(leaders) {
            Some(l) => l,
            None => return Err("no leader available (LAN discovery empty + no deep-link target)".to_string()),
        };
        let base = leader.link_base();
        let trimmed = trim_end_char(base.as_str(), '/');
        let url = concat(trimmed.as_str(), path);
        let token = match auth {
            Some(a) => {
                if crate::text::starts_with(a, "Bearer ") {
                    let rest = crate::text::last_chars(a, char_count(a) - 7);
                    assert(rest@ =~= a@.subrange(7, a@.len() as int));
                    trim(rest.as_str())
                } else {
                    String::new()
                }
            },
            None => String::new(),
        };
        let encrypting = self.link_encrypts() && !is_exempt(path) && char_count(token.as_str()) > 0;
        let mut key: [u8; 32] = [0u8; 32];
        assert(key@ =~= Seq::new(32, |i: int| 0u8));
        let post = body.is_some();
        let out_body = if encrypting {
            key = LinkCrypto::derive_key(token.as_str());
            match body {
                Some(b) => {
                    let crypto = LinkCrypto::new();
                    match crypto.try_encrypt(&key, b.as_slice()) {
                        Some(c) => Some(c),
                        None => return Err("request body too large to encrypt".to_string()),
                    }
                },
                None => None,
            }
        } else {
            body
        };
        let authorization = match auth {
            Some(a) => Some(a.to_string()),
            None => None,
        };
        Ok(ProxyRequest { url, post, authorization, encrypted: encrypting, key, body: out_body })
    }

    /// The leader's answer as the caller gets it: a response marked
    /// `x-aipg-enc: v1` is decrypted with the request's key; others pass as
    /// they are.
    pub fn finish(&self, req: &ProxyRequest, status: u16, enc_header: Option<&str>, bytes: Vec<u8>) -> (r: Result<(u16, Vec<u8>), String>)
        ensures
            !(enc_header matches Some(h) && h@ == ENC_VERSION@) ==> r == Ok::<(u16, Vec<u8>), String>((status, bytes)),
            (enc_header matches Some(h) && h@ == ENC_VERSION@) && bytes@.len() >= NONCE_LEN + TAG_LEN ==> match opened(req.key@, bytes@) {
                Some(Some(p)) => r matches Ok((s, b)) && s == status && b@ == p,
                _ => r is Err,
            },
            (enc_header matches Some(h) && h@ == ENC_VERSION@) && bytes@.len() < NONCE_LEN + TAG_LEN ==> r is Err,
            r matches Err(m) ==> has_prefix(m@, "leader response decrypt failed: "@),
    {
        let resp_enc = match enc_header {
            Some(h) => str_eq(h, ENC_VERSION),
            None => false,
        };
        if !resp_enc {
            return Ok((status, bytes));
        }
        let crypto = LinkCrypto::new();
        match crypto.decrypt(&req.key, bytes.as_slice()) {
            Ok(plain) => Ok((status, plain)),
            Err(e) => {
                proof {
                    reveal_strlit("leader response decrypt failed: ");
                }
                let m = concat("leader response decrypt failed: ", e.message().as_str());
                assert(m@.take("leader response decrypt failed: "@.len() as int) =~= "leader response decrypt failed: "@);
                Err(m)
            },
        }
    }
}

fn line_of(l: &LeaderInfo) -> (s: String)
    ensures
        s@ == leader_line(*l),
{
    let port = match l.share_port {
        Some(p) => if p > 0 { p } else { l.api_port },
        None => l.api_port,
    };
    let a = concat(l.name.as_str(), "@");
    let b = concat(a.as_str(), l.address.as_str());
    let c = concat(b.as_str(), ":");
    let d = u64_decimal(port as u64);
    let s = concat(c.as_str(), d.as_str());
    assert(s@ =~= leader_line(*l));
    s
}

} // verus!

verus! {

/// A member and its leader derive the same link key: the token the member's
/// gateway encrypts with (from `Authorization: Bearer <token>`) is the token
/// the leader decrypts that request with, whatever `x-api-key` says, so the
/// two keys are equal.
pub proof fn law_link_keys_agree(auth: Seq<char>, x_api_key: Option<Seq<char>>, member_key: Seq<u8>, leader_key: Seq<u8>)
    requires
        has_prefix(auth, "Bearer "@),
        member_key == token_key(auth_token(Some(auth))),
        crate::admin::token_of(Some(auth), x_api_key) matches Some(t) && leader_key == token_key(t),
    ensures
        crate::admin::token_of(Some(auth), x_api_key) == Some(auth_token(Some(auth))),
        member_key == leader_key,
{
}

} // verus!
