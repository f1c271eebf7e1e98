//! Optional account plugin: anonymous use first; logging in only adds account
//! status, device binding and credential recovery.
use vstd::prelude::*;
use crate::coord::{AccountClient, AccountClientConfig, LoginResponse};
use crate::data_dir::{join, join_path};
use crate::text::concat;

verus! {

/// Account session (kept in `data_dir/account.json`).
#[derive(Debug, Clone)]
pub struct AccountSession {
    /// User name (after login).
    pub username: Option<String>,
    /// Session token (after login).
    pub token: Option<String>,
    /// This device is bound to the account.
    pub device_bound: bool,
    /// This machine's share id at binding time (for display).
    pub share_id: Option<String>,
}

impl Default for AccountSession {
    fn default() -> (s: Self)
        ensures
            s.username is None,
            s.token is None,
            !s.device_bound,
            s.share_id is None,
    {
        AccountSession { username: None, token: None, device_bound: false, share_id: None }
    }
}

/// An optional string, or `?`.
pub open spec fn or_question(s: Option<String>) -> Seq<char> {
    match s {
        Some(t) => t@,
        None => "?"@,
    }
}

/// The one-line status shown to the user.
pub open spec fn session_summary(s: AccountSession) -> Seq<char> {
    if s.token is None {
        "匿名模式(未登录)——全部核心功能可用,登录为可选增强"@
    } else {
        "已登录(账号: "@ + or_question(s.username) + (if s.device_bound {
            ", 本机设备已绑定(shareId="@ + or_question(s.share_id) + ")"@
        } else {
            ", 本机设备未绑定(可运行 account bind)"@
        }) + ")"@
    }
}

fn text_or_question(s: &Option<String>) -> (r: String)
    ensures
        r@ == or_question(*s),
{
    match s {
        Some(t) => t.clone(),
        None => "?".to_string(),
    }
}

impl AccountSession {
    /// Logged in: a session token is held.
    pub fn is_logged_in(&self) -> (b: bool)
        ensures
            b == self.token is Some,
    {
        self.token.is_some()
    }

    /// The one-line status shown to the user.
    pub fn summary(&self) -> (s: String)
        ensures
            s@ == session_summary(*self),
    {
        if !self.is_logged_in() {
            return "匿名模式(未登录)——全部核心功能可用,登录为可选增强".to_string();
        }
        let username = text_or_question(&self.username);
        let bound = if self.device_bound {
            let share = text_or_question(&self.share_id);
            let a = concat(", 本机设备已绑定(shareId=", share.as_str());
            concat(a.as_str(), ")")
        } else {
            ", 本机设备未绑定(可运行 account bind)".to_string()
        };
        let a = concat("已登录(账号: ", username.as_str());
        let b = concat(a.as_str(), bound.as_str());
        let s = concat(b.as_str(), ")");
        assert(s@ =~= session_summary(*self));
        s
    }

    /// The session after a successful login as `username`: the reply's token
    /// and binding state are kept; the share id shown stays as it was.
    pub fn after_login(self, username: &str, resp: &LoginResponse) -> (s: AccountSession)
        ensures
            s.username matches Some(u) && u@ == username@,
            s.token matches Some(t) && t@ == resp.token@,
            s.device_bound == resp.device_bound,
            s.share_id == self.share_id,
    {
        AccountSession {
            username: Some(username.to_string()),
            token: Some(resp.token.clone()),
            device_bound: resp.device_bound,
            share_id: self.share_id,
        }
    }

    /// The session after this device was bound under share id `share_id`;
    /// the login is kept.
    pub fn after_bind(self, share_id: &str) -> (s: AccountSession)
        ensures
            s.username == self.username,
            s.token == self.token,
            s.device_bound,
            s.share_id matches Some(x) && x@ == share_id@,
    {
        AccountSession { username: self.username, token: self.token, device_bound: true, share_id: Some(share_id.to_string()) }
    }
}

/// Where the account session is kept (`data_dir/account.json`).
#[derive(Debug, Clone)]
pub struct AccountStore {
    path: String,
}

impl AccountStore {
    pub closed spec fn path_view(&self) -> Seq<char> {
        self.path@
    }

    pub fn new(data_dir: &str) -> (s: Self)
        ensures
            s.path_view() == join(data_dir@, "account.json"@),
    {
        AccountStore { path: join_path(data_dir, "account.json") }
    }

    /// The session file.
    pub fn path(&self) -> (p: &str)
        ensures
            p@ == self.path_view(),
    {
        self.path.as_str()
    }
}

/// Device registration credentials (kept in `data_dir/device.json`).
#[derive(Debug, Clone)]
pub struct DeviceSession {
    pub device_token: String,
    pub share_id: String,
}

impl DeviceSession {
    pub fn new(device_token: &str, share_id: &str) -> (d: Self)
        ensures
            d.device_token@ == device_token@,
            d.share_id@ == share_id@,
    {
        DeviceSession { device_token: device_token.to_string(), share_id: share_id.to_string() }
    }
}

/// Where the device credentials are kept (`data_dir/device.json`).
#[derive(Debug, Clone)]
pub struct DeviceStore {
    path: String,
}

impl DeviceStore {
    pub closed spec fn path_view(&self) -> Seq<char> {
        self.path@
    }

    pub fn new(data_dir: &str) -> (s: Self)
        ensures
            s.path_view() == join(data_dir@, "device.json"@),
    {
        DeviceStore { path: join_path(data_dir, "device.json") }
    }

    /// The credentials file.
    pub fn path(&self) -> (p: &str)
        ensures
            p@ == self.path_view(),
    {
        self.path.as_str()
    }
}

/// The assembled plugin: client, store, and the session restored from disk.
#[derive(Debug, Clone)]
pub struct AccountPlugin {
    pub client: AccountClient,
    pub store: AccountStore,
    pub session: AccountSession,
}

impl AccountPlugin {
    /// Assembles the plugin: `None` (anonymous mode, nothing blocked) when it
    /// is disabled or has no server address; otherwise the client resumes the
    /// saved session's token, if any (`saved`: what the session file held).
    pub fn assemble(data_dir: &str, base_url: &str, enabled: bool, saved: AccountSession) -> (r: Option<AccountPlugin>)
        ensures
            r is None <==> (!enabled || base_url@.len() == 0),
            r matches Some(p) ==> {
                &&& p.store.path_view() == join(data_dir@, "account.json"@)
                &&& p.client.base() == base_url@
                &&& p.session == saved
                &&& p.client.session_view() == match saved.token {
                    Some(t) => Some(t@),
                    None => None::<Seq<char>>,
                }
            },
    {
        if !enabled || crate::text::char_count(base_url) == 0 {
            return None;
        }
        let store = AccountStore::new(data_dir);
        let mut client = AccountClient::new(AccountClientConfig { base_url: base_url.to_string(), timeout_s: 10 });
        match &saved.token {
            Some(t) => client.restore_session(t.as_str()),
            None => {},
        }
        Some(AccountPlugin { client, store, session: saved })
    }
}

/// The account module (optional: failing or disabled never blocks a boot).
#[derive(Debug, Clone)]
pub struct AccountModule {
    /// Account server address (empty: disabled).
    pub base_url: String,
    /// Plugin switch (off by default: anonymous first).
    pub enabled: bool,
    /// Session directory.
    pub data_dir: String,
}

impl AccountModule {
    /// The module's name.
    pub fn name(&self) -> (s: &'static str)
        ensures
            s@ == "coord-account"@,
    {
        crate::boot::MOD_COORD_ACCOUNT
    }

    /// Always optional.
    pub fn optional(&self) -> (b: bool)
        ensures
            b,
    {
        true
    }
}

} // verus!
