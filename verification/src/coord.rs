//! Coordination-server client: device registration, heartbeat, share-id
//! resolution and accounts — the addresses, the state kept between calls and
//! what a reply makes of a call (the HTTP exchange is the caller's part).
use vstd::prelude::*;
use crate::text::{concat, decimal, u64_decimal};
use crate::json::{jget, json_parse, json_parse_of, lemma_view_items, Json, JsonView};

verus! {

/// Coordination-server failure.
#[derive(Debug, Clone)]
pub enum CoordError {
    /// Transport error.
    Http(String),
    /// The server answered with a non-success status.
    Relay { status: u16, body: String },
    /// The server could not be reached.
    Unreachable(String),
    /// A reply lacked a field.
    MissingField(String),
    /// The device (or account session) is not registered yet.
    NotRegistered,
    /// Telemetry is off.
    TelemetryDisabled,
}

/// The error's text, as its display form reads.
pub open spec fn coord_error_text(e: CoordError) -> Seq<char> {
    match e {
        CoordError::Http(m) => "http error: "@ + m@,
        CoordError::Relay { status, body } => "relay returned "@ + decimal(status as nat) + ": "@ + body@,
        CoordError::Unreachable(m) => "relay unreachable: "@ + m@,
        CoordError::MissingField(m) => "missing response field: "@ + m@,
        CoordError::NotRegistered => "device not registered"@,
        CoordError::TelemetryDisabled => "telemetry disabled"@,
    }
}

impl CoordError {
    /// The error's text.
    pub fn message(&self) -> (s: String)
        ensures
            s@ == coord_error_text(*self),
    {
        match self {
            CoordError::Http(m) => concat("http error: ", m.as_str()),
            CoordError::Relay { status, body } => {
                let d = u64_decimal(*status as u64);
                let a = concat("relay returned ", d.as_str());
                let b = concat(a.as_str(), ": ");
                concat(b.as_str(), body.as_str())
            },
            CoordError::Unreachable(m) => concat("relay unreachable: ", m.as_str()),
            CoordError::MissingField(m) => concat("missing response field: ", m.as_str()),
            CoordError::NotRegistered => "device not registered".to_string(),
            CoordError::TelemetryDisabled => "telemetry disabled".to_string(),
        }
    }
}

/// A reply with a 2xx status succeeds with its body; any other status is a
/// `Relay` error carrying status and body.
pub fn relay_result(status: u16, body: String) -> (r: Result<String, CoordError>)
    ensures
        200 <= status <= 299 ==> (r matches Ok(b) && b@ == body@),
        !(200 <= status <= 299) ==> (r matches Err(CoordError::Relay { status: s, body: b }) && s == status && b@ == body@),
{
    if 200 <= status && status <= 299 {
        Ok(body)
    } else {
        Err(CoordError::Relay { status, body })
    }
}

/// `base` followed by `path`.
pub open spec fn endpoint(base: Seq<char>, path: Seq<char>) -> Seq<char> {
    base + path
}

/// Device client settings.
#[derive(Debug, Clone)]
pub struct DeviceClientConfig {
    pub base_url: String,
    pub heartbeat_interval_s: u64,
    pub timeout_s: u64,
}

impl Default for DeviceClientConfig {
    fn default() -> (c: Self)
        ensures
            c.base_url@ == "http://127.0.0.1:8080"@,
            c.heartbeat_interval_s == 60,
            c.timeout_s == 10,
    {
        DeviceClientConfig { base_url: "http://127.0.0.1:8080".to_string(), heartbeat_interval_s: 60, timeout_s: 10 }
    }
}

/// What a device registers with.
#[derive(Debug, Clone)]
pub struct NodeInfo {
    pub name: String,
    pub platform: String,
    pub version: String,
    pub public_ip: String,
    pub api_port: u16,
    pub region_hint: Option<String>,
}

/// Registration reply.
#[derive(Debug, Clone)]
pub struct RegisterResponse {
    pub device_token: String,
    pub share_id: String,
    pub heartbeat_interval_s: u64,
}

/// Anonymous telemetry sent with each heartbeat (opt-in).
#[derive(Debug, Clone)]
pub struct HeartbeatTelemetry {
    pub enabled: bool,
    pub platform: String,
    pub version: String,
    pub region_hint: String,
}

impl Default for HeartbeatTelemetry {
    fn default() -> (t: Self)
        ensures
            !t.enabled,
            t.platform@ == Seq::<char>::empty(),
            t.version@ == Seq::<char>::empty(),
            t.region_hint@ == Seq::<char>::empty(),
    {
        HeartbeatTelemetry { enabled: false, platform: String::new(), version: String::new(), region_hint: String::new() }
    }
}

/// A resolved share id.
#[derive(Debug, Clone)]
pub struct ResolveResult {
    pub name: String,
    pub public_ip: String,
    pub api_port: u16,
    pub online: bool,
    pub fingerprint: String,
}

/// Device client: settings plus the credentials registration handed out.
#[derive(Debug, Clone)]
pub struct DeviceClient {
    cfg: DeviceClientConfig,
    device_token: Option<String>,
    share_id: Option<String>,
}

impl DeviceClient {
    pub closed spec fn base(&self) -> Seq<char> {
        self.cfg.base_url@
    }

    pub closed spec fn token_view(&self) -> Option<Seq<char>> {
        match self.device_token {
            Some(t) => Some(t@),
            None => None,
        }
    }

    pub closed spec fn share_id_view(&self) -> Option<Seq<char>> {
        match self.share_id {
            Some(t) => Some(t@),
            None => None,
        }
    }

    /// A client that has not registered yet.
    pub fn new(cfg: DeviceClientConfig) -> (c: Self)
        ensures
            c.base() == cfg.base_url@,
            c.token_view() is None,
            c.share_id_view() is None,
    {
        DeviceClient { cfg, device_token: None, share_id: None }
    }

    /// The settings.
    pub fn config(&self) -> (c: &DeviceClientConfig)
        ensures
            c.base_url@ == self.base(),
    {
        &self.cfg
    }

    /// `POST` address of device registration.
    pub fn register_url(&self) -> (u: String)
        ensures
            u@ == endpoint(self.base(), "/v1/device/register"@),
    {
        concat(self.cfg.base_url.as_str(), "/v1/device/register")
    }

    /// `POST` address of the heartbeat.
    pub fn heartbeat_url(&self) -> (u: String)
        ensures
            u@ == endpoint(self.base(), "/v1/device/heartbeat"@),
    {
        concat(self.cfg.base_url.as_str(), "/v1/device/heartbeat")
    }

    /// `GET` address that resolves a share id.
    pub fn resolve_url(&self, share_id: &str) -> (u: String)
        ensures
            u@ == endpoint(self.base(), "/v1/resolve?shareId="@ + share_id@),
    {
        let a = concat(self.cfg.base_url.as_str(), "/v1/resolve?shareId=");
        let u = concat(a.as_str(), share_id);
        assert(u@ =~= endpoint(self.base(), "/v1/resolve?shareId="@ + share_id@));
        u
    }

    /// Keeps the credentials of a successful registration.
    pub fn record_registration(&mut self, resp: &RegisterResponse)
        ensures
            final(self).base() == old(self).base(),
            final(self).token_view() == Some(resp.device_token@),
            final(self).share_id_view() == Some(resp.share_id@),
    {
        self.device_token = Some(resp.device_token.clone());
        self.share_id = Some(resp.share_id.clone());
    }

    /// The device token (empty before registration).
    pub fn device_token(&self) -> (t: String)
        ensures
            t@ == match self.token_view() {
                Some(x) => x,
                None => Seq::<char>::empty(),
            },
    {
        match &self.device_token {
            Some(t) => t.clone(),
            None => String::new(),
        }
    }

    /// The share id registration handed out.
    pub fn share_id(&self) -> (s: Option<String>)
        ensures
            match s {
                Some(x) => self.share_id_view() == Some(x@),
                None => self.share_id_view() is None,
            },
    {
        match &self.share_id {
            Some(t) => Some(t.clone()),
            None => None,
        }
    }
}

/// Account client settings.
#[derive(Debug, Clone)]
pub struct AccountClientConfig {
    pub base_url: String,
    pub timeout_s: u64,
}

impl Default for AccountClientConfig {
    fn default() -> (c: Self)
        ensures
            c.base_url@ == "http://127.0.0.1:8080"@,
            c.timeout_s == 10,
    {
        AccountClientConfig { base_url: "http://127.0.0.1:8080".to_string(), timeout_s: 10 }
    }
}

/// Login reply.
#[derive(Debug, Clone)]
pub struct LoginResponse {
    pub token: String,
    pub device_bound: bool,
}

/// What a login reply body reads as: an object with a string `token` and an
/// optional boolean `device_bound` (absent: `false`; other fields ignored),
/// or the same two in an array (the flag may be left out); anything else
/// reads as nothing.
pub open spec fn login_reply(text: Seq<char>) -> Option<(Seq<char>, bool)> {
    match json_parse_of(text) {
        Some(JsonView::Obj(fs)) => match jget(JsonView::Obj(fs), "token"@) {
            Some(JsonView::Str(t)) => match jget(JsonView::Obj(fs), "device_bound"@) {
                None => Some((t, false)),
                Some(JsonView::Bool(b)) => Some((t, b)),
                _ => None,
            },
            _ => None,
        },
        Some(JsonView::Arr(a)) => if a.len() == 1 {
            match a[0] {
                JsonView::Str(t) => Some((t, false)),
                _ => None,
            }
        } else if a.len() == 2 {
            match (a[0], a[1]) {
                (JsonView::Str(t), JsonView::Bool(b)) => Some((t, b)),
                _ => None,
            }
        } else {
            None
        },
        _ => None,
    }
}

/// Reads a login reply body; one that does not read as a login is
/// `MissingField("login")`.
pub fn login_from_reply(text: &str) -> (r: Result<LoginResponse, CoordError>)
    ensures
        match login_reply(text@) {
            Some((t, b)) => r matches Ok(x) && x.token@ == t && x.device_bound == b,
            None => r matches Err(CoordError::MissingField(f)) && f@ == "login"@,
        },
{
    let missing = CoordError::MissingField("login".to_string());
    match json_parse(text) {
        Ok(v) => match &v {
            Json::Object(_) => {
                let token = match v.get("token") {
                    Some(Json::Str(t)) => t.clone(),
                    _ => return Err(missing),
                };
                match v.get("device_bound") {
                    None => Ok(LoginResponse { token, device_bound: false }),
                    Some(Json::Bool(b)) => Ok(LoginResponse { token, device_bound: *b }),
                    _ => Err(missing),
                }
            },
            Json::Array(a) => {
                proof {
                    lemma_view_items(a@);
                }
                if a.len() == 1 {
                    match &a[0] {
                        Json::Str(t) => Ok(LoginResponse { token: t.clone(), device_bound: false }),
                        _ => Err(missing),
                    }
                } else if a.len() == 2 {
                    match (&a[0], &a[1]) {
                        (Json::Str(t), Json::Bool(b)) => Ok(LoginResponse { token: t.clone(), device_bound: *b }),
                        _ => Err(missing),
                    }
                } else {
                    Err(missing)
                }
            },
            _ => Err(missing),
        },
        Err(_) => Err(missing),
    }
}

/// Account client: settings plus the session token of the last login.
#[derive(Debug, Clone)]
pub struct AccountClient {
    cfg: AccountClientConfig,
    session: Option<String>,
}

impl AccountClient {
    pub closed spec fn base(&self) -> Seq<char> {
        self.cfg.base_url@
    }

    pub closed spec fn session_view(&self) -> Option<Seq<char>> {
        match self.session {
            Some(t) => Some(t@),
            None => None,
        }
    }

    /// A client without a session.
    pub fn new(cfg: AccountClientConfig) -> (c: Self)
        ensures
            c.base() == cfg.base_url@,
            c.session_view() is None,
    {
        AccountClient { cfg, session: None }
    }

    /// `POST` address of account registration.
    pub fn register_url(&self) -> (u: String)
        ensures
            u@ == endpoint(self.base(), "/v1/auth/register"@),
    {
        concat(self.cfg.base_url.as_str(), "/v1/auth/register")
    }

    /// `POST` address of login.
    pub fn login_url(&self) -> (u: String)
        ensures
            u@ == endpoint(self.base(), "/v1/auth/login"@),
    {
        concat(self.cfg.base_url.as_str(), "/v1/auth/login")
    }

    /// `POST` address of device binding.
    pub fn bind_url(&self) -> (u: String)
        ensures
            u@ == endpoint(self.base(), "/v1/auth/bind"@),
    {
        concat(self.cfg.base_url.as_str(), "/v1/auth/bind")
    }

    /// Keeps the session token of a successful login.
    pub fn record_login(&mut self, resp: &LoginResponse)
        ensures
            final(self).base() == old(self).base(),
            final(self).session_view() == Some(resp.token@),
    {
        self.session = Some(resp.token.clone());
    }

    /// Restores a saved session token (no login round trip after a restart).
    pub fn restore_session(&mut self, token: &str)
        ensures
            final(self).base() == old(self).base(),
            final(self).session_view() == Some(token@),
    {
        self.session = Some(token.to_string());
    }

    /// Whether a session token is held.
    pub fn is_session_restored(&self) -> (b: bool)
        ensures
            b == self.session_view() is Some,
    {
        self.session.is_some()
    }

    /// The bearer token binding a device needs: the session, or `NotRegistered`.
    pub fn bind_token(&self) -> (r: Result<String, CoordError>)
        ensures
            match self.session_view() {
                Some(t) => r matches Ok(x) && x@ == t,
                None => r matches Err(CoordError::NotRegistered),
            },
    {
        match &self.session {
            Some(t) => Ok(t.clone()),
            None => Err(CoordError::NotRegistered),
        }
    }
}

/// Coordination-client module settings.
#[derive(Debug, Clone)]
pub struct CoordClientModule {
    /// Server address (empty: LAN-only, the module stays idle).
    pub base_url: String,
    /// What registration sends.
    pub node: NodeInfo,
    /// Telemetry opt-in (off by default).
    pub telemetry_enabled: bool,
}

impl Default for CoordClientModule {
    fn default() -> (m: Self)
        ensures
            m.base_url@ == Seq::<char>::empty(),
            m.node.name@ == Seq::<char>::empty(),
            m.node.platform@ == Seq::<char>::empty(),
            m.node.version@ == crate::backend::VERSION@,
            m.node.public_ip@ == Seq::<char>::empty(),
            m.node.api_port == 39091,
            m.node.region_hint is None,
            !m.telemetry_enabled,
    {
        CoordClientModule {
            base_url: String::new(),
            node: NodeInfo {
                name: String::new(),
                platform: String::new(),
                version: crate::backend::VERSION.to_string(),
                public_ip: String::new(),
                api_port: 39091,
                region_hint: None,
            },
            telemetry_enabled: false,
        }
    }
}

impl CoordClientModule {
    /// The module's name.
    pub fn name(&self) -> (s: &'static str)
        ensures
            s@ == "coord-client"@,
    {
        crate::boot::MOD_COORD_CLIENT
    }

    /// Whether the module does anything: only with a server address.
    pub fn enabled(&self) -> (b: bool)
        ensures
            b == (self.base_url@.len() > 0),
    {
        crate::text::char_count(self.base_url.as_str()) > 0
    }

    /// Client settings the module uses: its address, a heartbeat every 60 s,
    /// a 10 s timeout.
    pub fn client_config(&self) -> (c: DeviceClientConfig)
        ensures
            c.base_url@ == self.base_url@,
            c.heartbeat_interval_s == 60,
            c.timeout_s == 10,
    {
        DeviceClientConfig { base_url: self.base_url.clone(), heartbeat_interval_s: 60, timeout_s: 10 }
    }

    /// The telemetry each heartbeat carries.
    pub fn telemetry(&self) -> (t: HeartbeatTelemetry)
        ensures
            t.enabled == self.telemetry_enabled,
            t.platform@ == self.node.platform@,
            t.version@ == self.node.version@,
            t.region_hint@ == match self.node.region_hint {
                Some(r) => r@,
                None => Seq::<char>::empty(),
            },
    {
        HeartbeatTelemetry {
            enabled: self.telemetry_enabled,
            platform: self.node.platform.clone(),
            version: self.node.version.clone(),
            region_hint: match &self.node.region_hint {
                Some(r) => r.clone(),
                None => String::new(),
            },
        }
    }
}

} // verus!
