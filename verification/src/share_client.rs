//! Member session with a leader: signing in with the leader's token
//! endpoint, the calls made with the session, and what their answers mean
//! (the HTTP exchange itself is the caller's part).
use vstd::prelude::*;
use crate::error::RuntimeError;
use crate::json::{jarr, jnum, jstr, jtext, json_parse, json_parse_of, ju64, lemma_view_items, or_text, view_fields, view_items, Json, JsonView};
use crate::protocol::{new_obj, put_field};
use crate::text::{char_count, concat, has_prefix, string_views, trim_end, trim_end_char, u64_decimal};

verus! {

/// A member's session with its leader.
#[derive(Debug, Clone)]
pub struct Session {
    /// Bearer token.
    pub token: String,
    /// Leader API base (`http://ip:port`).
    pub base: String,
    pub leader_name: String,
    /// Expiry (unix seconds).
    pub expires_at: u64,
    /// Revoked (kicked out).
    pub revoked: bool,
}

impl Session {
    /// The `Authorization` header value.
    pub fn auth_header(&self) -> (h: String)
        ensures
            h@ == "Bearer "@ + self.token@,
    {
        concat("Bearer ", self.token.as_str())
    }
}

/// Share-client settings.
#[derive(Debug, Clone, Copy)]
pub struct ShareClientConfig {
    /// Request timeout (seconds).
    pub timeout_secs: u64,
}

impl Default for ShareClientConfig {
    fn default() -> (c: Self)
        ensures
            c.timeout_secs == 30,
    {
        ShareClientConfig { timeout_secs: 30 }
    }
}

/// Keeps at most `max` characters of `s`.
pub fn truncate(s: &str, max: usize) -> (r: String)
    ensures
        r@ == (if s@.len() <= max { s@ } else { s@.take(max as int) }),
{
    crate::text::first_chars(s, max)
}

/// A success status (2xx).
pub open spec fn success(status: u16) -> bool {
    200 <= status && status <= 299
}

/// The model ids listed by a `/v1/models` reply (`data[].id`, as they are).
pub open spec fn listed_ids(a: Seq<JsonView>) -> Seq<Seq<char>>
    decreases a.len(),
{
    if a.len() == 0 {
        Seq::empty()
    } else {
        listed_ids(a.drop_last()) + match jstr(a.last(), "id"@) {
            Some(t) => seq![t],
            None => Seq::empty(),
        }
    }
}

/// The member's client: at most one session.
pub struct ShareClient {
    cfg: ShareClientConfig,
    session: Option<Session>,
}

impl ShareClient {
    /// The current session.
    pub closed spec fn session_of(&self) -> Option<Session> {
        self.session
    }

    /// The settings.
    pub closed spec fn config_of(&self) -> ShareClientConfig {
        self.cfg
    }

    /// A client with no session.
    pub fn new(cfg: ShareClientConfig) -> (c: Self)
        ensures
            c.session_of() is None,
            c.config_of() == cfg,
    {
        ShareClient { cfg, session: None }
    }

    /// The request timeout (seconds).
    pub fn timeout_secs(&self) -> (t: u64)
        ensures
            t == self.config_of().timeout_secs,
    {
        self.cfg.timeout_secs
    }

    /// Connected: a session is held.
    pub fn is_connected(&self) -> (b: bool)
        ensures
            b == self.session_of() is Some,
    {
        self.session.is_some()
    }

    /// The session, if any.
    pub fn session(&self) -> (r: Option<&Session>)
        ensures
            match r {
                Some(s) => self.session_of() == Some(*s),
                None => self.session_of() is None,
            },
    {
        self.session.as_ref()
    }

    /// Marks the session revoked (kicked out or password changed).
    pub fn mark_revoked(&mut self)
        ensures
            final(self).config_of() == old(self).config_of(),
            match old(self).session_of() {
                Some(s) => final(self).session_of() == Some(Session { revoked: true, ..s }),
                None => final(self).session_of() is None,
            },
    {
        match &mut self.session {
            Some(s) => {
                s.revoked = true;
            },
            None => {},
        }
    }

    /// Drops the session.
    pub fn disconnect(&mut self)
        ensures
            final(self).session_of() is None,
            final(self).config_of() == old(self).config_of(),
    {
        self.session = None;
    }

    /// The sign-in request: `<base>/auth/token` with the password (ignored
    /// by leaders since 0.2.0), the machine name and the display name.
    pub fn connect_request(base: &str, password: &str, machine_name: &str, display_name: &str) -> (r: (String, Json))
        ensures
            r.0@ == trim_end(base@, '/') + "/auth/token"@,
            r.1.view_of() == JsonView::Obj(seq![
                ("password"@, JsonView::Str(password@)),
                ("machineName"@, JsonView::Str(machine_name@)),
                ("displayName"@, JsonView::Str(display_name@)),
            ]),
    {
        let url = concat(trim_end_char(base, '/').as_str(), "/auth/token");
        let mut o = new_obj();
        put_field(&mut o, "password", jtext(password));
        put_field(&mut o, "machineName", jtext(machine_name));
        put_field(&mut o, "displayName", jtext(display_name));
        assert(view_fields(o@) =~= seq![
            ("password"@, JsonView::Str(password@)),
            ("machineName"@, JsonView::Str(machine_name@)),
            ("displayName"@, JsonView::Str(display_name@)),
        ]);
        (url, Json::Object(o))
    }

    /// Takes in the sign-in answer (`status` with its display form, and the
    /// body): 401 is `wrong password or banned`, another failure quotes the
    /// status and at most 200 characters of the body; a success must carry a
    /// non-empty `token`, which becomes the session.
    pub fn accept_connect(&mut self, base: &str, leader_name: &str, status: u16, status_text: &str, body: &str) -> (r: Result<Session, RuntimeError>)
        ensures
            final(self).config_of() == old(self).config_of(),
            !success(status) ==> final(self).session_of() == old(self).session_of() && (r matches Err(RuntimeError::Auth(m)) && m@ == (if status == 401 {
                "wrong password or banned"@
            } else {
                "connect failed "@ + status_text@ + ": "@ + (if body@.len() <= 200 { body@ } else { body@.take(200) })
            })),
            success(status) ==> match json_parse_of(body@) {
                None => final(self).session_of() == old(self).session_of() && (r matches Err(RuntimeError::Other(m)) && has_prefix(m@, "connect json: "@)),
                Some(v) => if or_text(jstr(v, "token"@), Seq::empty()).len() == 0 {
                    final(self).session_of() == old(self).session_of() && (r matches Err(RuntimeError::Auth(m)) && m@ == "no token in response"@)
                } else {
                    r matches Ok(s) && final(self).session_of() == Some(s) && s.token@ == jstr(v, "token"@)->0
                        && s.base@ == trim_end(base@, '/') && s.leader_name@ == leader_name@
                        && s.expires_at == (match ju64(v, "expiresAt"@) { Some(n) => n, None => 0 }) && !s.revoked
                },
            },
    {
        if !(200 <= status && status <= 299) {
            if status == 401 {
                return Err(RuntimeError::Auth("wrong password or banned".to_string()));
            }
            let a = concat(concat("connect failed ", status_text).as_str(), ": ");
            let m = concat(a.as_str(), truncate(body, 200).as_str());
            return Err(RuntimeError::Auth(m));
        }
        let v = match json_parse(body) {
            Ok(v) => v,
            Err(e) => {
                proof {
                    reveal_strlit("connect json: ");
                }
                let m = concat("connect json: ", e.as_str());
                assert(m@.take("connect json: "@.len() as int) =~= "connect json: "@);
                return Err(RuntimeError::Other(m));
            },
        };
        let token = match v.get_str("token") {
            Some(t) => t.to_string(),
            None => String::new(),
        };
        let expires = match v.get_u64("expiresAt") {
            Some(n) => n,
            None => 0,
        };
        if char_count(token.as_str()) == 0 {
            return Err(RuntimeError::Auth("no token in response".to_string()));
        }
        let session = Session {
            token,
            base: trim_end_char(base, '/'),
            leader_name: leader_name.to_string(),
            expires_at: expires,
            revoked: false,
        };
        self.session = Some(session.clone_session());
        Ok(session)
    }

    /// A call to the leader with the session: the URL (`<base><path>`) and
    /// the `Authorization` value; `not connected` without a session.
    pub fn call_target(&self, path: &str) -> (r: Result<(String, String), RuntimeError>)
        ensures
            match self.session_of() {
                None => r matches Err(RuntimeError::Auth(m)) && m@ == "not connected"@,
                Some(s) => r matches Ok((u, a)) && u@ == s.base@ + path@ && a@ == "Bearer "@ + s.token@,
            },
    {
        match &self.session {
            None => Err(RuntimeError::Auth("not connected".to_string())),
            Some(s) => Ok((concat(s.base.as_str(), path), s.auth_header())),
        }
    }

    /// The body of an OpenAI chat call.
    pub fn openai_body(model: &str, messages: Json) -> (b: Json)
        ensures
            b.view_of() == JsonView::Obj(seq![("model"@, JsonView::Str(model@)), ("messages"@, messages.view_of())]),
    {
        let ghost mv = messages.view_of();
        let mut o = new_obj();
        put_field(&mut o, "model", jtext(model));
        put_field(&mut o, "messages", messages);
        assert(view_fields(o@) =~= seq![("model"@, JsonView::Str(model@)), ("messages"@, mv)]);
        Json::Object(o)
    }

    /// The body of an Anthropic call (4096 tokens at most; `stream: true`
    /// for the streaming call).
    pub fn anthropic_body(model: &str, system: &str, messages: Json, stream: bool) -> (b: Json)
        ensures
            b.view_of() == JsonView::Obj(
                seq![("model"@, JsonView::Str(model@)), ("max_tokens"@, crate::protocol::num(4096))]
                    + (if stream { seq![("stream"@, JsonView::Bool(true))] } else { Seq::empty() })
                    + seq![("system"@, JsonView::Str(system@)), ("messages"@, messages.view_of())],
            ),
    {
        let ghost mv = messages.view_of();
        let mut o = new_obj();
        put_field(&mut o, "model", jtext(model));
        put_field(&mut o, "max_tokens", jnum(4096));
        if stream {
            put_field(&mut o, "stream", Json::Bool(true));
        }
        put_field(&mut o, "system", jtext(system));
        put_field(&mut o, "messages", messages);
        assert(view_fields(o@) =~= seq![("model"@, JsonView::Str(model@)), ("max_tokens"@, crate::protocol::num(4096))]
            + (if stream { seq![("stream"@, JsonView::Bool(true))] } else { Seq::empty() })
            + seq![("system"@, JsonView::Str(system@)), ("messages"@, mv)]);
        Json::Object(o)
    }

    /// What a call's answer means: 401 revokes the session (`access revoked
    /// (401)`); another failure quotes the status and at most 300 characters
    /// of the body; a success is the JSON body.
    pub fn call_outcome(&mut self, status: u16, status_text: &str, body: &str) -> (r: Result<Json, RuntimeError>)
        ensures
            final(self).config_of() == old(self).config_of(),
            status == 401 ==> (r matches Err(RuntimeError::Auth(m)) && m@ == "access revoked (401)"@)
                && final(self).session_of() == (match old(self).session_of() {
                    Some(s) => Some(Session { revoked: true, ..s }),
                    None => None,
                }),
            status != 401 ==> final(self).session_of() == old(self).session_of(),
            status != 401 && !success(status) ==> (r matches Err(RuntimeError::Other(m)) && m@ == "call failed "@ + status_text@ + ": "@
                + (if body@.len() <= 300 { body@ } else { body@.take(300) })),
            success(status) ==> match json_parse_of(body@) {
                Some(v) => r matches Ok(j) && j.view_of() == v,
                None => r matches Err(RuntimeError::Other(m)) && has_prefix(m@, "call json: "@),
            },
    {
        if status == 401 {
            self.mark_revoked();
            return Err(RuntimeError::Auth("access revoked (401)".to_string()));
        }
        if !(200 <= status && status <= 299) {
            let a = concat(concat("call failed ", status_text).as_str(), ": ");
            return Err(RuntimeError::Other(concat(a.as_str(), truncate(body, 300).as_str())));
        }
        match json_parse(body) {
            Ok(v) => Ok(v),
            Err(e) => {
                proof {
                    reveal_strlit("call json: ");
                }
                let m = concat("call json: ", e.as_str());
                assert(m@.take("call json: "@.len() as int) =~= "call json: "@);
                Err(RuntimeError::Other(m))
            },
        }
    }

    /// What a streaming call's answer means: 401 revokes the session; another
    /// failure is `stream failed: <status>`; a success is the event text.
    pub fn stream_outcome(&mut self, status: u16, status_text: &str, body: String) -> (r: Result<String, RuntimeError>)
        ensures
            final(self).config_of() == old(self).config_of(),
            status == 401 ==> (r matches Err(RuntimeError::Auth(m)) && m@ == "access revoked (401)"@)
                && final(self).session_of() == (match old(self).session_of() {
                    Some(s) => Some(Session { revoked: true, ..s }),
                    None => None,
                }),
            status != 401 ==> final(self).session_of() == old(self).session_of(),
            status != 401 && !success(status) ==> (r matches Err(RuntimeError::Other(m)) && m@ == "stream failed: "@ + status_text@),
            success(status) ==> (r matches Ok(t) && t@ == body@),
    {
        if status == 401 {
            self.mark_revoked();
            return Err(RuntimeError::Auth("access revoked (401)".to_string()));
        }
        if !(200 <= status && status <= 299) {
            return Err(RuntimeError::Other(concat("stream failed: ", status_text)));
        }
        Ok(body)
    }
}

/// The body of a display-name change.
pub fn rename_body(new_display: &str) -> (b: Json)
    ensures
        b.view_of() == JsonView::Obj(seq![("displayName"@, JsonView::Str(new_display@))]),
{
    let mut o = new_obj();
    put_field(&mut o, "displayName", jtext(new_display));
    assert(view_fields(o@) =~= seq![("displayName"@, JsonView::Str(new_display@))]);
    Json::Object(o)
}

/// What the leader's answer to a display-name change means.
pub fn rename_outcome(status: u16) -> (r: Result<(), RuntimeError>)
    ensures
        success(status) ==> r is Ok,
        !success(status) ==> (r matches Err(RuntimeError::Other(m)) && m@ == "rename failed"@),
{
    if 200 <= status && status <= 299 {
        Ok(())
    } else {
        Err(RuntimeError::Other("rename failed".to_string()))
    }
}

impl Session {
    /// A copy.
    pub fn clone_session(&self) -> (r: Session)
        ensures
            r == *self,
    {
        Session {
            token: self.token.clone(),
            base: self.base.clone(),
            leader_name: self.leader_name.clone(),
            expires_at: self.expires_at,
            revoked: self.revoked,
        }
    }
}

/// The model ids of the leader's `/v1/models` answer: a failure is `models
/// failed: <status>`, a body that is not JSON `models json: …`; otherwise
/// the `id` of each listed model.
pub fn models_outcome(status: u16, status_text: &str, body: &str) -> (r: Result<Vec<String>, RuntimeError>)
    ensures
        !success(status) ==> (r matches Err(RuntimeError::Other(m)) && m@ == "models failed: "@ + status_text@),
        success(status) ==> match json_parse_of(body@) {
            Some(v) => r matches Ok(ids) && string_views(ids@) == match jarr(v, "data"@) {
                Some(a) => listed_ids(a),
                None => Seq::empty(),
            },
            None => r matches Err(RuntimeError::Other(m)) && has_prefix(m@, "models json: "@),
        },
{
    if !(200 <= status && status <= 299) {
        return Err(RuntimeError::Other(concat("models failed: ", status_text)));
    }
    let v = match json_parse(body) {
        Ok(v) => v,
        Err(e) => {
            proof {
                reveal_strlit("models json: ");
            }
            let m = concat("models json: ", e.as_str());
            assert(m@.take("models json: "@.len() as int) =~= "models json: "@);
            return Err(RuntimeError::Other(m));
        },
    };
    let mut ids: Vec<String> = Vec::new();
    match v.get_array("data") {
        Some(a) => {
            proof {
                lemma_view_items(a@);
            }
            let mut i: usize = 0;
            while i < a.len()
                invariant
                    i <= a.len(),
                    view_items(a@).len() == a@.len(),
                    forall|k: int| 0 <= k < a@.len() ==> #[trigger] view_items(a@)[k] == a@[k].view_of(),
                    string_views(ids@) == listed_ids(view_items(a@).take(i as int)),
                decreases a.len() - i,
            {
                assert(view_items(a@).take(i + 1).drop_last() =~= view_items(a@).take(i as int));
                let ghost before = string_views(ids@);
                match a[i].get_str("id") {
                    Some(t) => {
                        ids.push(t.to_string());
                        assert(string_views(ids@) =~= before + seq![t@]);
                    },
                    None => {},
                }
                assert(string_views(ids@) =~= listed_ids(view_items(a@).take(i + 1)));
                i = i + 1;
            }
            assert(view_items(a@).take(a.len() as int) =~= view_items(a@));
        },
        None => {},
    }
    Ok(ids)
}

} // verus!
