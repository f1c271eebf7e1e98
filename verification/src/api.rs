//! The leader's chat API, decided: who may call (sharing on, a valid token,
//! within quota), which backend serves the model, what is forwarded, and what
//! is answered once the backend has replied (calling the backend and writing
//! the HTTP response are the caller's part).
use vstd::prelude::*;
use crate::admin::{bearer_token, token_of};
use crate::auth::{spec_verify, AuthService, Session};
use crate::json::{jget, jnum, jstr, jtext, json_parse, json_parse_of, or_text, view_fields, view_items, Json, JsonView};
use crate::link::header_view;
use crate::member::{Member, MemberRegistry};
use crate::text::{join_lines, seq_lt};
use crate::link_crypto::{mode_of, mode_word, LinkEncryptMode};
use crate::policy::{bump, category_name, extract_request_text, request_texts, spec_detect, LoadPolicy, PolicyCategory, PolicyView};
use crate::usage::MemberUsage;
use crate::strategy::{PreflightBlock, StrategySummary};
use crate::protocol::{
    anthropic_sse, anthropic_sse_stream, anthropic_reply, extract_openai_usage, new_obj, num, openai_sse, openai_sse_stream,
    openai_to_anthropic, put_field, usage_count,
};
use crate::quota::{spec_over_quota, QuotaService};
use crate::registry::{is_catalog, routes_to, BackendRegistry};
use crate::request::{anthropic_to_openai, openai_request};
use crate::settings::merged;
use crate::text::{concat, decimal, u64_decimal};
use crate::usage::{can_record, UsageService};

verus! {

/// What the gateway answers.
pub enum Reply {
    /// A JSON body with this status.
    Json(u16, Json),
    /// `200 OK`, `text/event-stream`, `no-cache`: this event stream.
    EventStream(String),
}

/// `{"error":{"message":…}}`.
pub open spec fn error_json(msg: Seq<char>) -> JsonView {
    JsonView::Obj(seq![("error"@, JsonView::Obj(seq![("message"@, JsonView::Str(msg))]))])
}

/// The 429 body of an exceeded quota.
pub open spec fn quota_json(limit: u64) -> JsonView {
    JsonView::Obj(seq![("error"@, JsonView::Obj(seq![
        ("message"@, JsonView::Str("quota exceeded: limit "@ + decimal(limit as nat) + " tokens"@)),
        ("type"@, JsonView::Str("insufficient_quota"@)),
        ("code"@, JsonView::Str("quota_exceeded"@)),
        ("quota_limit"@, num(limit)),
    ]))])
}

/// The reply is this status with this JSON body.
pub open spec fn replies(r: Reply, status: u16, body: JsonView) -> bool {
    r matches Reply::Json(s, j) && s == status && j.view_of() == body
}

/// The result is this error reply.
pub open spec fn err_reply<T>(r: Result<T, Reply>, status: u16, body: JsonView) -> bool {
    r matches Err(e) && replies(e, status, body)
}

/// An error reply: this status, `{"error":{"message":msg}}`.
pub fn error_reply(status: u16, msg: &str) -> (r: Reply)
    ensures
        replies(r, status, error_json(msg@)),
{
    let mut inner = new_obj();
    put_field(&mut inner, "message", jtext(msg));
    let mut o = new_obj();
    put_field(&mut o, "error", Json::Object(inner));
    assert(view_fields(o@) =~= error_json(msg@)->Obj_0) by {
        assert(view_fields(inner@) =~= seq![("message"@, JsonView::Str(msg@))]);
    }
    Reply::Json(status, Json::Object(o))
}

/// The 429 reply of an exceeded quota.
pub fn quota_exceeded(limit: u64) -> (r: Reply)
    ensures
        replies(r, 429, quota_json(limit)),
{
    let m = concat(concat("quota exceeded: limit ", u64_decimal(limit).as_str()).as_str(), " tokens");
    let mut inner = new_obj();
    put_field(&mut inner, "message", jtext(m.as_str()));
    put_field(&mut inner, "type", jtext("insufficient_quota"));
    put_field(&mut inner, "code", jtext("quota_exceeded"));
    put_field(&mut inner, "quota_limit", jnum(limit));
    let ghost iv = view_fields(inner@);
    let mut o = new_obj();
    put_field(&mut o, "error", Json::Object(inner));
    assert(view_fields(o@) =~= quota_json(limit)->Obj_0) by {
        assert(iv =~= quota_json(limit)->Obj_0[0].1->Obj_0);
    }
    Reply::Json(429, Json::Object(o))
}

/// A call let through: who made it, and what to forward to which backend.
pub struct ChatPlan {
    pub session: Session,
    /// Backend serving the model.
    pub backend: String,
    /// Model asked for.
    pub model: String,
    /// The OpenAI request to forward (never streaming).
    pub forward: Json,
    /// The caller asked for an event stream.
    pub stream: bool,
}

/// The leader's API state: sharing switch and services.
pub struct ApiState {
    pub sharing: bool,
    pub auth: AuthService,
    pub members: MemberRegistry,
    pub usage: UsageService,
    pub quota: QuotaService,
    pub backends: BackendRegistry,
    /// Load-whitelist redline (mining / deepfake).
    pub policy: LoadPolicy,
    /// The leader's link-encryption mode.
    pub link_mode: LinkEncryptMode,
}

/// Tokens a member has used so far.
pub open spec fn used_by(st: ApiState, member: Seq<char>) -> u64 {
    if st.usage@.contains_key(member) {
        st.usage@[member].spec_total() as u64
    } else {
        0
    }
}

/// `stream: true` in a request.
pub open spec fn wants_stream(body: JsonView) -> bool {
    jget(body, "stream"@) == Some(JsonView::Bool(true))
}

/// An OpenAI request with `stream` turned off (other fields as they are).
pub open spec fn unstreamed(body: JsonView) -> JsonView {
    merged(body, JsonView::Obj(seq![("stream"@, JsonView::Bool(false))]))
}

/// Every field but the load policy is as it was.
pub open spec fn unchanged_but_policy(a: ApiState, b: ApiState) -> bool {
    &&& b.sharing == a.sharing
    &&& b.auth == a.auth
    &&& b.members == a.members
    &&& b.usage == a.usage
    &&& b.quota == a.quota
    &&& b.backends == a.backends
    &&& b.link_mode == a.link_mode
}

/// The redline category a request hits under the policy (none when it is off).
pub open spec fn redline(p: PolicyView, body: JsonView) -> Option<PolicyCategory> {
    if p.enabled {
        spec_detect(join_lines(request_texts(body)))
    } else {
        None
    }
}

/// The policy after a request's check: the hit category counted.
pub open spec fn counted(p: PolicyView, hit: Option<PolicyCategory>) -> PolicyView {
    PolicyView {
        enabled: p.enabled,
        mining_hits: if hit == Some(PolicyCategory::Mining) { bump(p.mining_hits) } else { p.mining_hits },
        deepfake_hits: if hit == Some(PolicyCategory::Deepfake) { bump(p.deepfake_hits) } else { p.deepfake_hits },
    }
}

/// The 403 body of a refused request.
pub open spec fn blocked_json(c: PolicyCategory) -> JsonView {
    error_json("blocked by load whitelist: "@ + category_name(c))
}

impl ApiState {
    pub open spec fn wf(&self) -> bool {
        &&& self.auth.wf()
        &&& self.members.wf()
        &&& self.usage.wf()
        &&& self.quota.wf()
        &&& self.backends.wf()
    }

    /// Lets a caller in: sharing must be on (else 503 `sharing paused`), the
    /// bearer token valid at `now` (else 401); the member is then marked seen,
    /// and a member at its quota gets 429.
    pub fn let_in(&mut self, authorization: Option<&str>, x_api_key: Option<&str>, now: u64) -> (r: Result<Session, Reply>)
        requires
            old(self).wf(),
        ensures
            final(self).wf(),
            final(self).sharing == old(self).sharing,
            final(self).auth == old(self).auth,
            final(self).usage == old(self).usage,
            final(self).quota == old(self).quota,
            final(self).backends == old(self).backends,
            final(self).policy == old(self).policy,
            final(self).link_mode == old(self).link_mode,
            !old(self).sharing ==> final(self).members == old(self).members
                && err_reply(r, 503, error_json("sharing paused"@)),
            old(self).sharing ==> match token_of(header_view(authorization), header_view(x_api_key)) {
                None => final(self).members == old(self).members && err_reply(r, 401, error_json("unauthorized"@)),
                Some(t) => match spec_verify(old(self).auth@, t, now) {
                    None => final(self).members == old(self).members && err_reply(r, 401, error_json("unauthorized"@)),
                    Some(s) => {
                        &&& final(self).members@ == old(self).members@.insert(s.machine_name@, final(self).members@[s.machine_name@])
                        &&& final(self).members@[s.machine_name@].last_seen == now
                        &&& if spec_over_quota(old(self).quota@, s.member_id@, used_by(*old(self), s.member_id@)) {
                            err_reply(r, 429, quota_json(old(self).quota@[s.member_id@]))
                        } else {
                            r == Ok::<Session, Reply>(s)
                        }
                    },
                },
            },
    {
        if !self.sharing {
            proof {
                reveal_strlit("sharing paused");
            }
            return Err(error_reply(503, "sharing paused"));
        }
        let token = match bearer_token(authorization, x_api_key) {
            Some(t) => t,
            None => return Err(error_reply(401, "unauthorized")),
        };
        let session = match self.auth.verify_at(token.as_str(), now) {
            Some(s) => s,
            None => return Err(error_reply(401, "unauthorized")),
        };
        let _m = self.members.upsert_at(session.machine_name.as_str(), session.display_name.as_str(), "", now);
        let used = match self.usage.get(session.member_id.as_str()) {
            Some(u) => {
                proof {
                    self.usage.lemma_entry(session.member_id@);
                }
                u.total()
            },
            None => 0,
        };
        match self.quota.check(session.member_id.as_str(), used) {
            Err(q) => Err(quota_exceeded(q.limit)),
            Ok(()) => Ok(session),
        }
    }

    /// The OpenAI chat call of an admitted member: a request hitting the
    /// load-whitelist redline (policy on) is refused with 403 and counted;
    /// otherwise the model is routed to its backend (400 when none serves
    /// it), and a streaming request is forwarded with `stream` off (the reply
    /// is replayed as a stream).
    pub fn plan_chat(&mut self, session: Session, body: &Json) -> (r: Result<ChatPlan, Reply>)
        requires
            old(self).wf(),
        ensures
            final(self).wf(),
            unchanged_but_policy(*old(self), *final(self)),
            final(self).policy@ == counted(old(self).policy@, redline(old(self).policy@, body.view_of())),
            ({
                let model = or_text(jstr(body.view_of(), "model"@), Seq::empty());
                match redline(old(self).policy@, body.view_of()) {
                    Some(cat) => err_reply(r, 403, blocked_json(cat)),
                    None => match r {
                        Ok(p) => {
                            &&& p.session == session
                            &&& p.model@ == model
                            &&& routes_to(old(self).backends.backends_view(), old(self).backends.prefixes_view(), old(self).backends.exact_view(), model, Some(p.backend@))
                            &&& p.stream == wants_stream(body.view_of())
                            &&& p.forward.view_of() == if p.stream { unstreamed(body.view_of()) } else { body.view_of() }
                        },
                        Err(e) => routes_to(old(self).backends.backends_view(), old(self).backends.prefixes_view(), old(self).backends.exact_view(), model, None)
                            && replies(e, 400, error_json("model not available: "@ + model + " (see /v1/models)"@)),
                    },
                }
            }),
    {
        proof {
            reveal_strlit("");
            assert(""@ =~= Seq::<char>::empty());
        }
        if let Some(refused) = self.redline_check(body) {
            return Err(refused);
        }
        let model = match body.get_str("model") {
            Some(m) => m,
            None => "",
        };
        let backend = match self.backends.route(model) {
            Some(b) => b,
            None => {
                let m = concat(concat("model not available: ", model).as_str(), " (see /v1/models)");
                return Err(error_reply(400, m.as_str()));
            },
        };
        let stream = match body.get("stream") {
            Some(Json::Bool(true)) => true,
            _ => false,
        };
        let forward = if stream {
            let mut f = body.duplicate();
            let mut off = new_obj();
            put_field(&mut off, "stream", Json::Bool(false));
            assert(view_fields(off@) =~= seq![("stream"@, JsonView::Bool(false))]);
            crate::settings::deep_merge(&mut f, &Json::Object(off));
            f
        } else {
            body.duplicate()
        };
        Ok(ChatPlan { session, backend, model: model.to_string(), forward, stream })
    }

    /// Runs the load-whitelist check on a request: `Some` of the 403 when it
    /// is refused (and counted).
    fn redline_check(&mut self, body: &Json) -> (r: Option<Reply>)
        requires
            old(self).wf(),
        ensures
            final(self).wf(),
            unchanged_but_policy(*old(self), *final(self)),
            final(self).policy@ == counted(old(self).policy@, redline(old(self).policy@, body.view_of())),
            match redline(old(self).policy@, body.view_of()) {
                Some(cat) => r matches Some(e) && replies(e, 403, blocked_json(cat)),
                None => r is None,
            },
    {
        let text = extract_request_text(body);
        match self.policy.check(text.as_str()) {
            Some(cat) => {
                let m = concat("blocked by load whitelist: ", cat.as_str());
                Some(error_reply(403, m.as_str()))
            },
            None => None,
        }
    }

    /// The Anthropic messages call of an admitted member: the body must be
    /// JSON (else 400 `invalid JSON body`); a request hitting the
    /// load-whitelist redline (policy on) is refused with 403 and counted;
    /// otherwise it is converted to an OpenAI request, whose model is routed
    /// as for a chat call.
    pub fn plan_messages(&mut self, session: Session, body: &str) -> (r: Result<ChatPlan, Reply>)
        requires
            old(self).wf(),
        ensures
            final(self).wf(),
            unchanged_but_policy(*old(self), *final(self)),
            json_parse_of(body@) is None ==> final(self).policy == old(self).policy
                && err_reply(r, 400, error_json("invalid JSON body"@)),
            json_parse_of(body@) matches Some(b) ==> {
                let req = openai_request(b);
                let model = or_text(jstr(req, "model"@), Seq::empty());
                &&& final(self).policy@ == counted(old(self).policy@, redline(old(self).policy@, b))
                &&& match redline(old(self).policy@, b) {
                    Some(cat) => err_reply(r, 403, blocked_json(cat)),
                    None => match r {
                        Ok(p) => {
                            &&& p.session == session
                            &&& p.model@ == model
                            &&& routes_to(old(self).backends.backends_view(), old(self).backends.prefixes_view(), old(self).backends.exact_view(), model, Some(p.backend@))
                            &&& p.stream == wants_stream(b)
                            &&& p.forward.view_of() == req
                        },
                        Err(e) => routes_to(old(self).backends.backends_view(), old(self).backends.prefixes_view(), old(self).backends.exact_view(), model, None)
                            && replies(e, 400, error_json("model not available: "@ + model + " (see /v1/models)"@)),
                    },
                }
            },
    {
        proof {
            reveal_strlit("");
            assert(""@ =~= Seq::<char>::empty());
        }
        let parsed = match json_parse(body) {
            Ok(b) => b,
            Err(_) => return Err(error_reply(400, "invalid JSON body")),
        };
        if let Some(refused) = self.redline_check(&parsed) {
            return Err(refused);
        }
        let stream = match parsed.get("stream") {
            Some(Json::Bool(true)) => true,
            _ => false,
        };
        let forward = anthropic_to_openai(&parsed);
        let model = match forward.get_str("model") {
            Some(m) => m.to_string(),
            None => String::new(),
        };
        let backend = match self.backends.route(model.as_str()) {
            Some(b) => b,
            None => {
                let m = concat(concat("model not available: ", model.as_str()).as_str(), " (see /v1/models)");
                return Err(error_reply(400, m.as_str()));
            },
        };
        Ok(ChatPlan { session, backend, model, forward, stream })
    }

    /// What a backend reply becomes for an OpenAI call: usage recorded
    /// against the member, then the reply as JSON or replayed as an OpenAI
    /// event stream; a backend failure is 500 `backend error: …`.
    pub fn finish_chat(&mut self, plan: &ChatPlan, outcome: Result<Json, String>) -> (r: Reply)
        requires
            old(self).wf(),
            outcome matches Ok(resp) ==> can_record(
                if old(self).usage@.contains_key(plan.session.member_id@) { Some(old(self).usage@[plan.session.member_id@]) } else { None },
                usage_count(resp.view_of(), "prompt_tokens"@),
                usage_count(resp.view_of(), "completion_tokens"@),
            ),
        ensures
            final(self).wf(),
            final(self).sharing == old(self).sharing,
            final(self).auth == old(self).auth,
            final(self).members == old(self).members,
            final(self).quota == old(self).quota,
            final(self).backends == old(self).backends,
            final(self).policy == old(self).policy,
            final(self).link_mode == old(self).link_mode,
            outcome matches Err(m) ==> final(self).usage == old(self).usage
                && replies(r, 500, error_json("backend error: "@ + m@)),
            outcome matches Ok(resp) ==> {
                &&& final(self).usage@.contains_key(plan.session.member_id@)
                &&& crate::usage::recorded(
                    if old(self).usage@.contains_key(plan.session.member_id@) { Some(old(self).usage@[plan.session.member_id@]) } else { None },
                    plan.session.member_id@,
                    usage_count(resp.view_of(), "prompt_tokens"@),
                    usage_count(resp.view_of(), "completion_tokens"@),
                    final(self).usage@[plan.session.member_id@],
                )
                &&& if plan.stream {
                    r matches Reply::EventStream(s) && s@ == openai_sse(resp.view_of())
                } else {
                    replies(r, 200, resp.view_of())
                }
            },
    {
        match outcome {
            Err(m) => {
                let msg = concat("backend error: ", m.as_str());
                error_reply(500, msg.as_str())
            },
            Ok(resp) => {
                let (pt, ct) = extract_openai_usage(&resp);
                self.usage.record(plan.session.member_id.as_str(), pt, ct);
                proof {
                    self.usage.lemma_entry(plan.session.member_id@);
                }
                if plan.stream {
                    Reply::EventStream(openai_sse_stream(&resp))
                } else {
                    Reply::Json(200, resp)
                }
            },
        }
    }

    /// What a backend reply becomes for an Anthropic call: usage recorded,
    /// then the reply converted to Anthropic JSON or replayed as an Anthropic
    /// event stream; a backend failure is 500 `backend error: …`.
    pub fn finish_messages(&mut self, plan: &ChatPlan, outcome: Result<Json, String>) -> (r: Reply)
        requires
            old(self).wf(),
            outcome matches Ok(resp) ==> can_record(
                if old(self).usage@.contains_key(plan.session.member_id@) { Some(old(self).usage@[plan.session.member_id@]) } else { None },
                usage_count(resp.view_of(), "prompt_tokens"@),
                usage_count(resp.view_of(), "completion_tokens"@),
            ),
        ensures
            final(self).wf(),
            final(self).sharing == old(self).sharing,
            final(self).auth == old(self).auth,
            final(self).members == old(self).members,
            final(self).quota == old(self).quota,
            final(self).backends == old(self).backends,
            final(self).policy == old(self).policy,
            final(self).link_mode == old(self).link_mode,
            outcome matches Err(m) ==> final(self).usage == old(self).usage
                && replies(r, 500, error_json("backend error: "@ + m@)),
            outcome matches Ok(resp) ==> {
                &&& final(self).usage@.contains_key(plan.session.member_id@)
                &&& crate::usage::recorded(
                    if old(self).usage@.contains_key(plan.session.member_id@) { Some(old(self).usage@[plan.session.member_id@]) } else { None },
                    plan.session.member_id@,
                    usage_count(resp.view_of(), "prompt_tokens"@),
                    usage_count(resp.view_of(), "completion_tokens"@),
                    final(self).usage@[plan.session.member_id@],
                )
                &&& if plan.stream {
                    r matches Reply::EventStream(s) && s@ == anthropic_sse(resp.view_of())
                } else {
                    replies(r, 200, anthropic_reply(resp.view_of()))
                }
            },
    {
        match outcome {
            Err(m) => {
                let msg = concat("backend error: ", m.as_str());
                error_reply(500, msg.as_str())
            },
            Ok(resp) => {
                let (pt, ct) = extract_openai_usage(&resp);
                self.usage.record(plan.session.member_id.as_str(), pt, ct);
                proof {
                    self.usage.lemma_entry(plan.session.member_id@);
                }
                if plan.stream {
                    Reply::EventStream(anthropic_sse_stream(&resp))
                } else {
                    Reply::Json(200, openai_to_anthropic(&resp))
                }
            },
        }
    }
}

/// `{"ok":true, <key>:<value>}`.
pub open spec fn ok_with(key: Seq<char>, value: JsonView) -> JsonView {
    JsonView::Obj(seq![("ok"@, JsonView::Bool(true)), (key, value)])
}

/// `{"ok":true}`.
pub open spec fn ok_json() -> JsonView {
    JsonView::Obj(seq![("ok"@, JsonView::Bool(true))])
}

fn ok_reply() -> (r: Reply)
    ensures
        replies(r, 200, ok_json()),
{
    let mut o = new_obj();
    put_field(&mut o, "ok", Json::Bool(true));
    assert(view_fields(o@) =~= ok_json()->Obj_0);
    Reply::Json(200, Json::Object(o))
}

fn ok_with_reply(key: &str, value: Json) -> (r: Reply)
    ensures
        replies(r, 200, ok_with(key@, value.view_of())),
{
    let ghost v = value.view_of();
    let mut o = new_obj();
    put_field(&mut o, "ok", Json::Bool(true));
    put_field(&mut o, key, value);
    assert(view_fields(o@) =~= ok_with(key@, v)->Obj_0);
    Reply::Json(200, Json::Object(o))
}

/// A string field of a request body, or empty.
pub open spec fn field_text(body: JsonView, key: Seq<char>) -> Seq<char> {
    or_text(jstr(body, key), Seq::empty())
}

fn field_text_of<'a>(body: &'a Json, key: &str) -> (r: &'a str)
    ensures
        r@ == field_text(body.view_of(), key@),
{
    proof {
        reveal_strlit("");
        assert(""@ =~= Seq::<char>::empty());
    }
    match body.get_str(key) {
        Some(s) => s,
        None => "",
    }
}

/// The management actions.
pub open spec fn known_action(a: Seq<char>) -> bool {
    a == "revoke"@ || a == "unban"@ || a == "rename"@ || a == "pause"@ || a == "resume"@ || a == "load-policy"@
        || a == "link-encrypt"@
}

/// `revoke`: the member (and the IP, when given) banned and its tokens
/// revoked, the member marked offline.
pub open spec fn revoked_by(before: ApiState, after: ApiState, b: JsonView, r: Reply) -> bool {
    let member = field_text(b, "memberId"@);
    &&& after.auth@ == crate::auth::spec_revoke(before.auth@, member, field_text(b, "ip"@))
    &&& after.sharing == before.sharing
    &&& (before.members@.contains_key(member) ==> after.members@ == before.members@.insert(
        member,
        crate::member::Member { online: false, ..before.members@[member] },
    ))
    &&& (!before.members@.contains_key(member) ==> after.members@ == before.members@)
    &&& replies(r, 200, ok_with("banned"@, JsonView::Bool(true)))
}

/// `unban`: needs a member id; lifts the ban of the member (and the IP).
pub open spec fn unbanned_by(before: ApiState, after: ApiState, b: JsonView, r: Reply) -> bool {
    let member = field_text(b, "memberId"@);
    &&& after.sharing == before.sharing
    &&& after.members == before.members
    &&& if member.len() == 0 {
        after.auth == before.auth && replies(r, 400, error_json("memberId required"@))
    } else {
        after.auth@ == crate::auth::spec_unban(before.auth@, member, field_text(b, "ip"@))
            && replies(r, 200, ok_with("banned"@, JsonView::Bool(false)))
    }
}

/// `rename`: needs a member id and a name, and a known member.
pub open spec fn renamed_by(before: ApiState, after: ApiState, b: JsonView, r: Reply) -> bool {
    let member = field_text(b, "memberId"@);
    let name = field_text(b, "displayName"@);
    &&& after.sharing == before.sharing
    &&& after.auth == before.auth
    &&& if member.len() == 0 || name.len() == 0 {
        after.members == before.members && replies(r, 400, error_json("memberId and displayName required"@))
    } else if !before.members@.contains_key(member) {
        after.members@ == before.members@ && replies(r, 400, error_json("member not found"@))
    } else {
        after.members@[member].display_name@ == name && replies(r, 200, ok_json())
    }
}

/// The session state a token request starts from: with `force`, the
/// machine's sessions dropped first.
pub open spec fn token_start(v: crate::auth::AuthView, machine: Seq<char>, force: bool) -> crate::auth::AuthView {
    if force {
        crate::auth::sessions_dropped(v, machine)
    } else {
        v
    }
}

/// `force: true` in a token request.
pub open spec fn forced(b: JsonView) -> bool {
    jget(b, "force"@) == Some(JsonView::Bool(true))
}

/// The reply carrying an issued token.
pub open spec fn token_json(s: Session) -> JsonView {
    JsonView::Obj(seq![("token"@, JsonView::Str(s.token@)), ("expiresAt"@, num(s.expires_at))])
}

impl ApiState {
    /// The management actions: `revoke` (ban the member and its IP, mark it
    /// offline), `unban`, `rename` (a known member), `pause` and `resume`
    /// sharing; anything else is 400 `unknown action`.
    pub fn control(&mut self, body: &Json) -> (r: Reply)
        requires
            old(self).wf(),
        ensures
            final(self).wf(),
            final(self).usage == old(self).usage,
            final(self).quota == old(self).quota,
            final(self).backends == old(self).backends,
            field_text(body.view_of(), "action"@) != "load-policy"@ ==> final(self).policy == old(self).policy,
            field_text(body.view_of(), "action"@) != "link-encrypt"@ ==> final(self).link_mode == old(self).link_mode,
            field_text(body.view_of(), "action"@) == "load-policy"@ ==> {
                &&& final(self).sharing == old(self).sharing
                &&& final(self).auth == old(self).auth
                &&& final(self).members == old(self).members
                &&& match jget(body.view_of(), "enabled"@) {
                    Some(JsonView::Bool(e)) => final(self).policy@ == (PolicyView { enabled: e, ..old(self).policy@ })
                        && replies(r, 200, ok_with("enabled"@, JsonView::Bool(e))),
                    _ => final(self).policy == old(self).policy && replies(r, 400, error_json("enabled required"@)),
                }
            },
            field_text(body.view_of(), "action"@) == "link-encrypt"@ ==> {
                &&& final(self).sharing == old(self).sharing
                &&& final(self).auth == old(self).auth
                &&& final(self).members == old(self).members
                &&& if field_text(body.view_of(), "mode"@).len() == 0 {
                    final(self).link_mode == old(self).link_mode && replies(r, 400, error_json("mode required"@))
                } else {
                    final(self).link_mode == mode_of(field_text(body.view_of(), "mode"@))
                        && replies(r, 200, ok_with("mode"@, JsonView::Str(mode_word(final(self).link_mode))))
                }
            },
            field_text(body.view_of(), "action"@) == "revoke"@ ==> revoked_by(*old(self), *final(self), body.view_of(), r),
            field_text(body.view_of(), "action"@) == "unban"@ ==> unbanned_by(*old(self), *final(self), body.view_of(), r),
            field_text(body.view_of(), "action"@) == "rename"@ ==> renamed_by(*old(self), *final(self), body.view_of(), r),
            (field_text(body.view_of(), "action"@) == "pause"@ || field_text(body.view_of(), "action"@) == "resume"@) ==> {
                &&& final(self).sharing == (field_text(body.view_of(), "action"@) == "resume"@)
                &&& final(self).auth == old(self).auth
                &&& final(self).members == old(self).members
                &&& replies(r, 200, ok_with("sharing"@, JsonView::Bool(field_text(body.view_of(), "action"@) == "resume"@)))
            },
            !known_action(field_text(body.view_of(), "action"@)) ==> {
                &&& final(self).sharing == old(self).sharing
                &&& final(self).auth == old(self).auth
                &&& final(self).members == old(self).members
                &&& replies(r, 400, error_json("unknown action"@))
            },
    {
        let action = field_text_of(body, "action");
        let member = field_text_of(body, "memberId");
        let ip = field_text_of(body, "ip");
        let name = field_text_of(body, "displayName");
        proof {
            reveal_strlit("revoke");
            reveal_strlit("unban");
            reveal_strlit("rename");
            reveal_strlit("pause");
            reveal_strlit("resume");
            assert("revoke"@ != "unban"@ && "revoke"@ != "pause"@ && "unban"@ != "rename"@ && "unban"@ != "resume"@
                && "rename"@ != "pause"@ && "pause"@ != "resume"@) by {
                assert("revoke"@.len() != "unban"@.len());
                assert("revoke"@.len() != "pause"@.len());
                assert("unban"@.len() != "rename"@.len());
                assert("unban"@.len() != "resume"@.len());
                assert("rename"@.len() != "pause"@.len());
                assert("pause"@.len() != "resume"@.len());
            }
            reveal_strlit("load-policy");
            reveal_strlit("link-encrypt");
            assert("load-policy"@.len() == 11 && "link-encrypt"@.len() == 12);
            assert("revoke"@ != "rename"@ && "revoke"@ != "resume"@ && "rename"@ != "resume"@ && "unban"@ != "pause"@) by {
                assert("revoke"@[2] != "rename"@[2]);
                assert("revoke"@[2] != "resume"@[2]);
                assert("rename"@[2] != "resume"@[2]);
                assert("unban"@[0] != "pause"@[0]);
            }
        }
        if crate::text::str_eq(action, "revoke") {
            self.auth.revoke_member(member, ip);
            self.members.mark_offline(member);
            ok_with_reply("banned", Json::Bool(true))
        } else if crate::text::str_eq(action, "unban") {
            if crate::text::char_count(member) == 0 {
                return error_reply(400, "memberId required");
            }
            self.auth.unban(member, ip);
            ok_with_reply("banned", Json::Bool(false))
        } else if crate::text::str_eq(action, "rename") {
            if crate::text::char_count(member) == 0 || crate::text::char_count(name) == 0 {
                return error_reply(400, "memberId and displayName required");
            }
            if !self.members.rename(member, name) {
                return error_reply(400, "member not found");
            }
            ok_reply()
        } else if crate::text::str_eq(action, "pause") {
            self.sharing = false;
            ok_with_reply("sharing", Json::Bool(false))
        } else if crate::text::str_eq(action, "resume") {
            self.sharing = true;
            ok_with_reply("sharing", Json::Bool(true))
        } else if crate::text::str_eq(action, "load-policy") {
            match body.get("enabled") {
                Some(Json::Bool(e)) => {
                    self.policy.set_enabled(*e);
                    ok_with_reply("enabled", Json::Bool(*e))
                },
                _ => error_reply(400, "enabled required"),
            }
        } else if crate::text::str_eq(action, "link-encrypt") {
            let mode = field_text_of(body, "mode");
            if crate::text::char_count(mode) == 0 {
                return error_reply(400, "mode required");
            }
            self.link_mode = LinkEncryptMode::parse(mode);
            ok_with_reply("mode", jtext(self.link_mode.as_str()))
        } else {
            error_reply(400, "unknown action")
        }
    }

    /// A member's display-name change: a valid token (else 401) and a
    /// non-empty `displayName` (else 400).
    pub fn rename_self(&mut self, authorization: Option<&str>, x_api_key: Option<&str>, body: &Json, now: u64) -> (r: Reply)
        requires
            old(self).wf(),
        ensures
            final(self).wf(),
            final(self).sharing == old(self).sharing,
            final(self).auth == old(self).auth,
            final(self).usage == old(self).usage,
            final(self).quota == old(self).quota,
            final(self).backends == old(self).backends,
            final(self).policy == old(self).policy,
            final(self).link_mode == old(self).link_mode,
            match token_of(header_view(authorization), header_view(x_api_key)) {
                Some(t) => match spec_verify(old(self).auth@, t, now) {
                    Some(s) => if field_text(body.view_of(), "displayName"@).len() == 0 {
                        final(self).members == old(self).members && replies(r, 400, error_json("displayName required"@))
                    } else {
                        replies(r, 200, ok_json()) && (old(self).members@.contains_key(s.machine_name@)
                            ==> final(self).members@[s.machine_name@].display_name@ == field_text(body.view_of(), "displayName"@))
                    },
                    None => final(self).members == old(self).members && replies(r, 401, error_json("unauthorized"@)),
                },
                None => final(self).members == old(self).members && replies(r, 401, error_json("unauthorized"@)),
            },
    {
        let token = match bearer_token(authorization, x_api_key) {
            Some(t) => t,
            None => return error_reply(401, "unauthorized"),
        };
        let session = match self.auth.verify_at(token.as_str(), now) {
            Some(s) => s,
            None => return error_reply(401, "unauthorized"),
        };
        let name = field_text_of(body, "displayName");
        if crate::text::char_count(name) == 0 {
            return error_reply(400, "displayName required");
        }
        let _ = self.members.rename(session.machine_name.as_str(), name);
        ok_reply()
    }

    /// Sets a member's quota (`quota` 0 lifts it); `memberId` is required.
    pub fn set_quota(&mut self, body: &Json) -> (r: Reply)
        requires
            old(self).wf(),
        ensures
            final(self).wf(),
            final(self).sharing == old(self).sharing,
            final(self).auth == old(self).auth,
            final(self).members == old(self).members,
            final(self).usage == old(self).usage,
            final(self).backends == old(self).backends,
            final(self).policy == old(self).policy,
            final(self).link_mode == old(self).link_mode,
            ({
                let member = field_text(body.view_of(), "memberId"@);
                let q = match crate::json::ju64(body.view_of(), "quota"@) {
                    Some(n) => n,
                    None => 0,
                };
                if member.len() == 0 {
                    final(self).quota == old(self).quota && replies(r, 400, error_json("memberId required"@))
                } else {
                    final(self).quota@ == crate::quota::spec_set(old(self).quota@, member, q) && replies(r, 200, JsonView::Obj(seq![
                        ("ok"@, JsonView::Bool(true)),
                        ("memberId"@, JsonView::Str(member)),
                        ("quota"@, num(q)),
                    ]))
                }
            }),
    {
        let member = field_text_of(body, "memberId");
        let q = match body.get_u64("quota") {
            Some(n) => n,
            None => 0,
        };
        if crate::text::char_count(member) == 0 {
            return error_reply(400, "memberId required");
        }
        self.quota.set(member, q);
        let mut o = new_obj();
        put_field(&mut o, "ok", Json::Bool(true));
        put_field(&mut o, "memberId", jtext(member));
        put_field(&mut o, "quota", jnum(q));
        assert(view_fields(o@) =~= seq![
            ("ok"@, JsonView::Bool(true)),
            ("memberId"@, JsonView::Str(member@)),
            ("quota"@, num(q)),
        ]);
        Reply::Json(200, Json::Object(o))
    }

    /// A token for a machine (no password since 0.2.0): sharing must be on
    /// (else 503) and `machineName` given (else 400); `force` rotates the
    /// machine's token, otherwise a live one is reused; a banned machine or
    /// IP gets 401 `banned`; on success the member is marked seen from `ip`.
    pub fn token_for(&mut self, body: &Json, ip: &str, now: u64, fresh: String) -> (r: Reply)
        requires
            old(self).wf(),
        ensures
            final(self).wf(),
            final(self).sharing == old(self).sharing,
            final(self).usage == old(self).usage,
            final(self).quota == old(self).quota,
            final(self).backends == old(self).backends,
            final(self).policy == old(self).policy,
            final(self).link_mode == old(self).link_mode,
            !old(self).sharing ==> final(self).auth == old(self).auth && final(self).members == old(self).members
                && replies(r, 503, error_json("sharing paused"@)),
            old(self).sharing && field_text(body.view_of(), "machineName"@).len() == 0 ==> final(self).auth == old(self).auth
                && final(self).members == old(self).members && replies(r, 400, error_json("machineName required"@)),
            old(self).sharing && field_text(body.view_of(), "machineName"@).len() > 0 ==> exists|res: Result<Session, crate::error::RuntimeError>| {
                &&& #[trigger] crate::auth::issued(
                    token_start(old(self).auth@, field_text(body.view_of(), "machineName"@), forced(body.view_of())),
                    field_text(body.view_of(), "machineName"@),
                    field_text(body.view_of(), "displayName"@),
                    ip@,
                    now,
                    fresh@,
                    res,
                    final(self).auth@,
                )
                &&& match res {
                    Ok(s) => replies(r, 200, token_json(s)) && final(self).members@.contains_key(field_text(body.view_of(), "machineName"@))
                        && final(self).members@[field_text(body.view_of(), "machineName"@)].last_seen == now,
                    Err(_) => final(self).members == old(self).members && replies(r, 401, error_json("banned"@)),
                }
            },
    {
        if !self.sharing {
            proof {
                reveal_strlit("sharing paused");
            }
            return error_reply(503, "sharing paused");
        }
        let machine = field_text_of(body, "machineName");
        let display = field_text_of(body, "displayName");
        let force = match body.get("force") {
            Some(Json::Bool(true)) => true,
            _ => false,
        };
        if crate::text::char_count(machine) == 0 {
            return error_reply(400, "machineName required");
        }
        let issued = if force {
            self.auth.rotate_at(machine, display, ip, now, fresh)
        } else {
            self.auth.issue_at(machine, display, ip, now, fresh)
        };
        let ghost res = issued;
        let ghost auth_after = self.auth@;
        let r = match issued {
            Ok(session) => {
                let _ = self.members.upsert_at(machine, display, ip, now);
                let mut o = new_obj();
                put_field(&mut o, "token", jtext(session.token.as_str()));
                put_field(&mut o, "expiresAt", jnum(session.expires_at));
                assert(view_fields(o@) =~= token_json(session)->Obj_0);
                Reply::Json(200, Json::Object(o))
            },
            Err(_) => error_reply(401, "banned"),
        };
        assert(force == forced(body.view_of()));
        assert(machine@ == field_text(body.view_of(), "machineName"@));
        assert(display@ == field_text(body.view_of(), "displayName"@));
        assert(crate::auth::issued(
            token_start(old(self).auth@, machine@, force),
            machine@,
            display@,
            ip@,
            now,
            fresh@,
            res,
            self.auth@,
        ));
        r
    }
}

/// `{"memberId":…,"quota":…}`.
pub open spec fn quota_row(member: Seq<char>, limit: u64) -> JsonView {
    JsonView::Obj(seq![("memberId"@, JsonView::Str(member)), ("quota"@, num(limit))])
}

/// `ids` lists each member with a quota in `m` once, by ascending id.
pub open spec fn quota_listing(m: Map<Seq<char>, u64>, ids: Seq<Seq<char>>) -> bool {
    &&& forall|i: int| 0 <= i < ids.len() ==> m.contains_key(#[trigger] ids[i])
    &&& forall|i: int, j: int| 0 <= i < j < ids.len() ==> seq_lt(#[trigger] ids[i], #[trigger] ids[j])
    &&& forall|k: Seq<char>| #[trigger] m.contains_key(k) ==> exists|i: int| 0 <= i < ids.len() && ids[i] == k
}

/// `{"quotas":[…]}` over the listed members.
pub open spec fn quotas_json(m: Map<Seq<char>, u64>, ids: Seq<Seq<char>>) -> JsonView {
    JsonView::Obj(seq![("quotas"@, JsonView::Arr(Seq::new(ids.len(), |i: int| quota_row(ids[i], m[ids[i]]))))])
}

/// A member's usage as the member list shows it (`{}` when none is recorded).
pub open spec fn usage_json(u: Option<MemberUsage>) -> JsonView {
    match u {
        Some(u) => JsonView::Obj(seq![
            ("promptTokens"@, num(u.prompt_tokens)),
            ("completionTokens"@, num(u.completion_tokens)),
            ("totalTokens"@, num(u.spec_total() as u64)),
            ("calls"@, num(u.calls)),
        ]),
        None => JsonView::Obj(Seq::empty()),
    }
}

/// The usage recorded for a member.
pub open spec fn usage_of(m: Map<Seq<char>, MemberUsage>, id: Seq<char>) -> Option<MemberUsage> {
    if m.contains_key(id) {
        Some(m[id])
    } else {
        None
    }
}

/// One row of the member list.
pub open spec fn member_row(m: Member, local: bool, banned: bool, u: Option<MemberUsage>) -> JsonView {
    JsonView::Obj(seq![
        ("memberId"@, JsonView::Str(m.member_id@)),
        ("machineName"@, JsonView::Str(m.machine_name@)),
        ("ip"@, JsonView::Str(m.ip@)),
        ("isLocal"@, JsonView::Bool(local)),
        ("gatewayId"@, JsonView::Str(m.gateway_id@)),
        ("banned"@, JsonView::Bool(banned)),
        ("displayName"@, JsonView::Str(m.display_name@)),
        ("online"@, JsonView::Bool(m.online)),
        ("joinedAt"@, num(m.joined_at)),
        ("lastSeen"@, num(m.last_seen)),
        ("usage"@, usage_json(u)),
    ])
}

impl ApiState {
    /// The list of quotas: `{"quotas":[{"memberId","quota"}…]}` by ascending id.
    #[verifier::spinoff_prover]
    pub fn quota_list(&self) -> (r: Reply)
        requires
            self.wf(),
        ensures
            exists|ids: Seq<Seq<char>>| quota_listing(self.quota@, ids) && #[trigger] replies(r, 200, quotas_json(self.quota@, ids)),
    {
        let all = self.quota.all();
        let ghost ids = Seq::new(all@.len(), |i: int| all@[i].member_id@);
        let mut rows = crate::protocol::new_arr();
        let mut i: usize = 0;
        while i < all.len()
            invariant
                i <= all.len(),
                ids.len() == all@.len(),
                forall|k: int| 0 <= k < all@.len() ==> #[trigger] ids[k] == all@[k].member_id@,
                forall|k: int| 0 <= k < all@.len() ==> #[trigger] self.quota@.contains_key(all@[k].member_id@)
                    && self.quota@[all@[k].member_id@] == all@[k].limit,
                forall|a: int, b: int| 0 <= a < b < all@.len() ==> seq_lt(#[trigger] all@[a].member_id@, #[trigger] all@[b].member_id@),
                forall|k: Seq<char>| #[trigger] self.quota@.contains_key(k) ==> exists|a: int| 0 <= a < all@.len() && all@[a].member_id@ == k,
                view_items(rows@) == Seq::new(i as nat, |k: int| quota_row(ids[k], self.quota@[ids[k]])),
            decreases all.len() - i,
        {
            assert(ids[i as int] == all@[i as int].member_id@);
            assert(self.quota@.contains_key(all@[i as int].member_id@));
            let mut o = new_obj();
            put_field(&mut o, "memberId", jtext(all[i].member_id.as_str()));
            put_field(&mut o, "quota", jnum(all[i].limit));
            assert(view_fields(o@) =~= quota_row(ids[i as int], self.quota@[ids[i as int]])->Obj_0);
            crate::protocol::put_item(&mut rows, Json::Object(o));
            assert(view_items(rows@) =~= Seq::new((i + 1) as nat, |k: int| quota_row(ids[k], self.quota@[ids[k]])));
            i = i + 1;
        }
        let mut body = new_obj();
        put_field(&mut body, "quotas", Json::Array(rows));
        assert(view_fields(body@) =~= quotas_json(self.quota@, ids)->Obj_0);
        let r = Reply::Json(200, Json::Object(body));
        assert forall|a: int, b: int| 0 <= a < b < ids.len() implies seq_lt(#[trigger] ids[a], #[trigger] ids[b]) by {
            assert(ids[a] == all@[a].member_id@);
            assert(ids[b] == all@[b].member_id@);
        }
        assert forall|k: Seq<char>| #[trigger] self.quota@.contains_key(k) implies exists|a: int| 0 <= a < ids.len() && ids[a] == k by {
            let a = choose|a: int| 0 <= a < all@.len() && all@[a].member_id@ == k;
            assert(ids[a] == k);
        }
        assert forall|a: int| 0 <= a < ids.len() implies self.quota@.contains_key(#[trigger] ids[a]) by {
            assert(ids[a] == all@[a].member_id@);
        }
        assert(quota_listing(self.quota@, ids));
        assert(replies(r, 200, quotas_json(self.quota@, ids)));
        r
    }

    /// The member list: a row per member of `ms`, `local[i]` telling whether
    /// the i-th signed in from this machine, with its ban and usage.
    pub fn members_reply(&self, ms: &Vec<Member>, local: &Vec<bool>) -> (r: Reply)
        requires
            self.wf(),
            ms.len() == local.len(),
            forall|k: Seq<char>| #[trigger] self.usage@.contains_key(k) ==> self.usage@[k].spec_total() <= u64::MAX,
        ensures
            replies(r, 200, JsonView::Obj(seq![("members"@, JsonView::Arr(Seq::new(ms@.len(), |i: int| member_row(
                ms@[i],
                local@[i],
                self.auth@.banned.contains(ms@[i].member_id@),
                usage_of(self.usage@, ms@[i].member_id@),
            ))))])),
    {
        let ghost want = Seq::new(ms@.len(), |i: int| member_row(
            ms@[i],
            local@[i],
            self.auth@.banned.contains(ms@[i].member_id@),
            usage_of(self.usage@, ms@[i].member_id@),
        ));
        let mut rows = crate::protocol::new_arr();
        let mut i: usize = 0;
        while i < ms.len()
            invariant
                self.wf(),
                i <= ms.len(),
                ms.len() == local.len(),
                forall|k: Seq<char>| #[trigger] self.usage@.contains_key(k) ==> self.usage@[k].spec_total() <= u64::MAX,
                want.len() == ms@.len(),
                forall|k: int| 0 <= k < ms@.len() ==> #[trigger] want[k] == member_row(
                    ms@[k],
                    local@[k],
                    self.auth@.banned.contains(ms@[k].member_id@),
                    usage_of(self.usage@, ms@[k].member_id@),
                ),
                view_items(rows@) == want.take(i as int),
            decreases ms.len() - i,
        {
            let m = &ms[i];
            let mut u = new_obj();
            let ghost uo = usage_of(self.usage@, m.member_id@);
            match self.usage.get(m.member_id.as_str()) {
                Some(x) => {
                    put_field(&mut u, "promptTokens", jnum(x.prompt_tokens));
                    put_field(&mut u, "completionTokens", jnum(x.completion_tokens));
                    put_field(&mut u, "totalTokens", jnum(x.total()));
                    put_field(&mut u, "calls", jnum(x.calls));
                    assert(view_fields(u@) =~= usage_json(uo)->Obj_0);
                },
                None => {
                    assert(view_fields(u@) =~= usage_json(uo)->Obj_0);
                },
            }
            let banned = self.auth.is_member_banned(m.member_id.as_str());
            let mut o = new_obj();
            put_field(&mut o, "memberId", jtext(m.member_id.as_str()));
            put_field(&mut o, "machineName", jtext(m.machine_name.as_str()));
            put_field(&mut o, "ip", jtext(m.ip.as_str()));
            put_field(&mut o, "isLocal", Json::Bool(local[i]));
            put_field(&mut o, "gatewayId", jtext(m.gateway_id.as_str()));
            put_field(&mut o, "banned", Json::Bool(banned));
            put_field(&mut o, "displayName", jtext(m.display_name.as_str()));
            put_field(&mut o, "online", Json::Bool(m.online));
            put_field(&mut o, "joinedAt", jnum(m.joined_at));
            put_field(&mut o, "lastSeen", jnum(m.last_seen));
            put_field(&mut o, "usage", Json::Object(u));
            assert(view_fields(o@) =~= want[i as int]->Obj_0);
            crate::protocol::put_item(&mut rows, Json::Object(o));
            assert(view_items(rows@) =~= want.take(i + 1));
            i = i + 1;
        }
        assert(want.take(ms.len() as int) =~= want);
        let mut body = new_obj();
        put_field(&mut body, "members", Json::Array(rows));
        assert(view_fields(body@) =~= seq![("members"@, JsonView::Arr(want))]);
        Reply::Json(200, Json::Object(body))
    }
}

/// The address the leader is reached at on the LAN: loopback when bound to
/// it, the primary LAN address (else loopback) when bound to every address,
/// else the bound address.
pub open spec fn lan_address(bind: Seq<char>, loopback: bool, unspecified: bool, primary: Option<Seq<char>>) -> Seq<char> {
    if loopback {
        "127.0.0.1"@
    } else if unspecified {
        match primary {
            Some(p) => p,
            None => "127.0.0.1"@,
        }
    } else {
        bind
    }
}

/// The connection details `GET /api/info` answers.
pub open spec fn info_json(port: u16, share_port: u16, lan: Seq<char>, local_only: bool, host: Seq<char>, models: Seq<Seq<char>>) -> JsonView {
    JsonView::Obj(seq![
        ("port"@, num(port as u64)),
        ("sharePort"@, num(share_port as u64)),
        ("lanIp"@, JsonView::Str(lan)),
        ("baseUrl"@, JsonView::Str("http://"@ + lan + ":"@ + decimal(port as nat) + "/v1"@)),
        ("anthropicBaseUrl"@, JsonView::Str("http://"@ + lan + ":"@ + decimal(port as nat))),
        ("consoleUrl"@, JsonView::Str("http://127.0.0.1:"@ + decimal(port as nat))),
        ("localOnly"@, JsonView::Bool(local_only)),
        ("hostName"@, JsonView::Str(host)),
        ("models"@, JsonView::Arr(models.map_values(|m: Seq<char>| JsonView::Str(m)))),
    ])
}

fn model_array(v: &Vec<String>) -> (r: Json)
    ensures
        r.view_of() == JsonView::Arr(crate::text::string_views(v@).map_values(|m: Seq<char>| JsonView::Str(m))),
{
    let mut a = crate::protocol::new_arr();
    let mut i: usize = 0;
    while i < v.len()
        invariant
            i <= v.len(),
            view_items(a@) == crate::text::string_views(v@).take(i as int).map_values(|m: Seq<char>| JsonView::Str(m)),
        decreases v.len() - i,
    {
        crate::protocol::put_item(&mut a, jtext(v[i].as_str()));
        assert(crate::text::string_views(v@).take(i + 1) =~= crate::text::string_views(v@).take(i as int).push(v@[i as int]@));
        assert(view_items(a@) =~= crate::text::string_views(v@).take(i + 1).map_values(|m: Seq<char>| JsonView::Str(m)));
        i = i + 1;
    }
    assert(crate::text::string_views(v@).take(v.len() as int) =~= crate::text::string_views(v@));
    Json::Array(a)
}

impl ApiState {
    /// `GET /api/models`: the served model ids, once each, ascending.
    pub fn model_list(&self) -> (r: Reply)
        requires
            self.wf(),
        ensures
            exists|c: Seq<Seq<char>>| #[trigger] is_catalog(self.backends.backends_view(), c)
                && replies(r, 200, JsonView::Arr(c.map_values(|m: Seq<char>| JsonView::Str(m)))),
    {
        let models = self.backends.catalog_models();
        let r = Reply::Json(200, model_array(&models));
        assert(is_catalog(self.backends.backends_view(), crate::text::string_views(models@)));
        r
    }

    /// `GET /api/info`: how to reach this leader (`bind` is the bound address
    /// as text, with whether it is loopback or unspecified; `primary` the
    /// primary LAN address where one was found; `host` this machine's name).
    pub fn info_reply(
        &self,
        port: u16,
        share_port: u16,
        bind: &str,
        loopback: bool,
        unspecified: bool,
        primary: Option<&str>,
        host: &str,
    ) -> (r: Reply)
        requires
            self.wf(),
        ensures
            exists|c: Seq<Seq<char>>| #[trigger] is_catalog(self.backends.backends_view(), c)
                && replies(r, 200, info_json(
                    port,
                    share_port,
                    lan_address(bind@, loopback, unspecified, match primary {
                        Some(p) => Some(p@),
                        None => None,
                    }),
                    loopback,
                    host@,
                    c,
                )),
    {
        proof {
            reveal_strlit("127.0.0.1");
        }
        let lan: &str = if loopback {
            "127.0.0.1"
        } else if unspecified {
            match primary {
                Some(p) => p,
                None => "127.0.0.1",
            }
        } else {
            bind
        };
        let p = u64_decimal(port as u64);
        let base = concat(concat(concat("http://", lan).as_str(), ":").as_str(), p.as_str());
        let models = self.backends.catalog_models();
        let mut o = new_obj();
        put_field(&mut o, "port", jnum(port as u64));
        put_field(&mut o, "sharePort", jnum(share_port as u64));
        put_field(&mut o, "lanIp", jtext(lan));
        put_field(&mut o, "baseUrl", jtext(concat(base.as_str(), "/v1").as_str()));
        put_field(&mut o, "anthropicBaseUrl", jtext(base.as_str()));
        put_field(&mut o, "consoleUrl", jtext(concat("http://127.0.0.1:", p.as_str()).as_str()));
        put_field(&mut o, "localOnly", Json::Bool(loopback));
        put_field(&mut o, "hostName", jtext(host));
        put_field(&mut o, "models", model_array(&models));
        let ghost c = crate::text::string_views(models@);
        let ghost lv = lan_address(bind@, loopback, unspecified, match primary {
            Some(p) => Some(p@),
            None => None,
        });
        assert(lan@ == lv);
        assert(view_fields(o@) =~= info_json(port, share_port, lv, loopback, host@, c)->Obj_0);
        Reply::Json(200, Json::Object(o))
    }
}

/// The 403 a member gateway answers for a banned member.
pub open spec fn banned_json() -> JsonView {
    JsonView::Obj(seq![("error"@, JsonView::Obj(seq![
        ("message"@, JsonView::Str("blocked: member banned"@)),
        ("type"@, JsonView::Str("member_banned"@)),
        ("code"@, JsonView::Str("banned"@)),
    ]))])
}

/// What a member gateway answers when its strategy mirror blocks a call:
/// 403 for a banned member, 429 (as the leader words it) over quota.
pub fn preflight_reply(block: &PreflightBlock) -> (r: Reply)
    ensures
        match *block {
            PreflightBlock::Banned => replies(r, 403, banned_json()),
            PreflightBlock::QuotaExceeded { limit } => replies(r, 429, quota_json(limit)),
        },
{
    match block {
        PreflightBlock::Banned => {
            let mut inner = new_obj();
            put_field(&mut inner, "message", jtext("blocked: member banned"));
            put_field(&mut inner, "type", jtext("member_banned"));
            put_field(&mut inner, "code", jtext("banned"));
            let ghost iv = view_fields(inner@);
            let mut o = new_obj();
            put_field(&mut o, "error", Json::Object(inner));
            assert(view_fields(o@) =~= banned_json()->Obj_0) by {
                assert(iv =~= banned_json()->Obj_0[0].1->Obj_0);
            }
            Reply::Json(403, Json::Object(o))
        },
        PreflightBlock::QuotaExceeded { limit } => quota_exceeded(*limit),
    }
}

/// A strategy rule offered as a model by a member gateway.
pub open spec fn rule_model(name: Seq<char>) -> JsonView {
    JsonView::Obj(seq![
        ("id"@, JsonView::Str(name)),
        ("object"@, JsonView::Str("model"@)),
        ("created"@, num(0)),
        ("owned_by"@, JsonView::Str("aipowerlink-rule"@)),
    ])
}

/// The model list a member gateway answers from its strategy rules.
pub fn rule_models(names: &Vec<String>) -> (r: Json)
    ensures
        r.view_of() == JsonView::Obj(seq![
            ("object"@, JsonView::Str("list"@)),
            ("data"@, JsonView::Arr(crate::text::string_views(names@).map_values(|n: Seq<char>| rule_model(n)))),
        ]),
{
    let mut a = crate::protocol::new_arr();
    let mut i: usize = 0;
    while i < names.len()
        invariant
            i <= names.len(),
            view_items(a@) == crate::text::string_views(names@).take(i as int).map_values(|n: Seq<char>| rule_model(n)),
        decreases names.len() - i,
    {
        let mut o = new_obj();
        put_field(&mut o, "id", jtext(names[i].as_str()));
        put_field(&mut o, "object", jtext("model"));
        put_field(&mut o, "created", jnum(0));
        put_field(&mut o, "owned_by", jtext("aipowerlink-rule"));
        assert(view_fields(o@) =~= rule_model(names@[i as int]@)->Obj_0);
        crate::protocol::put_item(&mut a, Json::Object(o));
        assert(crate::text::string_views(names@).take(i + 1) =~= crate::text::string_views(names@).take(i as int).push(names@[i as int]@));
        assert(view_items(a@) =~= crate::text::string_views(names@).take(i + 1).map_values(|n: Seq<char>| rule_model(n)));
        i = i + 1;
    }
    assert(crate::text::string_views(names@).take(names.len() as int) =~= crate::text::string_views(names@));
    let mut o = new_obj();
    put_field(&mut o, "object", jtext("list"));
    let ghost av = view_items(a@);
    put_field(&mut o, "data", Json::Array(a));
    assert(view_fields(o@) =~= seq![
        ("object"@, JsonView::Str("list"@)),
        ("data"@, JsonView::Arr(av)),
    ]);
    Json::Object(o)
}

/// The strategy mirror as a member gateway's status shows it.
pub open spec fn strategy_json(s: Option<StrategySummary>) -> JsonView {
    match s {
        Some(m) => JsonView::Obj(seq![
            ("version"@, num(m.version)),
            ("rules"@, num(m.rules@.len() as u64)),
            ("quota"@, JsonView::Obj(seq![("limit"@, num(m.quota.limit)), ("used"@, num(m.quota.used))])),
            ("banned"@, JsonView::Bool(m.banned)),
            ("fetched_at"@, num(m.fetched_at)),
        ]),
        None => JsonView::Null,
    }
}

/// A member gateway's status: its role, the leaders it can reach and its
/// strategy mirror.
pub fn member_status(leaders: usize, summary: &str, strategy: &Option<StrategySummary>) -> (r: Json)
    ensures
        r.view_of() == JsonView::Obj(seq![
            ("role"@, JsonView::Str("client"@)),
            ("leaders"@, num(leaders as u64)),
            ("leader"@, JsonView::Str(summary@)),
            ("strategy"@, strategy_json(*strategy)),
        ]),
{
    let st = match strategy {
        Some(m) => {
            let mut q = new_obj();
            put_field(&mut q, "limit", jnum(m.quota.limit));
            put_field(&mut q, "used", jnum(m.quota.used));
            let ghost qv = view_fields(q@);
            let mut o = new_obj();
            put_field(&mut o, "version", jnum(m.version));
            put_field(&mut o, "rules", jnum(m.rules.len() as u64));
            put_field(&mut o, "quota", Json::Object(q));
            put_field(&mut o, "banned", Json::Bool(m.banned));
            put_field(&mut o, "fetched_at", jnum(m.fetched_at));
            assert(view_fields(o@) =~= strategy_json(*strategy)->Obj_0) by {
                assert(qv =~= seq![("limit"@, num(m.quota.limit)), ("used"@, num(m.quota.used))]);
            }
            Json::Object(o)
        },
        None => Json::Null,
    };
    let mut o = new_obj();
    put_field(&mut o, "role", jtext("client"));
    put_field(&mut o, "leaders", jnum(leaders as u64));
    put_field(&mut o, "leader", jtext(summary));
    put_field(&mut o, "strategy", st);
    assert(view_fields(o@) =~= seq![
        ("role"@, JsonView::Str("client"@)),
        ("leaders"@, num(leaders as u64)),
        ("leader"@, JsonView::Str(summary@)),
        ("strategy"@, strategy_json(*strategy)),
    ]);
    Json::Object(o)
}

} // verus!
