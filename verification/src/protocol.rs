//! Protocol conversion between the Anthropic Messages API and the OpenAI
//! Chat Completions API, and the replay of a complete upstream reply as a
//! server-sent event stream.
use vstd::prelude::*;
use crate::json::{
    first_at, jarr, jget, lemma_field_first, jnum, jstr, jtext, json_parse, json_parse_of, json_text, json_text_of, ju64, lemma_view_fields,
    lemma_view_items, or_text, view_fields, view_items, Json, JsonView,
};
use crate::text::{concat, decimal, push_str, str_eq};

verus! {

/// Appends a field to an object under construction.
pub fn put_field(o: &mut Vec<(String, Json)>, k: &str, v: Json)
    ensures
        view_fields(final(o)@) == view_fields(old(o)@).push((k@, v.view_of())),
{
    let ghost before = o@;
    o.push((k.to_string(), v));
    assert(o@.drop_last() =~= before);
}

/// Appends an item to an array under construction.
pub fn put_item(a: &mut Vec<Json>, v: Json)
    ensures
        view_items(final(a)@) == view_items(old(a)@).push(v.view_of()),
{
    let ghost before = a@;
    a.push(v);
    assert(a@.drop_last() =~= before);
}

/// An empty object.
pub open spec fn empty_obj() -> JsonView {
    JsonView::Obj(Seq::empty())
}

pub(crate) fn new_obj() -> (o: Vec<(String, Json)>)
    ensures
        view_fields(o@) == Seq::<(Seq<char>, JsonView)>::empty(),
{
    Vec::new()
}

pub(crate) fn new_arr() -> (a: Vec<Json>)
    ensures
        view_items(a@) == Seq::<JsonView>::empty(),
{
    Vec::new()
}

/// A usage count of an OpenAI reply (`usage.<key>`, 0 when absent).
pub open spec fn usage_count(resp: JsonView, key: Seq<char>) -> u64 {
    match jget(resp, "usage"@) {
        Some(u) => match ju64(u, key) {
            Some(n) => n,
            None => 0,
        },
        None => 0,
    }
}

/// Prompt and completion token counts of an OpenAI reply.
pub fn extract_openai_usage(resp: &Json) -> (r: (u64, u64))
    ensures
        r == (usage_count(resp.view_of(), "prompt_tokens"@), usage_count(resp.view_of(), "completion_tokens"@)),
{
    match resp.get("usage") {
        Some(u) => {
            let pt = match u.get_u64("prompt_tokens") {
                Some(n) => n,
                None => 0,
            };
            let ct = match u.get_u64("completion_tokens") {
                Some(n) => n,
                None => 0,
            };
            (pt, ct)
        },
        None => (0, 0),
    }
}

/// The first choice of an OpenAI reply and its message.
pub open spec fn first_choice_of(resp: JsonView) -> Option<(JsonView, JsonView)> {
    match jarr(resp, "choices"@) {
        Some(a) => if a.len() > 0 {
            match jget(a[0], "message"@) {
                Some(m) => Some((a[0], m)),
                None => None,
            }
        } else {
            None
        },
        None => None,
    }
}

/// The tool calls of a message (none when absent).
pub open spec fn tool_calls_of(m: JsonView) -> Seq<JsonView> {
    match jarr(m, "tool_calls"@) {
        Some(a) => a,
        None => Seq::empty(),
    }
}

/// What the first choice of an OpenAI reply says: its text, tool calls and
/// finish reason.
pub struct OpenAiChoice {
    pub text: String,
    pub tool_calls: Vec<Json>,
    pub finish_reason: Option<String>,
}

/// The first choice of an OpenAI reply (`None` without a first choice that
/// has a message).
pub fn first_choice(resp: &Json) -> (r: Option<OpenAiChoice>)
    ensures
        r is Some <==> first_choice_of(resp.view_of()) is Some,
        r matches Some(c) ==> {
            let (choice, m) = first_choice_of(resp.view_of())->0;
            &&& c.text@ == or_text(jstr(m, "content"@), Seq::empty())
            &&& view_items(c.tool_calls@) == tool_calls_of(m)
            &&& match c.finish_reason {
                Some(f) => jstr(choice, "finish_reason"@) == Some(f@),
                None => jstr(choice, "finish_reason"@) is None,
            }
        },
{
    let choices = match resp.get_array("choices") {
        Some(a) => a,
        None => return None,
    };
    if choices.len() == 0 {
        return None;
    }
    proof {
        lemma_view_items(choices@);
    }
    let choice = &choices[0];
    let message = match choice.get("message") {
        Some(m) => m,
        None => return None,
    };
    let text = match message.get_str("content") {
        Some(s) => s.to_string(),
        None => String::new(),
    };
    let mut tool_calls: Vec<Json> = Vec::new();
    match message.get_array("tool_calls") {
        Some(a) => {
            let mut i: usize = 0;
            while i < a.len()
                invariant
                    i <= a.len(),
                    view_items(tool_calls@) == view_items(a@.take(i as int)),
                decreases a.len() - i,
            {
                put_item(&mut tool_calls, a[i].duplicate());
                assert(a@.take(i + 1).drop_last() =~= a@.take(i as int));
                i = i + 1;
            }
            assert(a@.take(a.len() as int) =~= a@);
        },
        None => {},
    }
    let finish_reason = match choice.get_str("finish_reason") {
        Some(f) => Some(f.to_string()),
        None => None,
    };
    Some(OpenAiChoice { text, tool_calls, finish_reason })
}

/// The input of a tool call: its `function.arguments` parsed as JSON; the
/// arguments as they are when they are not a string or do not parse; `{}`
/// without arguments.
pub open spec fn tool_input(tc: JsonView) -> JsonView {
    match jget(tc, "function"@) {
        Some(f) => match jget(f, "arguments"@) {
            Some(JsonView::Str(s)) => match json_parse_of(s) {
                Some(p) => p,
                None => JsonView::Str(s),
            },
            Some(a) => a,
            None => empty_obj(),
        },
        None => empty_obj(),
    }
}

/// `function.name` of a tool call, or empty.
pub open spec fn tool_name(tc: JsonView) -> Seq<char> {
    match jget(tc, "function"@) {
        Some(f) => or_text(jstr(f, "name"@), Seq::empty()),
        None => Seq::empty(),
    }
}

/// The Anthropic `tool_use` block of an OpenAI tool call.
pub open spec fn tool_use_block(tc: JsonView) -> JsonView {
    JsonView::Obj(seq![
        ("type"@, JsonView::Str("tool_use"@)),
        ("id"@, JsonView::Str(or_text(jstr(tc, "id"@), "call_0"@))),
        ("name"@, JsonView::Str(tool_name(tc))),
        ("input"@, tool_input(tc)),
    ])
}

fn tool_use_of(tc: &Json) -> (b: Json)
    ensures
        b.view_of() == tool_use_block(tc.view_of()),
{
    let id = match tc.get_str("id") {
        Some(s) => s,
        None => "call_0",
    };
    let function = tc.get("function");
    let name = match function {
        Some(f) => match f.get_str("name") {
            Some(s) => s,
            None => "",
        },
        None => "",
    };
    let input = match function {
        Some(f) => match f.get("arguments") {
            Some(a) => match a.as_str() {
                Some(s) => match json_parse(s) {
                    Ok(p) => p,
                    Err(_) => a.duplicate(),
                },
                None => a.duplicate(),
            },
            None => Json::Object(new_obj()),
        },
        None => Json::Object(new_obj()),
    };
    proof {
        reveal_strlit("");
        assert(""@ =~= Seq::<char>::empty());
    }
    assert(input.view_of() == tool_input(tc.view_of()));
    assert(name@ == tool_name(tc.view_of()));
    proof {
        reveal_strlit("call_0");
    }
    assert(id@ == or_text(jstr(tc.view_of(), "id"@), "call_0"@));
    let mut o = new_obj();
    put_field(&mut o, "type", jtext("tool_use"));
    put_field(&mut o, "id", jtext(id));
    put_field(&mut o, "name", jtext(name));
    put_field(&mut o, "input", input);
    proof {
        reveal_strlit("call_0");
    }
    assert(view_fields(o@) =~= seq![
        ("type"@, JsonView::Str("tool_use"@)),
        ("id"@, JsonView::Str(or_text(jstr(tc.view_of(), "id"@), "call_0"@))),
        ("name"@, JsonView::Str(tool_name(tc.view_of()))),
        ("input"@, tool_input(tc.view_of())),
    ]);
    Json::Object(o)
}

/// The Anthropic content blocks of a first choice: its text (when not
/// empty), then a `tool_use` block per tool call; a lone empty text block
/// when that leaves nothing.
pub open spec fn anthropic_blocks(resp: JsonView) -> Seq<JsonView> {
    let raw = match first_choice_of(resp) {
        Some((c, m)) => text_block_if(or_text(jstr(m, "content"@), Seq::empty())) + tool_blocks(tool_calls_of(m)),
        None => Seq::empty(),
    };
    if raw.len() == 0 {
        seq![text_block(Seq::empty())]
    } else {
        raw
    }
}

/// A text block.
pub open spec fn text_block(t: Seq<char>) -> JsonView {
    JsonView::Obj(seq![("type"@, JsonView::Str("text"@)), ("text"@, JsonView::Str(t))])
}

/// A text block when the text is not empty.
pub open spec fn text_block_if(t: Seq<char>) -> Seq<JsonView> {
    if t.len() > 0 {
        seq![text_block(t)]
    } else {
        Seq::empty()
    }
}

/// The `tool_use` blocks of tool calls.
pub open spec fn tool_blocks(tcs: Seq<JsonView>) -> Seq<JsonView>
    decreases tcs.len(),
{
    if tcs.len() == 0 {
        Seq::empty()
    } else {
        tool_blocks(tcs.drop_last()).push(tool_use_block(tcs.last()))
    }
}

/// The Anthropic stop reason of a finish reason: `tool_calls` is `tool_use`,
/// `length` is `max_tokens`, anything else `end_turn`.
pub open spec fn stop_reason_of(resp: JsonView) -> Seq<char> {
    match first_choice_of(resp) {
        Some((c, m)) => if jstr(c, "finish_reason"@) == Some("tool_calls"@) {
            "tool_use"@
        } else if jstr(c, "finish_reason"@) == Some("length"@) {
            "max_tokens"@
        } else {
            "end_turn"@
        },
        None => "end_turn"@,
    }
}

fn text_block_json(t: &str) -> (b: Json)
    ensures
        b.view_of() == text_block(t@),
{
    let mut o = new_obj();
    put_field(&mut o, "type", jtext("text"));
    put_field(&mut o, "text", jtext(t));
    assert(view_fields(o@) =~= seq![("type"@, JsonView::Str("text"@)), ("text"@, JsonView::Str(t@))]);
    Json::Object(o)
}

/// Content blocks and stop reason of an OpenAI reply, in Anthropic terms.
fn blocks_of(resp: &Json) -> (r: (Vec<Json>, &'static str))
    ensures
        view_items(r.0@) == anthropic_blocks(resp.view_of()),
        r.1@ == stop_reason_of(resp.view_of()),
{
    proof {
        reveal_strlit("tool_calls");
        reveal_strlit("length");
    }
    let mut blocks = new_arr();
    let mut stop: &'static str = "end_turn";
    match first_choice(resp) {
        Some(c) => {
            if crate::text::char_count(c.text.as_str()) > 0 {
                put_item(&mut blocks, text_block_json(c.text.as_str()));
                assert(view_items(blocks@) =~= text_block_if(c.text@));
            } else {
                assert(view_items(blocks@) =~= text_block_if(c.text@));
            }
            let ghost head = view_items(blocks@);
            let mut i: usize = 0;
            while i < c.tool_calls.len()
                invariant
                    i <= c.tool_calls.len(),
                    view_items(blocks@) == head + tool_blocks(view_items(c.tool_calls@).take(i as int)),
                decreases c.tool_calls.len() - i,
            {
                proof {
                    lemma_view_items(c.tool_calls@);
                    assert(view_items(c.tool_calls@).take(i + 1).drop_last() =~= view_items(c.tool_calls@).take(i as int));
                }
                put_item(&mut blocks, tool_use_of(&c.tool_calls[i]));
                assert(view_items(blocks@) =~= head + tool_blocks(view_items(c.tool_calls@).take(i + 1)));
                i = i + 1;
            }
            proof {
                lemma_view_items(c.tool_calls@);
                assert(view_items(c.tool_calls@).take(c.tool_calls.len() as int) =~= view_items(c.tool_calls@));
                let (ch, m) = first_choice_of(resp.view_of())->0;
                assert(view_items(blocks@) == text_block_if(or_text(jstr(m, "content"@), Seq::empty())) + tool_blocks(tool_calls_of(m)));
            }
            match &c.finish_reason {
                Some(f) => {
                    if str_eq(f.as_str(), "tool_calls") {
                        stop = "tool_use";
                    } else if str_eq(f.as_str(), "length") {
                        stop = "max_tokens";
                    }
                },
                None => {},
            }
        },
        None => {},
    }
    if blocks.len() == 0 {
        proof {
            lemma_view_items(blocks@);
            reveal_strlit("");
            assert(""@ =~= Seq::<char>::empty());
        }
        put_item(&mut blocks, text_block_json(""));
        assert(view_items(blocks@) =~= seq![text_block(Seq::empty())]);
    } else {
        proof {
            lemma_view_items(blocks@);
        }
    }
    (blocks, stop)
}

/// The Anthropic reply for an OpenAI reply.
pub open spec fn anthropic_reply(resp: JsonView) -> JsonView {
    JsonView::Obj(seq![
        ("id"@, JsonView::Str("msg_mock_0001"@)),
        ("type"@, JsonView::Str("message"@)),
        ("role"@, JsonView::Str("assistant"@)),
        ("model"@, JsonView::Str(or_text(jstr(resp, "model"@), "default"@))),
        ("content"@, JsonView::Arr(anthropic_blocks(resp))),
        ("stop_reason"@, JsonView::Str(stop_reason_of(resp))),
        ("stop_sequence"@, JsonView::Null),
        ("usage"@, JsonView::Obj(seq![
            ("input_tokens"@, num(usage_count(resp, "prompt_tokens"@))),
            ("output_tokens"@, num(usage_count(resp, "completion_tokens"@))),
        ])),
    ])
}

/// An unsigned number.
pub open spec fn num(n: u64) -> JsonView {
    JsonView::Num(decimal(n as nat), Some(n))
}

/// OpenAI reply → Anthropic reply: text and tool calls become content
/// blocks; finish reason `tool_calls` becomes stop reason `tool_use`.
pub fn openai_to_anthropic(resp: &Json) -> (r: Json)
    ensures
        r.view_of() == anthropic_reply(resp.view_of()),
{
    let model = match resp.get_str("model") {
        Some(m) => m,
        None => "default",
    };
    let (pt, ct) = extract_openai_usage(resp);
    let (blocks, stop) = blocks_of(resp);
    let mut usage = new_obj();
    put_field(&mut usage, "input_tokens", jnum(pt));
    put_field(&mut usage, "output_tokens", jnum(ct));
    let mut o = new_obj();
    put_field(&mut o, "id", jtext("msg_mock_0001"));
    put_field(&mut o, "type", jtext("message"));
    put_field(&mut o, "role", jtext("assistant"));
    put_field(&mut o, "model", jtext(model));
    put_field(&mut o, "content", Json::Array(blocks));
    put_field(&mut o, "stop_reason", jtext(stop));
    put_field(&mut o, "stop_sequence", Json::Null);
    assert(view_fields(usage@) =~= seq![
        ("input_tokens"@, num(usage_count(resp.view_of(), "prompt_tokens"@))),
        ("output_tokens"@, num(usage_count(resp.view_of(), "completion_tokens"@))),
    ]);
    let u = Json::Object(usage);
    put_field(&mut o, "usage", u);
    proof {
        reveal_strlit("default");
    }
    assert(view_fields(o@) =~= seq![
        ("id"@, JsonView::Str("msg_mock_0001"@)),
        ("type"@, JsonView::Str("message"@)),
        ("role"@, JsonView::Str("assistant"@)),
        ("model"@, JsonView::Str(or_text(jstr(resp.view_of(), "model"@), "default"@))),
        ("content"@, JsonView::Arr(anthropic_blocks(resp.view_of()))),
        ("stop_reason"@, JsonView::Str(stop_reason_of(resp.view_of()))),
        ("stop_sequence"@, JsonView::Null),
        ("usage"@, JsonView::Obj(seq![
            ("input_tokens"@, num(usage_count(resp.view_of(), "prompt_tokens"@))),
            ("output_tokens"@, num(usage_count(resp.view_of(), "completion_tokens"@))),
        ])),
    ]);
    Json::Object(o)
}

/// One server-sent event: `event: <name>`, `data: <json>`, blank line.
pub open spec fn sse_event(name: Seq<char>, data: JsonView) -> Seq<char> {
    "event: "@ + name + "\ndata: "@ + json_text_of(data) + "\n\n"@
}

fn push_event(out: &mut String, name: &str, data: &Json)
    ensures
        final(out)@ == old(out)@ + sse_event(name@, data.view_of()),
{
    push_str(out, "event: ");
    push_str(out, name);
    push_str(out, "\ndata: ");
    let t = json_text(data);
    push_str(out, t.as_str());
    push_str(out, "\n\n");
    assert(out@ =~= old(out)@ + sse_event(name@, data.view_of()));
}

/// The events that replay content block `i`: its start, its delta (text, or
/// the tool input rendered as JSON), its stop.
pub open spec fn block_events(i: u64, b: JsonView) -> Seq<char> {
    let kind = or_text(jstr(b, "type"@), "text"@);
    sse_event("content_block_start"@, JsonView::Obj(seq![
        ("type"@, JsonView::Str("content_block_start"@)),
        ("index"@, num(i)),
        ("content_block"@, b),
    ])) + (if kind == "text"@ {
        sse_event("content_block_delta"@, JsonView::Obj(seq![
            ("type"@, JsonView::Str("content_block_delta"@)),
            ("index"@, num(i)),
            ("delta"@, JsonView::Obj(seq![
                ("type"@, JsonView::Str("text_delta"@)),
                ("text"@, JsonView::Str(or_text(jstr(b, "text"@), Seq::empty()))),
            ])),
        ]))
    } else if kind == "tool_use"@ {
        sse_event("content_block_delta"@, JsonView::Obj(seq![
            ("type"@, JsonView::Str("content_block_delta"@)),
            ("index"@, num(i)),
            ("delta"@, JsonView::Obj(seq![
                ("type"@, JsonView::Str("input_json_delta"@)),
                ("partial_json"@, JsonView::Str(json_text_of(match jget(b, "input"@) {
                    Some(x) => x,
                    None => empty_obj(),
                }))),
            ])),
        ]))
    } else {
        Seq::empty()
    }) + sse_event("content_block_stop"@, JsonView::Obj(seq![
        ("type"@, JsonView::Str("content_block_stop"@)),
        ("index"@, num(i)),
    ]))
}

/// The events of a list of blocks, numbered from 0.
pub open spec fn blocks_events(bs: Seq<JsonView>) -> Seq<char>
    decreases bs.len(),
{
    if bs.len() == 0 {
        Seq::empty()
    } else {
        blocks_events(bs.drop_last()) + block_events((bs.len() - 1) as u64, bs.last())
    }
}

/// The Anthropic event stream replaying an OpenAI reply.
pub open spec fn anthropic_sse(resp: JsonView) -> Seq<char> {
    sse_event("message_start"@, JsonView::Obj(seq![
        ("type"@, JsonView::Str("message_start"@)),
        ("message"@, JsonView::Obj(seq![
            ("id"@, JsonView::Str("msg_mock_0001"@)),
            ("type"@, JsonView::Str("message"@)),
            ("role"@, JsonView::Str("assistant"@)),
            ("model"@, JsonView::Str(or_text(jstr(resp, "model"@), "default"@))),
            ("content"@, JsonView::Arr(Seq::empty())),
            ("usage"@, JsonView::Obj(seq![
                ("input_tokens"@, num(usage_count(resp, "prompt_tokens"@))),
                ("output_tokens"@, num(0)),
            ])),
        ])),
    ])) + blocks_events(anthropic_blocks(resp)) + sse_event("message_delta"@, JsonView::Obj(seq![
        ("type"@, JsonView::Str("message_delta"@)),
        ("delta"@, JsonView::Obj(seq![
            ("stop_reason"@, JsonView::Str(stop_reason_of(resp))),
            ("stop_sequence"@, JsonView::Null),
        ])),
        ("usage"@, JsonView::Obj(seq![("output_tokens"@, num(usage_count(resp, "completion_tokens"@)))])),
    ])) + sse_event("message_stop"@, JsonView::Obj(seq![("type"@, JsonView::Str("message_stop"@))]))
}

fn block_events_of(out: &mut String, i: u64, b: &Json)
    ensures
        final(out)@ == old(out)@ + block_events(i, b.view_of()),
{
    proof {
        reveal_strlit("text");
        reveal_strlit("tool_use");
        reveal_strlit("");
        assert(""@ =~= Seq::<char>::empty());
    }
    let ghost start = out@;
    let kind = match b.get_str("type") {
        Some(k) => k,
        None => "text",
    };
    let mut o = new_obj();
    put_field(&mut o, "type", jtext("content_block_start"));
    put_field(&mut o, "index", jnum(i));
    put_field(&mut o, "content_block", b.duplicate());
    assert(view_fields(o@) =~= seq![
        ("type"@, JsonView::Str("content_block_start"@)),
        ("index"@, num(i)),
        ("content_block"@, b.view_of()),
    ]);
    push_event(out, "content_block_start", &Json::Object(o));
    let ghost mid = out@;
    if str_eq(kind, "text") {
        let text = match b.get_str("text") {
            Some(t) => t,
            None => "",
        };
        let mut d = new_obj();
        put_field(&mut d, "type", jtext("text_delta"));
        put_field(&mut d, "text", jtext(text));
        assert(view_fields(d@) =~= seq![
            ("type"@, JsonView::Str("text_delta"@)),
            ("text"@, JsonView::Str(or_text(jstr(b.view_of(), "text"@), Seq::empty()))),
        ]);
        let mut e = new_obj();
        put_field(&mut e, "type", jtext("content_block_delta"));
        put_field(&mut e, "index", jnum(i));
        put_field(&mut e, "delta", Json::Object(d));
        assert(view_fields(e@) =~= seq![
            ("type"@, JsonView::Str("content_block_delta"@)),
            ("index"@, num(i)),
            ("delta"@, JsonView::Obj(seq![
                ("type"@, JsonView::Str("text_delta"@)),
                ("text"@, JsonView::Str(or_text(jstr(b.view_of(), "text"@), Seq::empty()))),
            ])),
        ]);
        push_event(out, "content_block_delta", &Json::Object(e));
    } else if str_eq(kind, "tool_use") {
        let input = match b.get("input") {
            Some(x) => x.duplicate(),
            None => Json::Object(new_obj()),
        };
        let partial = json_text(&input);
        let mut d = new_obj();
        put_field(&mut d, "type", jtext("input_json_delta"));
        put_field(&mut d, "partial_json", jtext(partial.as_str()));
        assert(view_fields(d@) =~= seq![
            ("type"@, JsonView::Str("input_json_delta"@)),
            ("partial_json"@, JsonView::Str(json_text_of(match jget(b.view_of(), "input"@) {
                Some(x) => x,
                None => empty_obj(),
            }))),
        ]);
        let mut e = new_obj();
        put_field(&mut e, "type", jtext("content_block_delta"));
        put_field(&mut e, "index", jnum(i));
        put_field(&mut e, "delta", Json::Object(d));
        assert(view_fields(e@) =~= seq![
            ("type"@, JsonView::Str("content_block_delta"@)),
            ("index"@, num(i)),
            ("delta"@, JsonView::Obj(seq![
                ("type"@, JsonView::Str("input_json_delta"@)),
                ("partial_json"@, JsonView::Str(json_text_of(match jget(b.view_of(), "input"@) {
                    Some(x) => x,
                    None => empty_obj(),
                }))),
            ])),
        ]);
        push_event(out, "content_block_delta", &Json::Object(e));
    }
    let mut s = new_obj();
    put_field(&mut s, "type", jtext("content_block_stop"));
    put_field(&mut s, "index", jnum(i));
    assert(view_fields(s@) =~= seq![("type"@, JsonView::Str("content_block_stop"@)), ("index"@, num(i))]);
    push_event(out, "content_block_stop", &Json::Object(s));
    assert(out@ =~= start + block_events(i, b.view_of()));
}

/// OpenAI reply → Anthropic event stream (the complete reply replayed as
/// `message_start`, the content blocks, `message_delta`, `message_stop`).
pub fn anthropic_sse_stream(resp: &Json) -> (s: String)
    ensures
        s@ == anthropic_sse(resp.view_of()),
{
    proof {
        reveal_strlit("default");
    }
    let model = match resp.get_str("model") {
        Some(m) => m,
        None => "default",
    };
    let (pt, ct) = extract_openai_usage(resp);
    let (blocks, stop) = blocks_of(resp);
    let mut out = String::new();
    let mut usage = new_obj();
    put_field(&mut usage, "input_tokens", jnum(pt));
    put_field(&mut usage, "output_tokens", jnum(0));
    let mut msg = new_obj();
    put_field(&mut msg, "id", jtext("msg_mock_0001"));
    put_field(&mut msg, "type", jtext("message"));
    put_field(&mut msg, "role", jtext("assistant"));
    put_field(&mut msg, "model", jtext(model));
    let empty_content = new_arr();
    let ghost empty_view = view_items(empty_content@);
    put_field(&mut msg, "content", Json::Array(empty_content));
    assert(view_fields(usage@) =~= seq![
        ("input_tokens"@, num(usage_count(resp.view_of(), "prompt_tokens"@))),
        ("output_tokens"@, num(0)),
    ]);
    put_field(&mut msg, "usage", Json::Object(usage));
    assert(empty_view == Seq::<JsonView>::empty());
    assert(view_fields(msg@) =~= seq![
        ("id"@, JsonView::Str("msg_mock_0001"@)),
        ("type"@, JsonView::Str("message"@)),
        ("role"@, JsonView::Str("assistant"@)),
        ("model"@, JsonView::Str(or_text(jstr(resp.view_of(), "model"@), "default"@))),
        ("content"@, JsonView::Arr(Seq::empty())),
        ("usage"@, JsonView::Obj(seq![
            ("input_tokens"@, num(usage_count(resp.view_of(), "prompt_tokens"@))),
            ("output_tokens"@, num(0)),
        ])),
    ]);
    let mut start = new_obj();
    put_field(&mut start, "type", jtext("message_start"));
    put_field(&mut start, "message", Json::Object(msg));
    assert(view_fields(start@) =~= seq![
        ("type"@, JsonView::Str("message_start"@)),
        ("message"@, JsonView::Obj(seq![
            ("id"@, JsonView::Str("msg_mock_0001"@)),
            ("type"@, JsonView::Str("message"@)),
            ("role"@, JsonView::Str("assistant"@)),
            ("model"@, JsonView::Str(or_text(jstr(resp.view_of(), "model"@), "default"@))),
            ("content"@, JsonView::Arr(Seq::empty())),
            ("usage"@, JsonView::Obj(seq![
                ("input_tokens"@, num(usage_count(resp.view_of(), "prompt_tokens"@))),
                ("output_tokens"@, num(0)),
            ])),
        ])),
    ]);
    push_event(&mut out, "message_start", &Json::Object(start));
    let ghost head = out@;
    proof {
        lemma_view_items(blocks@);
        assert(out@ == Seq::<char>::empty() + sse_event("message_start"@, JsonView::Obj(seq![
            ("type"@, JsonView::Str("message_start"@)),
            ("message"@, JsonView::Obj(seq![
                ("id"@, JsonView::Str("msg_mock_0001"@)),
                ("type"@, JsonView::Str("message"@)),
                ("role"@, JsonView::Str("assistant"@)),
                ("model"@, JsonView::Str(or_text(jstr(resp.view_of(), "model"@), "default"@))),
                ("content"@, JsonView::Arr(Seq::empty())),
                ("usage"@, JsonView::Obj(seq![
                    ("input_tokens"@, num(usage_count(resp.view_of(), "prompt_tokens"@))),
                    ("output_tokens"@, num(0)),
                ])),
            ])),
        ])));
    }
    let mut i: usize = 0;
    while i < blocks.len()
        invariant
            i <= blocks.len(),
            view_items(blocks@).len() == blocks@.len(),
            forall|k: int| 0 <= k < blocks@.len() ==> #[trigger] view_items(blocks@)[k] == blocks@[k].view_of(),
            out@ == head + blocks_events(view_items(blocks@).take(i as int)),
        decreases blocks.len() - i,
    {
        proof {
            assert(view_items(blocks@).take(i + 1).drop_last() =~= view_items(blocks@).take(i as int));
        }
        block_events_of(&mut out, i as u64, &blocks[i]);
        assert(out@ =~= head + blocks_events(view_items(blocks@).take(i + 1)));
        i = i + 1;
    }
    assert(view_items(blocks@).take(blocks.len() as int) =~= view_items(blocks@));
    let mut delta = new_obj();
    put_field(&mut delta, "stop_reason", jtext(stop));
    put_field(&mut delta, "stop_sequence", Json::Null);
    let mut u2 = new_obj();
    put_field(&mut u2, "output_tokens", jnum(ct));
    assert(view_fields(delta@) =~= seq![
        ("stop_reason"@, JsonView::Str(stop_reason_of(resp.view_of()))),
        ("stop_sequence"@, JsonView::Null),
    ]);
    assert(view_fields(u2@) =~= seq![("output_tokens"@, num(usage_count(resp.view_of(), "completion_tokens"@)))]);
    let mut md = new_obj();
    put_field(&mut md, "type", jtext("message_delta"));
    put_field(&mut md, "delta", Json::Object(delta));
    put_field(&mut md, "usage", Json::Object(u2));
    assert(view_fields(md@) =~= seq![
        ("type"@, JsonView::Str("message_delta"@)),
        ("delta"@, JsonView::Obj(seq![
            ("stop_reason"@, JsonView::Str(stop_reason_of(resp.view_of()))),
            ("stop_sequence"@, JsonView::Null),
        ])),
        ("usage"@, JsonView::Obj(seq![("output_tokens"@, num(usage_count(resp.view_of(), "completion_tokens"@)))])),
    ]);
    let ghost before_delta = out@;
    push_event(&mut out, "message_delta", &Json::Object(md));
    let mut ms = new_obj();
    put_field(&mut ms, "type", jtext("message_stop"));
    assert(view_fields(ms@) =~= seq![("type"@, JsonView::Str("message_stop"@))]);
    push_event(&mut out, "message_stop", &Json::Object(ms));
    proof {
        assert(out@ =~= anthropic_sse(resp.view_of()));
    }
    out
}

/// One OpenAI stream chunk line: `data: <json>`, blank line.
pub open spec fn data_line(data: JsonView) -> Seq<char> {
    "data: "@ + json_text_of(data) + "\n\n"@
}

fn push_data(out: &mut String, data: &Json)
    ensures
        final(out)@ == old(out)@ + data_line(data.view_of()),
{
    push_str(out, "data: ");
    let t = json_text(data);
    push_str(out, t.as_str());
    push_str(out, "\n\n");
    assert(out@ =~= old(out)@ + data_line(data.view_of()));
}

/// A stream chunk of an OpenAI reply carrying one choice.
pub open spec fn chunk(resp: JsonView, choice: JsonView) -> JsonView {
    JsonView::Obj(seq![
        ("id"@, JsonView::Str(or_text(jstr(resp, "id"@), "chatcmpl-mock"@))),
        ("object"@, JsonView::Str("chat.completion.chunk"@)),
        ("created"@, num(match ju64(resp, "created"@) { Some(n) => n, None => 0 })),
        ("model"@, JsonView::Str(or_text(jstr(resp, "model"@), "default"@))),
        ("choices"@, JsonView::Arr(seq![choice])),
    ])
}

/// A choice of a stream chunk: index 0, this delta, no finish reason.
pub open spec fn delta_choice(delta: JsonView) -> JsonView {
    JsonView::Obj(seq![("index"@, num(0)), ("delta"@, delta), ("finish_reason"@, JsonView::Null)])
}

/// The stream chunk of a tool call.
pub open spec fn tool_chunk(resp: JsonView, tc: JsonView) -> JsonView {
    chunk(resp, delta_choice(JsonView::Obj(seq![("tool_calls"@, JsonView::Arr(seq![JsonView::Obj(seq![
        ("index"@, num(match ju64(tc, "index"@) { Some(n) => n, None => 0 })),
        ("id"@, JsonView::Str(or_text(jstr(tc, "id"@), "call_0"@))),
        ("type"@, JsonView::Str("function"@)),
        ("function"@, JsonView::Obj(seq![
            ("name"@, JsonView::Str(tool_name(tc))),
            ("arguments"@, JsonView::Str(match jget(tc, "function"@) {
                Some(f) => or_text(jstr(f, "arguments"@), Seq::empty()),
                None => Seq::empty(),
            })),
        ])),
    ])]))])))
}

/// The lines of the tool-call chunks.
pub open spec fn tool_chunk_lines(resp: JsonView, tcs: Seq<JsonView>) -> Seq<char>
    decreases tcs.len(),
{
    if tcs.len() == 0 {
        Seq::empty()
    } else {
        tool_chunk_lines(resp, tcs.drop_last()) + data_line(tool_chunk(resp, tcs.last()))
    }
}

/// The OpenAI finish reason of a replayed stream: `tool_calls` and `length`
/// kept, anything else `stop`.
pub open spec fn finish_of(resp: JsonView) -> Seq<char> {
    match first_choice_of(resp) {
        Some((c, m)) => if jstr(c, "finish_reason"@) == Some("tool_calls"@) {
            "tool_calls"@
        } else if jstr(c, "finish_reason"@) == Some("length"@) {
            "length"@
        } else {
            "stop"@
        },
        None => "stop"@,
    }
}

/// The OpenAI event stream replaying a complete reply: a role chunk, the
/// text chunk (when there is text), a chunk per tool call, the closing chunk
/// with finish reason and usage, then `[DONE]`.
pub open spec fn openai_sse(resp: JsonView) -> Seq<char> {
    let pt = usage_count(resp, "prompt_tokens"@);
    let ct = usage_count(resp, "completion_tokens"@);
    data_line(chunk(resp, delta_choice(JsonView::Obj(seq![("role"@, JsonView::Str("assistant"@)), ("content"@, JsonView::Str(Seq::empty()))]))))
        + match first_choice_of(resp) {
            Some((c, m)) => (if or_text(jstr(m, "content"@), Seq::empty()).len() > 0 {
                data_line(chunk(resp, delta_choice(JsonView::Obj(seq![("content"@, JsonView::Str(or_text(jstr(m, "content"@), Seq::empty())))]))))
            } else {
                Seq::empty()
            }) + tool_chunk_lines(resp, tool_calls_of(m)),
            None => Seq::empty(),
        }
        + data_line(JsonView::Obj(seq![
            ("id"@, JsonView::Str(or_text(jstr(resp, "id"@), "chatcmpl-mock"@))),
            ("object"@, JsonView::Str("chat.completion.chunk"@)),
            ("created"@, num(match ju64(resp, "created"@) { Some(n) => n, None => 0 })),
            ("model"@, JsonView::Str(or_text(jstr(resp, "model"@), "default"@))),
            ("choices"@, JsonView::Arr(seq![JsonView::Obj(seq![
                ("index"@, num(0)),
                ("delta"@, JsonView::Obj(Seq::empty())),
                ("finish_reason"@, JsonView::Str(finish_of(resp))),
            ])])),
            ("usage"@, JsonView::Obj(seq![
                ("prompt_tokens"@, num(pt)),
                ("completion_tokens"@, num(ct)),
                ("total_tokens"@, num((pt + ct) as u64)),
            ])),
        ]))
        + "data: [DONE]\n\n"@
}

/// The stream envelope of a reply: id, created and model.
struct Envelope {
    id: String,
    created: u64,
    model: String,
}

fn envelope_chunk(env: &Envelope, choice: Json, Ghost(resp): Ghost<JsonView>) -> (c: Json)
    requires
        env.id@ == or_text(jstr(resp, "id"@), "chatcmpl-mock"@),
        env.created == (match ju64(resp, "created"@) { Some(n) => n, None => 0 }),
        env.model@ == or_text(jstr(resp, "model"@), "default"@),
    ensures
        c.view_of() == chunk(resp, choice.view_of()),
{
    let ghost cv = choice.view_of();
    let mut choices = new_arr();
    put_item(&mut choices, choice);
    assert(view_items(choices@) =~= seq![cv]);
    let mut o = new_obj();
    put_field(&mut o, "id", jtext(env.id.as_str()));
    put_field(&mut o, "object", jtext("chat.completion.chunk"));
    put_field(&mut o, "created", jnum(env.created));
    put_field(&mut o, "model", jtext(env.model.as_str()));
    put_field(&mut o, "choices", Json::Array(choices));
    assert(view_fields(o@) =~= seq![
        ("id"@, JsonView::Str(or_text(jstr(resp, "id"@), "chatcmpl-mock"@))),
        ("object"@, JsonView::Str("chat.completion.chunk"@)),
        ("created"@, num(match ju64(resp, "created"@) { Some(n) => n, None => 0 })),
        ("model"@, JsonView::Str(or_text(jstr(resp, "model"@), "default"@))),
        ("choices"@, JsonView::Arr(seq![cv])),
    ]);
    Json::Object(o)
}

fn delta_choice_of(delta: Json) -> (c: Json)
    ensures
        c.view_of() == delta_choice(delta.view_of()),
{
    let ghost dv = delta.view_of();
    let mut o = new_obj();
    put_field(&mut o, "index", jnum(0));
    put_field(&mut o, "delta", delta);
    put_field(&mut o, "finish_reason", Json::Null);
    assert(view_fields(o@) =~= seq![("index"@, num(0)), ("delta"@, dv), ("finish_reason"@, JsonView::Null)]);
    Json::Object(o)
}

fn tool_chunk_of(env: &Envelope, tc: &Json, Ghost(resp): Ghost<JsonView>) -> (c: Json)
    requires
        env.id@ == or_text(jstr(resp, "id"@), "chatcmpl-mock"@),
        env.created == (match ju64(resp, "created"@) { Some(n) => n, None => 0 }),
        env.model@ == or_text(jstr(resp, "model"@), "default"@),
    ensures
        c.view_of() == tool_chunk(resp, tc.view_of()),
{
    proof {
        reveal_strlit("call_0");
        reveal_strlit("");
        assert(""@ =~= Seq::<char>::empty());
    }
    let function = tc.get("function");
    let name = match function {
        Some(f) => match f.get_str("name") {
            Some(s) => s,
            None => "",
        },
        None => "",
    };
    let args = match function {
        Some(f) => match f.get_str("arguments") {
            Some(s) => s,
            None => "",
        },
        None => "",
    };
    let id = match tc.get_str("id") {
        Some(s) => s,
        None => "call_0",
    };
    let idx = match tc.get_u64("index") {
        Some(n) => n,
        None => 0,
    };
    let mut f = new_obj();
    put_field(&mut f, "name", jtext(name));
    put_field(&mut f, "arguments", jtext(args));
    let mut call = new_obj();
    put_field(&mut call, "index", jnum(idx));
    put_field(&mut call, "id", jtext(id));
    put_field(&mut call, "type", jtext("function"));
    put_field(&mut call, "function", Json::Object(f));
    let mut calls = new_arr();
    put_item(&mut calls, Json::Object(call));
    let mut delta = new_obj();
    put_field(&mut delta, "tool_calls", Json::Array(calls));
    let ghost call_view = JsonView::Obj(seq![
        ("index"@, num(match ju64(tc.view_of(), "index"@) { Some(n) => n, None => 0 })),
        ("id"@, JsonView::Str(or_text(jstr(tc.view_of(), "id"@), "call_0"@))),
        ("type"@, JsonView::Str("function"@)),
        ("function"@, JsonView::Obj(seq![
            ("name"@, JsonView::Str(tool_name(tc.view_of()))),
            ("arguments"@, JsonView::Str(match jget(tc.view_of(), "function"@) {
                Some(f) => or_text(jstr(f, "arguments"@), Seq::empty()),
                None => Seq::empty(),
            })),
        ])),
    ]);
    proof {
        assert(view_fields(f@) =~= seq![
            ("name"@, JsonView::Str(tool_name(tc.view_of()))),
            ("arguments"@, JsonView::Str(match jget(tc.view_of(), "function"@) {
                Some(f) => or_text(jstr(f, "arguments"@), Seq::empty()),
                None => Seq::empty(),
            })),
        ]);
        assert(JsonView::Obj(view_fields(call@)) == call_view) by {
            assert(view_fields(call@) =~= call_view->Obj_0);
        }
        assert(view_items(calls@) =~= seq![call_view]);
        assert(view_fields(delta@) =~= seq![("tool_calls"@, JsonView::Arr(seq![call_view]))]);
    }
    let choice = delta_choice_of(Json::Object(delta));
    envelope_chunk(env, choice, Ghost(resp))
}

/// OpenAI reply → OpenAI event stream (the complete reply replayed as chunks).
pub fn openai_sse_stream(resp: &Json) -> (s: String)
    requires
        usage_count(resp.view_of(), "prompt_tokens"@) + usage_count(resp.view_of(), "completion_tokens"@) <= u64::MAX,
    ensures
        s@ == openai_sse(resp.view_of()),
{
    proof {
        reveal_strlit("chatcmpl-mock");
        reveal_strlit("default");
        reveal_strlit("tool_calls");
        reveal_strlit("length");
        reveal_strlit("");
        assert(""@ =~= Seq::<char>::empty());
    }
    let ghost rv = resp.view_of();
    let env = Envelope {
        id: match resp.get_str("id") {
            Some(s) => s.to_string(),
            None => "chatcmpl-mock".to_string(),
        },
        created: match resp.get_u64("created") {
            Some(n) => n,
            None => 0,
        },
        model: match resp.get_str("model") {
            Some(s) => s.to_string(),
            None => "default".to_string(),
        },
    };
    let (pt, ct) = extract_openai_usage(resp);
    let mut out = String::new();
    let mut d0 = new_obj();
    put_field(&mut d0, "role", jtext("assistant"));
    put_field(&mut d0, "content", jtext(""));
    assert(view_fields(d0@) =~= seq![("role"@, JsonView::Str("assistant"@)), ("content"@, JsonView::Str(Seq::empty()))]);
    let c0 = envelope_chunk(&env, delta_choice_of(Json::Object(d0)), Ghost(rv));
    push_data(&mut out, &c0);
    let ghost head = out@;
    let ghost middle = match first_choice_of(rv) {
        Some((ch, m)) => (if or_text(jstr(m, "content"@), Seq::empty()).len() > 0 {
            data_line(chunk(rv, delta_choice(JsonView::Obj(seq![("content"@, JsonView::Str(or_text(jstr(m, "content"@), Seq::empty())))]))))
        } else {
            Seq::empty()
        }) + tool_chunk_lines(rv, tool_calls_of(m)),
        None => Seq::empty(),
    };
    let mut finish: &'static str = "stop";
    proof {
        reveal_strlit("stop");
    }
    match first_choice(resp) {
        Some(c) => {
            let ghost (chv, mv) = first_choice_of(rv)->0;
            if crate::text::char_count(c.text.as_str()) > 0 {
                let mut d1 = new_obj();
                put_field(&mut d1, "content", jtext(c.text.as_str()));
                assert(view_fields(d1@) =~= seq![("content"@, JsonView::Str(c.text@))]);
                let c1 = envelope_chunk(&env, delta_choice_of(Json::Object(d1)), Ghost(rv));
                push_data(&mut out, &c1);
            }
            let ghost mid = out@;
            proof {
                lemma_view_items(c.tool_calls@);
            }
            let mut i: usize = 0;
            while i < c.tool_calls.len()
                invariant
                    i <= c.tool_calls.len(),
                    env.id@ == or_text(jstr(rv, "id"@), "chatcmpl-mock"@),
                    env.created == (match ju64(rv, "created"@) { Some(n) => n, None => 0 }),
                    env.model@ == or_text(jstr(rv, "model"@), "default"@),
                    view_items(c.tool_calls@).len() == c.tool_calls@.len(),
                    forall|k: int| 0 <= k < c.tool_calls@.len() ==> #[trigger] view_items(c.tool_calls@)[k] == c.tool_calls@[k].view_of(),
                    out@ == mid + tool_chunk_lines(rv, view_items(c.tool_calls@).take(i as int)),
                decreases c.tool_calls.len() - i,
            {
                proof {
                    assert(view_items(c.tool_calls@).take(i + 1).drop_last() =~= view_items(c.tool_calls@).take(i as int));
                }
                let tcj = tool_chunk_of(&env, &c.tool_calls[i], Ghost(rv));
                push_data(&mut out, &tcj);
                assert(out@ =~= mid + tool_chunk_lines(rv, view_items(c.tool_calls@).take(i + 1)));
                i = i + 1;
            }
            assert(view_items(c.tool_calls@).take(c.tool_calls.len() as int) =~= view_items(c.tool_calls@));
            assert(out@ =~= head + middle);
            match &c.finish_reason {
                Some(f) => {
                    if str_eq(f.as_str(), "tool_calls") {
                        finish = "tool_calls";
                    } else if str_eq(f.as_str(), "length") {
                        finish = "length";
                    }
                },
                None => {},
            }
            assert(finish@ == finish_of(rv));
        },
        None => {
            assert(out@ =~= head + middle);
            assert(finish@ == finish_of(rv));
        },
    }
    let ghost body_end = out@;
    let mut fc = new_obj();
    put_field(&mut fc, "index", jnum(0));
    let empty_delta = new_obj();
    let ghost empty_delta_view = view_fields(empty_delta@);
    put_field(&mut fc, "delta", Json::Object(empty_delta));
    put_field(&mut fc, "finish_reason", jtext(finish));
    let ghost fc_view = JsonView::Obj(seq![
        ("index"@, num(0)),
        ("delta"@, JsonView::Obj(Seq::empty())),
        ("finish_reason"@, JsonView::Str(finish_of(rv))),
    ]);
    assert(empty_delta_view == Seq::<(Seq<char>, JsonView)>::empty());
    assert(view_fields(fc@) =~= fc_view->Obj_0);
    let mut fchoices = new_arr();
    put_item(&mut fchoices, Json::Object(fc));
    assert(view_items(fchoices@) =~= seq![fc_view]);
    let mut usage = new_obj();
    put_field(&mut usage, "prompt_tokens", jnum(pt));
    put_field(&mut usage, "completion_tokens", jnum(ct));
    put_field(&mut usage, "total_tokens", jnum(pt + ct));
    assert(view_fields(usage@) =~= seq![
        ("prompt_tokens"@, num(pt)),
        ("completion_tokens"@, num(ct)),
        ("total_tokens"@, num((pt + ct) as u64)),
    ]);
    let mut last = new_obj();
    put_field(&mut last, "id", jtext(env.id.as_str()));
    put_field(&mut last, "object", jtext("chat.completion.chunk"));
    put_field(&mut last, "created", jnum(env.created));
    put_field(&mut last, "model", jtext(env.model.as_str()));
    put_field(&mut last, "choices", Json::Array(fchoices));
    put_field(&mut last, "usage", Json::Object(usage));
    let ghost last_view = JsonView::Obj(seq![
        ("id"@, JsonView::Str(or_text(jstr(rv, "id"@), "chatcmpl-mock"@))),
        ("object"@, JsonView::Str("chat.completion.chunk"@)),
        ("created"@, num(match ju64(rv, "created"@) { Some(n) => n, None => 0 })),
        ("model"@, JsonView::Str(or_text(jstr(rv, "model"@), "default"@))),
        ("choices"@, JsonView::Arr(seq![fc_view])),
        ("usage"@, JsonView::Obj(seq![
            ("prompt_tokens"@, num(pt)),
            ("completion_tokens"@, num(ct)),
            ("total_tokens"@, num((pt + ct) as u64)),
        ])),
    ]);
    assert(view_fields(last@) =~= last_view->Obj_0);
    push_data(&mut out, &Json::Object(last));
    push_str(&mut out, "data: [DONE]\n\n");
    proof {
        assert(out@ =~= head + middle + data_line(last_view) + "data: [DONE]\n\n"@);
        assert(out@ =~= openai_sse(rv));
    }
    out
}

/// The reply's first choice (the first item of `choices`, carrying a
/// `message`) reports finish reason `r`.
pub open spec fn first_finish_is(resp: JsonView, r: Seq<char>) -> bool {
    match jarr(resp, "choices"@) {
        Some(a) => a.len() > 0 && jget(a[0], "message"@) is Some && jstr(a[0], "finish_reason"@) == Some(r),
        None => false,
    }
}

/// The `message_delta` event payload closing an Anthropic stream.
pub open spec fn message_delta_with(stop: Seq<char>, output_tokens: u64) -> JsonView {
    JsonView::Obj(seq![
        ("type"@, JsonView::Str("message_delta"@)),
        ("delta"@, JsonView::Obj(seq![
            ("stop_reason"@, JsonView::Str(stop)),
            ("stop_sequence"@, JsonView::Null),
        ])),
        ("usage"@, JsonView::Obj(seq![("output_tokens"@, num(output_tokens))])),
    ])
}

/// The closing chunk of a replayed OpenAI stream, with finish reason `finish`.
pub open spec fn closing_chunk_with(resp: JsonView, finish: Seq<char>) -> JsonView {
    let pt = usage_count(resp, "prompt_tokens"@);
    let ct = usage_count(resp, "completion_tokens"@);
    JsonView::Obj(seq![
        ("id"@, JsonView::Str(or_text(jstr(resp, "id"@), "chatcmpl-mock"@))),
        ("object"@, JsonView::Str("chat.completion.chunk"@)),
        ("created"@, num(match ju64(resp, "created"@) { Some(n) => n, None => 0 })),
        ("model"@, JsonView::Str(or_text(jstr(resp, "model"@), "default"@))),
        ("choices"@, JsonView::Arr(seq![JsonView::Obj(seq![
            ("index"@, num(0)),
            ("delta"@, JsonView::Obj(Seq::empty())),
            ("finish_reason"@, JsonView::Str(finish)),
        ])])),
        ("usage"@, JsonView::Obj(seq![
            ("prompt_tokens"@, num(pt)),
            ("completion_tokens"@, num(ct)),
            ("total_tokens"@, num((pt + ct) as u64)),
        ])),
    ])
}

/// How the three finish-reason cases read in the stop reason.
proof fn lemma_stop_reason_cases(resp: JsonView)
    ensures
        first_finish_is(resp, "length"@) ==> stop_reason_of(resp) == "max_tokens"@ && finish_of(resp) == "length"@,
        first_finish_is(resp, "tool_calls"@) ==> stop_reason_of(resp) == "tool_use"@ && finish_of(resp) == "tool_calls"@,
        !first_finish_is(resp, "length"@) && !first_finish_is(resp, "tool_calls"@) ==> stop_reason_of(resp) == "end_turn"@
            && finish_of(resp) == "stop"@,
{
    reveal_strlit("length");
    reveal_strlit("tool_calls");
    assert("length"@.len() == 6 && "tool_calls"@.len() == 10);
    assert("length"@ != "tool_calls"@);
}

/// The Anthropic reply reports why the answer ended: a reply cut by the
/// token limit (`length`) stops with `max_tokens`, one that calls tools
/// (`tool_calls`) with `tool_use`, any other (or none) with `end_turn`.
pub proof fn law_reply_stop_reason(resp: JsonView)
    ensures
        first_finish_is(resp, "length"@) ==> jget(anthropic_reply(resp), "stop_reason"@) == Some(JsonView::Str("max_tokens"@)),
        first_finish_is(resp, "tool_calls"@) ==> jget(anthropic_reply(resp), "stop_reason"@) == Some(JsonView::Str("tool_use"@)),
        !first_finish_is(resp, "length"@) && !first_finish_is(resp, "tool_calls"@) ==> jget(anthropic_reply(resp), "stop_reason"@)
            == Some(JsonView::Str("end_turn"@)),
{
    lemma_stop_reason_cases(resp);
    reveal_strlit("id");
    reveal_strlit("type");
    reveal_strlit("role");
    reveal_strlit("model");
    reveal_strlit("content");
    reveal_strlit("stop_reason");
    let fs = anthropic_reply(resp)->Obj_0;
    assert("stop_reason"@.len() == 11 && "id"@.len() == 2 && "type"@.len() == 4 && "role"@.len() == 4);
    assert("model"@.len() == 5 && "content"@.len() == 7);
    assert(fs[0].0 == "id"@ && fs[1].0 == "type"@ && fs[2].0 == "role"@ && fs[3].0 == "model"@ && fs[4].0 == "content"@);
    assert(fs[5].0 == "stop_reason"@);
    assert(first_at(fs, "stop_reason"@, 5));
    lemma_field_first(fs, "stop_reason"@);
}

/// The replayed Anthropic stream closes with a `message_delta` carrying the
/// same stop reason (`max_tokens` for `length`, `tool_use` for `tool_calls`,
/// `end_turn` otherwise), then `message_stop`.
pub proof fn law_stream_stop_reason(resp: JsonView)
    ensures
        first_finish_is(resp, "length"@) ==> exists|p: Seq<char>| anthropic_sse(resp) == p + sse_event("message_delta"@, message_delta_with("max_tokens"@, usage_count(resp, "completion_tokens"@)))
            + sse_event("message_stop"@, JsonView::Obj(seq![("type"@, JsonView::Str("message_stop"@))])),
        first_finish_is(resp, "tool_calls"@) ==> exists|p: Seq<char>| anthropic_sse(resp) == p + sse_event("message_delta"@, message_delta_with("tool_use"@, usage_count(resp, "completion_tokens"@)))
            + sse_event("message_stop"@, JsonView::Obj(seq![("type"@, JsonView::Str("message_stop"@))])),
        !first_finish_is(resp, "length"@) && !first_finish_is(resp, "tool_calls"@) ==> exists|p: Seq<char>| anthropic_sse(resp) == p
            + sse_event("message_delta"@, message_delta_with("end_turn"@, usage_count(resp, "completion_tokens"@)))
            + sse_event("message_stop"@, JsonView::Obj(seq![("type"@, JsonView::Str("message_stop"@))])),
{
    lemma_stop_reason_cases(resp);
    let head = sse_event("message_start"@, JsonView::Obj(seq![
        ("type"@, JsonView::Str("message_start"@)),
        ("message"@, JsonView::Obj(seq![
            ("id"@, JsonView::Str("msg_mock_0001"@)),
            ("type"@, JsonView::Str("message"@)),
            ("role"@, JsonView::Str("assistant"@)),
            ("model"@, JsonView::Str(or_text(jstr(resp, "model"@), "default"@))),
            ("content"@, JsonView::Arr(Seq::empty())),
            ("usage"@, JsonView::Obj(seq![
                ("input_tokens"@, num(usage_count(resp, "prompt_tokens"@))),
                ("output_tokens"@, num(0)),
            ])),
        ])),
    ])) + blocks_events(anthropic_blocks(resp));
    assert(message_delta_with(stop_reason_of(resp), usage_count(resp, "completion_tokens"@)) =~= JsonView::Obj(seq![
        ("type"@, JsonView::Str("message_delta"@)),
        ("delta"@, JsonView::Obj(seq![
            ("stop_reason"@, JsonView::Str(stop_reason_of(resp))),
            ("stop_sequence"@, JsonView::Null),
        ])),
        ("usage"@, JsonView::Obj(seq![("output_tokens"@, num(usage_count(resp, "completion_tokens"@)))])),
    ]));
    assert(anthropic_sse(resp) == head + sse_event("message_delta"@, message_delta_with(stop_reason_of(resp), usage_count(resp, "completion_tokens"@)))
        + sse_event("message_stop"@, JsonView::Obj(seq![("type"@, JsonView::Str("message_stop"@))])));
}

/// The replayed OpenAI stream's closing chunk (just before `[DONE]`) keeps
/// the reply's finish reason when it is `length` or `tool_calls`, and says
/// `stop` otherwise.
pub proof fn law_openai_stream_finish(resp: JsonView)
    ensures
        first_finish_is(resp, "length"@) ==> exists|p: Seq<char>| openai_sse(resp) == p + data_line(closing_chunk_with(resp, "length"@)) + "data: [DONE]\n\n"@,
        first_finish_is(resp, "tool_calls"@) ==> exists|p: Seq<char>| openai_sse(resp) == p + data_line(closing_chunk_with(resp, "tool_calls"@)) + "data: [DONE]\n\n"@,
        !first_finish_is(resp, "length"@) && !first_finish_is(resp, "tool_calls"@) ==> exists|p: Seq<char>| openai_sse(resp) == p
            + data_line(closing_chunk_with(resp, "stop"@)) + "data: [DONE]\n\n"@,
{
    lemma_stop_reason_cases(resp);
    let head = data_line(chunk(resp, delta_choice(JsonView::Obj(seq![("role"@, JsonView::Str("assistant"@)), ("content"@, JsonView::Str(Seq::empty()))]))))
        + match first_choice_of(resp) {
            Some((c, m)) => (if or_text(jstr(m, "content"@), Seq::empty()).len() > 0 {
                data_line(chunk(resp, delta_choice(JsonView::Obj(seq![("content"@, JsonView::Str(or_text(jstr(m, "content"@), Seq::empty())))]))))
            } else {
                Seq::empty()
            }) + tool_chunk_lines(resp, tool_calls_of(m)),
            None => Seq::empty(),
        };
    assert(openai_sse(resp) == head + data_line(closing_chunk_with(resp, finish_of(resp))) + "data: [DONE]\n\n"@);
}

/// The `tool_use` blocks follow the tool calls one for one.
proof fn lemma_tool_blocks_at(tcs: Seq<JsonView>)
    ensures
        tool_blocks(tcs).len() == tcs.len(),
        forall|k: int| 0 <= k < tcs.len() ==> #[trigger] tool_blocks(tcs)[k] == tool_use_block(tcs[k]),
    decreases tcs.len(),
{
    if tcs.len() > 0 {
        lemma_tool_blocks_at(tcs.drop_last());
        assert forall|k: int| 0 <= k < tcs.len() implies #[trigger] tool_blocks(tcs)[k] == tool_use_block(tcs[k]) by {
            if k < tcs.len() - 1 {
                assert(tcs.drop_last()[k] == tcs[k]);
            }
        }
    }
}

/// The Anthropic reply's content: the reply's text first (when it has
/// any), then one `tool_use` block per tool call, in order, each carrying the
/// call's id (`call_0` when it has none) and function name; a reply with
/// neither gets one empty text block.
pub proof fn law_reply_content(resp: JsonView, a: Seq<JsonView>, m: JsonView)
    requires
        jarr(resp, "choices"@) == Some(a),
        a.len() > 0,
        jget(a[0], "message"@) == Some(m),
    ensures
        jget(anthropic_reply(resp), "content"@) is Some,
        jget(anthropic_reply(resp), "content"@)->0 is Arr,
        ({
            let blocks = jget(anthropic_reply(resp), "content"@)->0->Arr_0;
            let t = match jstr(m, "content"@) { Some(x) => x, None => Seq::empty() };
            let tcs = match jarr(m, "tool_calls"@) { Some(x) => x, None => Seq::empty() };
            let off = if t.len() > 0 { 1int } else { 0int };
            &&& t.len() > 0 ==> blocks[0] == JsonView::Obj(seq![("type"@, JsonView::Str("text"@)), ("text"@, JsonView::Str(t))])
            &&& t.len() == 0 && tcs.len() == 0 ==> blocks == seq![JsonView::Obj(seq![("type"@, JsonView::Str("text"@)), ("text"@, JsonView::Str(Seq::empty()))])]
            &&& (t.len() > 0 || tcs.len() > 0) ==> blocks.len() == off + tcs.len()
            &&& forall|k: int| 0 <= k < tcs.len() ==> {
                let b = #[trigger] blocks[off + k];
                &&& jstr(b, "type"@) == Some("tool_use"@)
                &&& jstr(b, "id"@) == Some(match jstr(tcs[k], "id"@) { Some(x) => x, None => "call_0"@ })
                &&& jstr(b, "name"@) == Some(match jget(tcs[k], "function"@) {
                    Some(f) => match jstr(f, "name"@) { Some(x) => x, None => Seq::empty() },
                    None => Seq::empty(),
                })
            }
        }),
{
    reveal_strlit("id");
    reveal_strlit("type");
    reveal_strlit("role");
    reveal_strlit("model");
    reveal_strlit("content");
    reveal_strlit("name");
    let fs = anthropic_reply(resp)->Obj_0;
    assert("id"@.len() == 2 && "type"@.len() == 4 && "role"@.len() == 4 && "model"@.len() == 5 && "content"@.len() == 7);
    assert(first_at(fs, "content"@, 4));
    lemma_field_first(fs, "content"@);
    let tcs = tool_calls_of(m);
    lemma_tool_blocks_at(tcs);
    let t = or_text(jstr(m, "content"@), Seq::empty());
    let off = if t.len() > 0 { 1int } else { 0int };
    let raw = text_block_if(t) + tool_blocks(tcs);
    assert(first_choice_of(resp) == Some((a[0], m)));
    assert forall|k: int| 0 <= k < tcs.len() implies {
        let b = #[trigger] anthropic_blocks(resp)[off + k];
        &&& jstr(b, "type"@) == Some("tool_use"@)
        &&& jstr(b, "id"@) == Some(match jstr(tcs[k], "id"@) { Some(x) => x, None => "call_0"@ })
        &&& jstr(b, "name"@) == Some(match jget(tcs[k], "function"@) {
            Some(f) => match jstr(f, "name"@) { Some(x) => x, None => Seq::empty() },
            None => Seq::empty(),
        })
    } by {
        assert(raw[off + k] == tool_blocks(tcs)[k]);
        let bo = tool_use_block(tcs[k])->Obj_0;
        assert(first_at(bo, "type"@, 0));
        assert(first_at(bo, "id"@, 1));
        assert("name"@.len() == 4 && "name"@[0] == 'n' && "type"@[0] == 't');
        assert(first_at(bo, "name"@, 2));
        lemma_field_first(bo, "type"@);
        lemma_field_first(bo, "id"@);
        lemma_field_first(bo, "name"@);
    }
}

} // verus!
