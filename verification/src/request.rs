//! Anthropic Messages request → OpenAI Chat Completions request: system text,
//! tools, and message content blocks (text, `tool_use`, `tool_result`).
use vstd::prelude::*;
use crate::json::{
    collect_texts, first_at, jarr, jget, lemma_field_first, jnum, jstr, jtext, json_text, json_text_of, ju64, lemma_view_items, or_text,
    texts_of, view_fields, view_items, Json, JsonView,
};
use crate::policy::{system_parts, system_texts};
use crate::protocol::{empty_obj, new_arr, new_obj, num, put_field, put_item};
use crate::text::{join_lines, join_lines_of, str_eq, string_views};

verus! {

/// The OpenAI function tool of an Anthropic tool; nothing for a tool without
/// a name.
pub open spec fn openai_tool(tool: JsonView) -> Seq<JsonView> {
    let name = or_text(jstr(tool, "name"@), Seq::empty());
    if name.len() == 0 {
        Seq::empty()
    } else {
        seq![JsonView::Obj(seq![
            ("type"@, JsonView::Str("function"@)),
            ("function"@, JsonView::Obj(seq![
                ("name"@, JsonView::Str(name)),
                ("description"@, JsonView::Str(or_text(jstr(tool, "description"@), Seq::empty()))),
                ("parameters"@, match jget(tool, "input_schema"@) {
                    Some(p) => p,
                    None => empty_obj(),
                }),
            ])),
        ])]
    }
}

/// The OpenAI tools of a list of Anthropic tools.
pub open spec fn openai_tools(a: Seq<JsonView>) -> Seq<JsonView>
    decreases a.len(),
{
    if a.len() == 0 {
        Seq::empty()
    } else {
        openai_tools(a.drop_last()) + openai_tool(a.last())
    }
}

/// The type of a content block (`text` when absent).
pub open spec fn block_type(b: JsonView) -> Seq<char> {
    or_text(jstr(b, "type"@), "text"@)
}

/// The OpenAI tool call of a `tool_use` block; its arguments are the input
/// rendered as JSON text.
pub open spec fn tool_call_view(b: JsonView) -> JsonView {
    JsonView::Obj(seq![
        ("id"@, JsonView::Str(or_text(jstr(b, "id"@), "call_0"@))),
        ("type"@, JsonView::Str("function"@)),
        ("function"@, JsonView::Obj(seq![
            ("name"@, JsonView::Str(or_text(jstr(b, "name"@), Seq::empty()))),
            ("arguments"@, JsonView::Str(json_text_of(match jget(b, "input"@) {
                Some(x) => x,
                None => empty_obj(),
            }))),
        ])),
    ])
}

/// The text of a `tool_result` block: a string content, or the `text` of
/// each inner block joined by line breaks.
pub open spec fn tool_result_text(b: JsonView) -> Seq<char> {
    match jget(b, "content"@) {
        Some(JsonView::Str(s)) => s,
        Some(JsonView::Arr(inner)) => join_lines(texts_of(inner)),
        _ => Seq::empty(),
    }
}

/// The `tool` message of a `tool_result` block.
pub open spec fn tool_message(b: JsonView) -> JsonView {
    JsonView::Obj(seq![
        ("role"@, JsonView::Str("tool"@)),
        ("content"@, JsonView::Str(tool_result_text(b))),
        ("tool_call_id"@, JsonView::Str(or_text(jstr(b, "tool_use_id"@), "call_0"@))),
    ])
}

/// The text parts of content blocks (blocks other than tool use and tool
/// result that carry a `text`).
pub open spec fn block_texts(bs: Seq<JsonView>) -> Seq<Seq<char>>
    decreases bs.len(),
{
    if bs.len() == 0 {
        Seq::empty()
    } else {
        let b = bs.last();
        block_texts(bs.drop_last()) + if block_type(b) == "tool_use"@ || block_type(b) == "tool_result"@ {
            Seq::empty()
        } else {
            match jstr(b, "text"@) {
                Some(t) => seq![t],
                None => Seq::empty(),
            }
        }
    }
}

/// The tool calls of content blocks.
pub open spec fn block_calls(bs: Seq<JsonView>) -> Seq<JsonView>
    decreases bs.len(),
{
    if bs.len() == 0 {
        Seq::empty()
    } else {
        block_calls(bs.drop_last()) + if block_type(bs.last()) == "tool_use"@ {
            seq![tool_call_view(bs.last())]
        } else {
            Seq::empty()
        }
    }
}

/// The `tool` messages of content blocks.
pub open spec fn block_results(bs: Seq<JsonView>) -> Seq<JsonView>
    decreases bs.len(),
{
    if bs.len() == 0 {
        Seq::empty()
    } else {
        block_results(bs.drop_last()) + if block_type(bs.last()) == "tool_result"@ {
            seq![tool_message(bs.last())]
        } else {
            Seq::empty()
        }
    }
}

/// A message of a role with a text content.
pub open spec fn role_message(role: Seq<char>, text: Seq<char>) -> JsonView {
    JsonView::Obj(seq![("role"@, JsonView::Str(role)), ("content"@, JsonView::Str(text))])
}

/// The OpenAI messages of a message made of content blocks: one message with
/// the joined text and the tool calls (left out when both are empty), then a
/// `tool` message per tool result.
pub open spec fn block_messages(role: Seq<char>, bs: Seq<JsonView>) -> Seq<JsonView> {
    let text = join_lines(block_texts(bs));
    let calls = block_calls(bs);
    (if text.len() > 0 || calls.len() > 0 {
        seq![if calls.len() > 0 {
            JsonView::Obj(seq![
                ("role"@, JsonView::Str(role)),
                ("content"@, JsonView::Str(text)),
                ("tool_calls"@, JsonView::Arr(calls)),
            ])
        } else {
            role_message(role, text)
        }]
    } else {
        Seq::empty()
    }) + block_results(bs)
}

/// The OpenAI messages of one Anthropic message (role `user` when absent).
pub open spec fn message_messages(m: JsonView) -> Seq<JsonView> {
    let role = or_text(jstr(m, "role"@), "user"@);
    match jget(m, "content"@) {
        Some(JsonView::Str(s)) => seq![role_message(role, s)],
        Some(JsonView::Arr(bs)) => block_messages(role, bs),
        _ => seq![role_message(role, Seq::empty())],
    }
}

/// The OpenAI messages of a list of Anthropic messages.
pub open spec fn all_messages(ms: Seq<JsonView>) -> Seq<JsonView>
    decreases ms.len(),
{
    if ms.len() == 0 {
        Seq::empty()
    } else {
        all_messages(ms.drop_last()) + message_messages(ms.last())
    }
}

/// The OpenAI request of an Anthropic request: model (`default`), max tokens
/// (4096), a system message when the system text is not empty, the converted
/// messages, and the tools when there are any.
pub open spec fn openai_request(body: JsonView) -> JsonView {
    let system = join_lines(system_texts(body));
    let msgs = (if system.len() > 0 {
        seq![role_message("system"@, system)]
    } else {
        Seq::empty()
    }) + match jarr(body, "messages"@) {
        Some(ms) => all_messages(ms),
        None => Seq::empty(),
    };
    let tools = match jarr(body, "tools"@) {
        Some(a) => openai_tools(a),
        None => Seq::empty(),
    };
    let base = seq![
        ("model"@, JsonView::Str(or_text(jstr(body, "model"@), "default"@))),
        ("max_tokens"@, num(match ju64(body, "max_tokens"@) {
            Some(n) => n,
            None => 4096,
        })),
        ("messages"@, JsonView::Arr(msgs)),
    ];
    JsonView::Obj(if tools.len() > 0 {
        base.push(("tools"@, JsonView::Arr(tools)))
    } else {
        base
    })
}

fn empty_object() -> (j: Json)
    ensures
        j.view_of() == empty_obj(),
{
    let o = new_obj();
    Json::Object(o)
}

fn openai_tool_of(tool: &Json) -> (r: Option<Json>)
    ensures
        match r {
            Some(j) => openai_tool(tool.view_of()) == seq![j.view_of()],
            None => openai_tool(tool.view_of()) == Seq::<JsonView>::empty(),
        },
{
    proof {
        reveal_strlit("");
        assert(""@ =~= Seq::<char>::empty());
    }
    let name = match tool.get_str("name") {
        Some(n) => n,
        None => "",
    };
    if crate::text::char_count(name) == 0 {
        return None;
    }
    let description = match tool.get_str("description") {
        Some(d) => d,
        None => "",
    };
    let parameters = match tool.get("input_schema") {
        Some(p) => p.duplicate(),
        None => empty_object(),
    };
    let ghost pv = parameters.view_of();
    let mut f = new_obj();
    put_field(&mut f, "name", jtext(name));
    put_field(&mut f, "description", jtext(description));
    put_field(&mut f, "parameters", parameters);
    let ghost fv = seq![
        ("name"@, JsonView::Str(name@)),
        ("description"@, JsonView::Str(description@)),
        ("parameters"@, pv),
    ];
    assert(view_fields(f@) =~= fv);
    let mut o = new_obj();
    put_field(&mut o, "type", jtext("function"));
    put_field(&mut o, "function", Json::Object(f));
    assert(view_fields(o@) =~= seq![("type"@, JsonView::Str("function"@)), ("function"@, JsonView::Obj(fv))]);
    let r = Json::Object(o);
    assert(name@ == or_text(jstr(tool.view_of(), "name"@), Seq::empty()));
    assert(description@ == or_text(jstr(tool.view_of(), "description"@), Seq::empty()));
    assert(pv == match jget(tool.view_of(), "input_schema"@) {
        Some(p) => p,
        None => empty_obj(),
    });
    assert(r.view_of() == JsonView::Obj(seq![("type"@, JsonView::Str("function"@)), ("function"@, JsonView::Obj(fv))]));
    assert(or_text(jstr(tool.view_of(), "name"@), Seq::empty()).len() != 0);
    assert(fv == seq![
                ("name"@, JsonView::Str(or_text(jstr(tool.view_of(), "name"@), Seq::empty()))),
                ("description"@, JsonView::Str(or_text(jstr(tool.view_of(), "description"@), Seq::empty()))),
                ("parameters"@, match jget(tool.view_of(), "input_schema"@) {
                    Some(p) => p,
                    None => empty_obj(),
                }),
            ]);
    assert(openai_tool(tool.view_of()) == seq![JsonView::Obj(seq![("type"@, JsonView::Str("function"@)), ("function"@, JsonView::Obj(fv))])]);
    Some(r)
}

fn openai_tools_of(body: &Json) -> (r: Vec<Json>)
    ensures
        view_items(r@) == match jarr(body.view_of(), "tools"@) {
            Some(a) => openai_tools(a),
            None => Seq::empty(),
        },
{
    let mut r = new_arr();
    match body.get_array("tools") {
        Some(a) => {
            proof {
                lemma_view_items(a@);
            }
            let mut i: usize = 0;
            while i < a.len()
                invariant
                    i <= a.len(),
                    view_items(a@).len() == a@.len(),
                    forall|k: int| 0 <= k < a@.len() ==> #[trigger] view_items(a@)[k] == a@[k].view_of(),
                    view_items(r@) == openai_tools(view_items(a@).take(i as int)),
                decreases a.len() - i,
            {
                assert(view_items(a@).take(i + 1).drop_last() =~= view_items(a@).take(i as int));
                let ghost before = view_items(r@);
                match openai_tool_of(&a[i]) {
                    Some(t) => {
                        put_item(&mut r, t);
                    },
                    None => {},
                }
                assert(view_items(r@) =~= openai_tools(view_items(a@).take(i + 1)));
                i = i + 1;
            }
            assert(view_items(a@).take(a.len() as int) =~= view_items(a@));
        },
        None => {},
    }
    r
}

fn tool_call_of(b: &Json) -> (c: Json)
    ensures
        c.view_of() == tool_call_view(b.view_of()),
{
    proof {
        reveal_strlit("");
        assert(""@ =~= Seq::<char>::empty());
    }
    let id = match b.get_str("id") {
        Some(s) => s,
        None => "call_0",
    };
    let name = match b.get_str("name") {
        Some(s) => s,
        None => "",
    };
    let args = match b.get("input") {
        Some(x) => json_text(x),
        None => json_text(&empty_object()),
    };
    let mut f = new_obj();
    put_field(&mut f, "name", jtext(name));
    put_field(&mut f, "arguments", jtext(args.as_str()));
    let ghost fv = seq![("name"@, JsonView::Str(name@)), ("arguments"@, JsonView::Str(args@))];
    assert(view_fields(f@) =~= fv);
    let mut o = new_obj();
    put_field(&mut o, "id", jtext(id));
    put_field(&mut o, "type", jtext("function"));
    put_field(&mut o, "function", Json::Object(f));
    assert(view_fields(o@) =~= seq![
        ("id"@, JsonView::Str(id@)),
        ("type"@, JsonView::Str("function"@)),
        ("function"@, JsonView::Obj(fv)),
    ]);
    assert(fv == seq![
        ("name"@, JsonView::Str(or_text(jstr(b.view_of(), "name"@), Seq::empty()))),
        ("arguments"@, JsonView::Str(json_text_of(match jget(b.view_of(), "input"@) {
            Some(x) => x,
            None => empty_obj(),
        }))),
    ]);
    Json::Object(o)
}

fn tool_result_text_of(b: &Json) -> (s: String)
    ensures
        s@ == tool_result_text(b.view_of()),
{
    match b.get("content") {
        Some(Json::Str(s)) => s.clone(),
        Some(Json::Array(inner)) => {
            let parts = collect_texts(inner);
            join_lines_of(&parts)
        },
        _ => String::new(),
    }
}

fn tool_message_of(b: &Json) -> (c: Json)
    ensures
        c.view_of() == tool_message(b.view_of()),
{
    let id = match b.get_str("tool_use_id") {
        Some(s) => s,
        None => "call_0",
    };
    let text = tool_result_text_of(b);
    let mut o = new_obj();
    put_field(&mut o, "role", jtext("tool"));
    put_field(&mut o, "content", jtext(text.as_str()));
    put_field(&mut o, "tool_call_id", jtext(id));
    assert(view_fields(o@) =~= seq![
        ("role"@, JsonView::Str("tool"@)),
        ("content"@, JsonView::Str(tool_result_text(b.view_of()))),
        ("tool_call_id"@, JsonView::Str(or_text(jstr(b.view_of(), "tool_use_id"@), "call_0"@))),
    ]);
    Json::Object(o)
}

fn role_message_of(role: &str, text: &str) -> (c: Json)
    ensures
        c.view_of() == role_message(role@, text@),
{
    let mut o = new_obj();
    put_field(&mut o, "role", jtext(role));
    put_field(&mut o, "content", jtext(text));
    assert(view_fields(o@) =~= seq![("role"@, JsonView::Str(role@)), ("content"@, JsonView::Str(text@))]);
    Json::Object(o)
}

fn block_messages_into(role: &str, blocks: &Vec<Json>, out: &mut Vec<Json>)
    ensures
        view_items(final(out)@) == view_items(old(out)@) + block_messages(role@, view_items(blocks@)),
{
    let ghost bs = view_items(blocks@);
    proof {
        lemma_view_items(blocks@);
    }
    let mut texts: Vec<String> = Vec::new();
    let mut calls = new_arr();
    let mut results = new_arr();
    let mut i: usize = 0;
    while i < blocks.len()
        invariant
            i <= blocks.len(),
            bs == view_items(blocks@),
            bs.len() == blocks@.len(),
            forall|k: int| 0 <= k < blocks@.len() ==> #[trigger] bs[k] == blocks@[k].view_of(),
            string_views(texts@) == block_texts(bs.take(i as int)),
            view_items(calls@) == block_calls(bs.take(i as int)),
            view_items(results@) == block_results(bs.take(i as int)),
        decreases blocks.len() - i,
    {
        assert(bs.take(i + 1).drop_last() =~= bs.take(i as int));
        proof {
            reveal_strlit("tool_use");
            reveal_strlit("tool_result");
        }
        let b = &blocks[i];
        let bt = match b.get_str("type") {
            Some(t) => t,
            None => "text",
        };
        assert(bs.take(i + 1).last() == bs[i as int]);
        assert(block_type(bs[i as int]) == bt@);
        assert("tool_use"@ != "tool_result"@) by {
            assert("tool_use"@.len() != "tool_result"@.len());
        }
        let ghost t_before = string_views(texts@);
        let ghost c_before = view_items(calls@);
        let ghost r_before = view_items(results@);
        if str_eq(bt, "tool_use") {
            put_item(&mut calls, tool_call_of(b));
            assert(view_items(calls@) =~= c_before + seq![tool_call_view(bs[i as int])]);
        } else if str_eq(bt, "tool_result") {
            put_item(&mut results, tool_message_of(b));
            assert(view_items(results@) =~= r_before + seq![tool_message(bs[i as int])]);
        } else {
            match b.get_str("text") {
                Some(t) => {
                    texts.push(t.to_string());
                    assert(string_views(texts@) =~= t_before + seq![t@]);
                },
                None => {},
            }
        }
        assert(string_views(texts@) =~= block_texts(bs.take(i + 1)));
        assert(view_items(calls@) =~= block_calls(bs.take(i + 1)));
        assert(view_items(results@) =~= block_results(bs.take(i + 1)));
        i = i + 1;
    }
    assert(bs.take(blocks.len() as int) =~= bs);
    let text = join_lines_of(&texts);
    let ghost before = view_items(out@);
    if crate::text::char_count(text.as_str()) > 0 || calls.len() > 0 {
        proof {
            lemma_view_items(calls@);
        }
        if calls.len() > 0 {
            let ghost cv = view_items(calls@);
            let mut o = new_obj();
            put_field(&mut o, "role", jtext(role));
            put_field(&mut o, "content", jtext(text.as_str()));
            put_field(&mut o, "tool_calls", Json::Array(calls));
            assert(view_fields(o@) =~= seq![
                ("role"@, JsonView::Str(role@)),
                ("content"@, JsonView::Str(text@)),
                ("tool_calls"@, JsonView::Arr(cv)),
            ]);
            put_item(out, Json::Object(o));
        } else {
            put_item(out, role_message_of(role, text.as_str()));
        }
    }
    let ghost head = view_items(out@);
    assert(head =~= before + (if join_lines(block_texts(bs)).len() > 0 || block_calls(bs).len() > 0 {
        seq![if block_calls(bs).len() > 0 {
            JsonView::Obj(seq![
                ("role"@, JsonView::Str(role@)),
                ("content"@, JsonView::Str(join_lines(block_texts(bs)))),
                ("tool_calls"@, JsonView::Arr(block_calls(bs))),
            ])
        } else {
            role_message(role@, join_lines(block_texts(bs)))
        }]
    } else {
        Seq::empty()
    }));
    proof {
        lemma_view_items(results@);
    }
    let mut j: usize = 0;
    while j < results.len()
        invariant
            j <= results.len(),
            view_items(results@).len() == results@.len(),
            forall|k: int| 0 <= k < results@.len() ==> #[trigger] view_items(results@)[k] == results@[k].view_of(),
            view_items(out@) == head + view_items(results@).take(j as int),
        decreases results.len() - j,
    {
        put_item(out, results[j].duplicate());
        assert(view_items(out@) =~= head + view_items(results@).take(j + 1));
        j = j + 1;
    }
    assert(view_items(results@).take(results.len() as int) =~= view_items(results@));
    assert(view_items(out@) =~= before + block_messages(role@, bs));
}

fn message_into(m: &Json, out: &mut Vec<Json>)
    ensures
        view_items(final(out)@) == view_items(old(out)@) + message_messages(m.view_of()),
{
    proof {
        reveal_strlit("");
        assert(""@ =~= Seq::<char>::empty());
    }
    let role = match m.get_str("role") {
        Some(r) => r,
        None => "user",
    };
    let ghost before = view_items(out@);
    match m.get("content") {
        Some(Json::Str(s)) => {
            put_item(out, role_message_of(role, s.as_str()));
            assert(view_items(out@) =~= before + message_messages(m.view_of()));
        },
        Some(Json::Array(bs)) => {
            block_messages_into(role, bs, out);
        },
        _ => {
            put_item(out, role_message_of(role, ""));
            assert(view_items(out@) =~= before + message_messages(m.view_of()));
        },
    }
}

/// Anthropic request → OpenAI request: the system text (a string or text
/// blocks, joined by line breaks) becomes a leading `system` message, tools
/// become OpenAI function tools, text blocks are joined into the content,
/// `tool_use` blocks become `tool_calls` and `tool_result` blocks become
/// `tool` messages.
pub fn anthropic_to_openai(body: &Json) -> (r: Json)
    ensures
        r.view_of() == openai_request(body.view_of()),
{
    proof {
        reveal_strlit("default");
    }
    let ghost bv = body.view_of();
    let model = match body.get_str("model") {
        Some(m) => m,
        None => "default",
    };
    let max_tokens = match body.get_u64("max_tokens") {
        Some(n) => n,
        None => 4096,
    };
    let system = join_lines_of(&system_parts(body));
    let tools = openai_tools_of(body);
    let mut messages = new_arr();
    if crate::text::char_count(system.as_str()) > 0 {
        put_item(&mut messages, role_message_of("system", system.as_str()));
    }
    let ghost head = view_items(messages@);
    assert(head =~= if system@.len() > 0 {
        seq![role_message("system"@, system@)]
    } else {
        Seq::<JsonView>::empty()
    });
    match body.get_array("messages") {
        Some(ms) => {
            proof {
                lemma_view_items(ms@);
            }
            let mut i: usize = 0;
            while i < ms.len()
                invariant
                    i <= ms.len(),
                    view_items(ms@).len() == ms@.len(),
                    forall|k: int| 0 <= k < ms@.len() ==> #[trigger] view_items(ms@)[k] == ms@[k].view_of(),
                    view_items(messages@) == head + all_messages(view_items(ms@).take(i as int)),
                decreases ms.len() - i,
            {
                assert(view_items(ms@).take(i + 1).drop_last() =~= view_items(ms@).take(i as int));
                message_into(&ms[i], &mut messages);
                assert(view_items(messages@) =~= head + all_messages(view_items(ms@).take(i + 1)));
                i = i + 1;
            }
            assert(view_items(ms@).take(ms.len() as int) =~= view_items(ms@));
        },
        None => {
            assert(view_items(messages@) =~= head + Seq::<JsonView>::empty());
        },
    }
    let ghost mv = view_items(messages@);
    let ghost tv = view_items(tools@);
    let mut o = new_obj();
    put_field(&mut o, "model", jtext(model));
    put_field(&mut o, "max_tokens", jnum(max_tokens));
    put_field(&mut o, "messages", Json::Array(messages));
    let ghost base = seq![
        ("model"@, JsonView::Str(model@)),
        ("max_tokens"@, num(max_tokens)),
        ("messages"@, JsonView::Arr(mv)),
    ];
    assert(view_fields(o@) =~= base);
    proof {
        lemma_view_items(tools@);
    }
    assert(system@ == join_lines(system_texts(bv)));
    assert(mv == (if join_lines(system_texts(bv)).len() > 0 {
        seq![role_message("system"@, join_lines(system_texts(bv)))]
    } else {
        Seq::empty()
    }) + match jarr(bv, "messages"@) {
        Some(ms) => all_messages(ms),
        None => Seq::empty(),
    });
    assert(tv == match jarr(bv, "tools"@) {
        Some(a) => openai_tools(a),
        None => Seq::empty(),
    });
    if tools.len() > 0 {
        put_field(&mut o, "tools", Json::Array(tools));
        assert(view_fields(o@) =~= base.push(("tools"@, JsonView::Arr(tv))));
        assert(view_fields(o@) == openai_request(bv)->Obj_0);
    } else {
        assert(view_fields(o@) == openai_request(bv)->Obj_0);
    }
    Json::Object(o)
}

/// `t` is an OpenAI function tool named `name` described by `desc`.
pub open spec fn describes_tool(t: JsonView, name: Seq<char>, desc: Seq<char>) -> bool {
    match jget(t, "function"@) {
        Some(f) => jstr(f, "name"@) == Some(name) && jstr(f, "description"@) == Some(desc),
        None => false,
    }
}

/// Each named tool's converted form sits somewhere in the converted list.
proof fn lemma_openai_tools_has(a: Seq<JsonView>, i: int)
    requires
        0 <= i < a.len(),
        openai_tool(a[i]).len() > 0,
    ensures
        exists|j: int| 0 <= j < openai_tools(a).len() && openai_tools(a)[j] == openai_tool(a[i])[0],
    decreases a.len(),
{
    let rest = openai_tools(a.drop_last());
    if i == a.len() - 1 {
        let j = rest.len() as int;
        assert(openai_tools(a)[j] == openai_tool(a[i])[0]);
    } else {
        assert(a.drop_last()[i] == a[i]);
        lemma_openai_tools_has(a.drop_last(), i);
        let j = choose|j: int| 0 <= j < rest.len() && rest[j] == openai_tool(a[i])[0];
        assert(openai_tools(a)[j] == rest[j]);
    }
}

/// Every named Anthropic tool reaches the OpenAI request as a function tool
/// of the same name and the same description (empty only when the tool has
/// no description text).
pub proof fn law_tools_keep_descriptions(body: JsonView, a: Seq<JsonView>, i: int, name: Seq<char>)
    requires
        jarr(body, "tools"@) == Some(a),
        0 <= i < a.len(),
        jstr(a[i], "name"@) == Some(name),
        name.len() > 0,
    ensures
        jarr(openai_request(body), "tools"@) is Some,
        exists|j: int|
            0 <= j < jarr(openai_request(body), "tools"@)->0.len() && describes_tool(
                #[trigger] jarr(openai_request(body), "tools"@)->0[j],
                name,
                match jstr(a[i], "description"@) {
                    Some(d) => d,
                    None => Seq::empty(),
                },
            ),
{
    reveal_strlit("type");
    reveal_strlit("function");
    reveal_strlit("name");
    reveal_strlit("description");
    reveal_strlit("parameters");
    reveal_strlit("model");
    reveal_strlit("max_tokens");
    reveal_strlit("messages");
    reveal_strlit("tools");
    let d = match jstr(a[i], "description"@) {
        Some(x) => x,
        None => Seq::empty(),
    };
    let t = openai_tool(a[i]);
    assert(t.len() == 1);
    let o = t[0]->Obj_0;
    assert("type"@.len() == 4 && "function"@.len() == 8);
    assert(first_at(o, "function"@, 1));
    lemma_field_first(o, "function"@);
    let f = o[1].1->Obj_0;
    assert("name"@.len() == 4 && "description"@.len() == 11);
    assert(first_at(f, "name"@, 0));
    assert(first_at(f, "description"@, 1));
    lemma_field_first(f, "name"@);
    lemma_field_first(f, "description"@);
    assert(describes_tool(t[0], name, d));
    lemma_openai_tools_has(a, i);
    let ts = openai_tools(a);
    let j = choose|j: int| 0 <= j < ts.len() && ts[j] == t[0];
    let fs = openai_request(body)->Obj_0;
    assert("model"@.len() == 5 && "max_tokens"@.len() == 10 && "messages"@.len() == 8 && "tools"@.len() == 5);
    assert("model"@[0] == 'm' && "tools"@[0] == 't');
    assert(fs[3] == ("tools"@, JsonView::Arr(ts)));
    assert(first_at(fs, "tools"@, 3));
    lemma_field_first(fs, "tools"@);
    assert(jarr(openai_request(body), "tools"@) == Some(ts));
    assert(describes_tool(jarr(openai_request(body), "tools"@)->0[j], name, d));
}

/// The OpenAI request keeps the model (`default` when absent) and the
/// token limit (4096 when absent), and a plain-text system prompt becomes its
/// first message, from the `system` role.
pub proof fn law_request_basics(body: JsonView)
    ensures
        jstr(openai_request(body), "model"@) == Some(match jstr(body, "model"@) {
            Some(x) => x,
            None => "default"@,
        }),
        ju64(openai_request(body), "max_tokens"@) == Some(match ju64(body, "max_tokens"@) {
            Some(n) => n,
            None => 4096u64,
        }),
        forall|s: Seq<char>| #[trigger] jget(body, "system"@) == Some(JsonView::Str(s)) && s.len() > 0 ==> (
            jarr(openai_request(body), "messages"@) matches Some(ms) && ms.len() > 0
                && ms[0] == JsonView::Obj(seq![("role"@, JsonView::Str("system"@)), ("content"@, JsonView::Str(s))])),
{
    reveal_strlit("model");
    reveal_strlit("max_tokens");
    reveal_strlit("messages");
    let fs = openai_request(body)->Obj_0;
    assert("model"@.len() == 5 && "max_tokens"@.len() == 10 && "messages"@.len() == 8);
    assert(first_at(fs, "model"@, 0));
    assert(first_at(fs, "max_tokens"@, 1));
    assert(first_at(fs, "messages"@, 2));
    lemma_field_first(fs, "model"@);
    lemma_field_first(fs, "max_tokens"@);
    lemma_field_first(fs, "messages"@);
    assert forall|s: Seq<char>| #[trigger] jget(body, "system"@) == Some(JsonView::Str(s)) && s.len() > 0 implies (
        jarr(openai_request(body), "messages"@) matches Some(ms) && ms.len() > 0
            && ms[0] == JsonView::Obj(seq![("role"@, JsonView::Str("system"@)), ("content"@, JsonView::Str(s))])) by {
        assert(system_texts(body) == seq![s]);
        assert(join_lines(seq![s]) == s);
    }
}

} // verus!
