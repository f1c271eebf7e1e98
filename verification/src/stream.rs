//! Assembling an OpenAI-compatible event stream (`data: {json}` lines, then
//! `data: [DONE]`) into one complete `chat.completion` reply.
use vstd::prelude::*;
use crate::error::RuntimeError;
use crate::json::{first_at, jarr, jget, lemma_field_first, jnum, jstr, jtext, json_parse, json_parse_of, ju64, or_text, view_fields, view_items, Json, JsonView};
use crate::protocol::{new_arr, new_obj, num, put_field, put_item};
use crate::text::{char_count, concat, has_prefix, last_chars, push_str, split_by, split_char, starts_with, str_eq, string_views, trim, trim_ws};

verus! {

/// What has been gathered from the stream so far.
pub struct StreamSoFar {
    pub id: Option<Seq<char>>,
    pub model: Option<Seq<char>>,
    pub created: Option<u64>,
    pub content: Seq<char>,
    pub reasoning: Seq<char>,
    /// The first non-empty finish reason met.
    pub finish: Option<Seq<char>>,
    pub usage: Option<JsonView>,
    /// `[DONE]` was seen: later lines are not read.
    pub done: bool,
}

/// Nothing gathered yet; no finish reason named (the reply says `stop`
/// until a chunk names one).
pub open spec fn stream_start() -> StreamSoFar {
    StreamSoFar {
        id: None,
        model: None,
        created: None,
        content: Seq::empty(),
        reasoning: Seq::empty(),
        finish: None,
        usage: None,
        done: false,
    }
}

/// The first choice of a chunk.
pub open spec fn chunk_choice(chunk: JsonView) -> Option<JsonView> {
    match jarr(chunk, "choices"@) {
        Some(a) => if a.len() > 0 {
            Some(a[0])
        } else {
            None
        },
        None => None,
    }
}

/// A string field of the first choice's delta, or empty.
pub open spec fn delta_text(chunk: JsonView, key: Seq<char>) -> Seq<char> {
    match chunk_choice(chunk) {
        Some(c) => match jget(c, "delta"@) {
            Some(d) => or_text(jstr(d, key), Seq::empty()),
            None => Seq::empty(),
        },
        None => Seq::empty(),
    }
}

/// One chunk taken in: the first id, model and creation time are kept, the
/// delta's content and reasoning are appended, the first non-empty finish
/// reason is kept (later ones do not replace it),
/// replaces the one so far, and a non-null usage replaces the one so far.
pub open spec fn absorb(st: StreamSoFar, chunk: JsonView) -> StreamSoFar {
    let fr = match chunk_choice(chunk) {
        Some(c) => jstr(c, "finish_reason"@),
        None => None,
    };
    StreamSoFar {
        id: if st.id is Some { st.id } else { jstr(chunk, "id"@) },
        model: if st.model is Some { st.model } else { jstr(chunk, "model"@) },
        created: if st.created is Some { st.created } else { ju64(chunk, "created"@) },
        content: st.content + delta_text(chunk, "content"@),
        reasoning: st.reasoning + delta_text(chunk, "reasoning_content"@),
        finish: match fr {
            Some(f) => if f.len() > 0 && st.finish is None { Some(f) } else { st.finish },
            None => st.finish,
        },
        usage: match jget(chunk, "usage"@) {
            Some(JsonView::Null) => st.usage,
            Some(u) => Some(u),
            None => st.usage,
        },
        done: st.done,
    }
}

/// One line read (`None`: a `data:` line that is not JSON was met). A line is
/// read trimmed; lines other than `data:` lines are skipped; `data: [DONE]`
/// ends the stream.
pub open spec fn stream_step(st: Option<StreamSoFar>, line: Seq<char>) -> Option<StreamSoFar> {
    match st {
        None => None,
        Some(s) => if s.done {
            st
        } else {
            let t = trim_ws(line);
            if !has_prefix(t, "data:"@) {
                st
            } else {
                let p = trim_ws(t.subrange(5, t.len() as int));
                if p == "[DONE]"@ {
                    Some(StreamSoFar {
                        id: s.id,
                        model: s.model,
                        created: s.created,
                        content: s.content,
                        reasoning: s.reasoning,
                        finish: s.finish,
                        usage: s.usage,
                        done: true,
                    })
                } else {
                    match json_parse_of(p) {
                        Some(c) => Some(absorb(s, c)),
                        None => None,
                    }
                }
            }
        },
    }
}

/// The lines read in order.
pub open spec fn stream_fold(lines: Seq<Seq<char>>) -> Option<StreamSoFar>
    decreases lines.len(),
{
    if lines.len() == 0 {
        Some(stream_start())
    } else {
        stream_step(stream_fold(lines.drop_last()), lines.last())
    }
}

/// The complete reply made of what was gathered.
pub open spec fn assembled(st: StreamSoFar) -> JsonView {
    let message = JsonView::Obj(seq![("role"@, JsonView::Str("assistant"@)), ("content"@, JsonView::Str(st.content))]
        + if st.reasoning.len() > 0 {
        seq![("reasoning_content"@, JsonView::Str(st.reasoning))]
    } else {
        Seq::empty()
    });
    let base = seq![
        ("id"@, JsonView::Str(or_text(st.id, "chatcmpl-aipg-codebuddy"@))),
        ("object"@, JsonView::Str("chat.completion"@)),
        ("created"@, num(match st.created {
            Some(n) => n,
            None => 0,
        })),
        ("model"@, JsonView::Str(or_text(st.model, Seq::empty()))),
        ("choices"@, JsonView::Arr(seq![JsonView::Obj(seq![
            ("index"@, num(0)),
            ("message"@, message),
            ("finish_reason"@, JsonView::Str(or_text(st.finish, "stop"@))),
        ])])),
    ];
    JsonView::Obj(match st.usage {
        Some(u) => base.push(("usage"@, u)),
        None => base,
    })
}

struct Gathered {
    id: Option<String>,
    model: Option<String>,
    created: Option<u64>,
    content: String,
    reasoning: String,
    finish: Option<String>,
    usage: Option<Json>,
    done: bool,
}

impl Gathered {
    spec fn so_far(&self) -> StreamSoFar {
        StreamSoFar {
            id: match self.id {
                Some(s) => Some(s@),
                None => None,
            },
            model: match self.model {
                Some(s) => Some(s@),
                None => None,
            },
            created: self.created,
            content: self.content@,
            reasoning: self.reasoning@,
            finish: match self.finish {
                Some(s) => Some(s@),
                None => None,
            },
            usage: match self.usage {
                Some(u) => Some(u.view_of()),
                None => None,
            },
            done: self.done,
        }
    }
}

fn absorb_chunk(g: &mut Gathered, chunk: &Json)
    ensures
        final(g).so_far() == absorb(old(g).so_far(), chunk.view_of()),
{
    if g.id.is_none() {
        g.id = match chunk.get_str("id") {
            Some(s) => Some(s.to_string()),
            None => None,
        };
    }
    if g.model.is_none() {
        g.model = match chunk.get_str("model") {
            Some(s) => Some(s.to_string()),
            None => None,
        };
    }
    if g.created.is_none() {
        g.created = chunk.get_u64("created");
    }
    let ghost cv = chunk.view_of();
    let choice: Option<&Json> = match chunk.get_array("choices") {
        Some(a) => if a.len() > 0 {
            proof {
                crate::json::lemma_view_items(a@);
            }
            Some(&a[0])
        } else {
            None
        },
        None => None,
    };
    assert(match choice {
        Some(c) => chunk_choice(cv) == Some(c.view_of()),
        None => chunk_choice(cv) is None,
    });
    match choice {
        Some(c) => {
            match c.get("delta") {
                Some(d) => {
                    match d.get_str("content") {
                        Some(t) => push_str(&mut g.content, t),
                        None => {},
                    }
                    match d.get_str("reasoning_content") {
                        Some(t) => push_str(&mut g.reasoning, t),
                        None => {},
                    }
                },
                None => {},
            }
            match c.get_str("finish_reason") {
                Some(f) => {
                    if char_count(f) > 0 && g.finish.is_none() {
                        g.finish = Some(f.to_string());
                    }
                },
                None => {},
            }
        },
        None => {},
    }
    match chunk.get("usage") {
        Some(Json::Null) => {},
        Some(u) => {
            g.usage = Some(u.duplicate());
        },
        None => {},
    }
    proof {
        assert(g.content@ =~= old(g).content@ + delta_text(cv, "content"@));
        assert(g.reasoning@ =~= old(g).reasoning@ + delta_text(cv, "reasoning_content"@));
    }
}

/// Reads one line; on a `data:` line that is not JSON, the parser's error
/// text.
fn read_line(g: &mut Gathered, line: &str) -> (r: Result<(), String>)
    ensures
        r is Ok ==> stream_step(Some(old(g).so_far()), line@) == Some(final(g).so_far()),
        r is Err ==> stream_step(Some(old(g).so_far()), line@) is None,
{
    if g.done {
        return Ok(());
    }
    let t = trim(line);
    if !starts_with(t.as_str(), "data:") {
        return Ok(());
    }
    proof {
        reveal_strlit("data:");
    }
    let rest = last_chars(t.as_str(), char_count(t.as_str()) - 5);
    assert(rest@ =~= t@.subrange(5, t@.len() as int));
    let p = trim(rest.as_str());
    if str_eq(p.as_str(), "[DONE]") {
        g.done = true;
        return Ok(());
    }
    match json_parse(p.as_str()) {
        Ok(chunk) => {
            absorb_chunk(g, &chunk);
            Ok(())
        },
        Err(e) => Err(e),
    }
}

fn assembled_of(g: Gathered) -> (j: Json)
    ensures
        j.view_of() == assembled(g.so_far()),
{
    proof {
        reveal_strlit("");
        assert(""@ =~= Seq::<char>::empty());
    }
    let ghost st = g.so_far();
    let mut message = new_obj();
    put_field(&mut message, "role", jtext("assistant"));
    put_field(&mut message, "content", jtext(g.content.as_str()));
    if char_count(g.reasoning.as_str()) > 0 {
        put_field(&mut message, "reasoning_content", jtext(g.reasoning.as_str()));
    }
    let ghost mv = JsonView::Obj(seq![("role"@, JsonView::Str("assistant"@)), ("content"@, JsonView::Str(st.content))]
        + if st.reasoning.len() > 0 {
        seq![("reasoning_content"@, JsonView::Str(st.reasoning))]
    } else {
        Seq::empty()
    });
    assert(view_fields(message@) =~= mv->Obj_0);
    let mut choice = new_obj();
    put_field(&mut choice, "index", jnum(0));
    put_field(&mut choice, "message", Json::Object(message));
    let finish = match &g.finish {
        Some(f) => f.clone(),
        None => "stop".to_string(),
    };
    assert(finish@ == or_text(st.finish, "stop"@));
    put_field(&mut choice, "finish_reason", jtext(finish.as_str()));
    let ghost chv = JsonView::Obj(seq![("index"@, num(0)), ("message"@, mv), ("finish_reason"@, JsonView::Str(or_text(st.finish, "stop"@)))]);
    assert(view_fields(choice@) =~= chv->Obj_0);
    let mut choices = new_arr();
    put_item(&mut choices, Json::Object(choice));
    assert(view_items(choices@) =~= seq![chv]);
    let id = match g.id {
        Some(s) => s,
        None => "chatcmpl-aipg-codebuddy".to_string(),
    };
    let model = match g.model {
        Some(s) => s,
        None => String::new(),
    };
    let created = match g.created {
        Some(n) => n,
        None => 0,
    };
    let mut out = new_obj();
    put_field(&mut out, "id", jtext(id.as_str()));
    put_field(&mut out, "object", jtext("chat.completion"));
    put_field(&mut out, "created", jnum(created));
    put_field(&mut out, "model", jtext(model.as_str()));
    put_field(&mut out, "choices", Json::Array(choices));
    let ghost base = seq![
        ("id"@, JsonView::Str(or_text(st.id, "chatcmpl-aipg-codebuddy"@))),
        ("object"@, JsonView::Str("chat.completion"@)),
        ("created"@, num(match st.created {
            Some(n) => n,
            None => 0,
        })),
        ("model"@, JsonView::Str(or_text(st.model, Seq::empty()))),
        ("choices"@, JsonView::Arr(seq![chv])),
    ];
    assert(view_fields(out@) =~= base);
    match g.usage {
        Some(u) => {
            let ghost uv = u.view_of();
            put_field(&mut out, "usage", u);
            assert(view_fields(out@) =~= base.push(("usage"@, uv)));
        },
        None => {},
    }
    Json::Object(out)
}

/// Assembles an upstream event stream into one `chat.completion` reply:
/// `content` and `reasoning_content` deltas are concatenated, the first
/// non-empty finish reason wins (`stop` when none is named), the last
/// non-null usage is kept whole. A `data:` line that is not JSON is an error.
pub fn assemble_sse_response(body: &str) -> (r: Result<Json, RuntimeError>)
    ensures
        r matches Ok(j) ==> stream_fold(split_by(body@, '\n')) matches Some(st) && j.view_of() == assembled(st),
        r is Err ==> stream_fold(split_by(body@, '\n')) is None,
        r matches Err(e) ==> e matches RuntimeError::Other(m) && has_prefix(m@, "upstream sse json: "@),
{
    proof {
        reveal_strlit("stop");
    }
    let mut g = Gathered {
        id: None,
        model: None,
        created: None,
        content: String::new(),
        reasoning: String::new(),
        finish: None,
        usage: None,
        done: false,
    };
    let mut failure: Option<String> = None;
    let lines = split_char(body, '\n');
    let ghost all = split_by(body@, '\n');
    assert(string_views(lines@).take(0) =~= Seq::<Seq<char>>::empty());
    assert(g.so_far() == stream_start());
    let mut i: usize = 0;
    while i < lines.len()
        invariant
            i <= lines.len(),
            string_views(lines@) == all,
            stream_fold(all.take(i as int)) == (match failure {
                Some(_) => None,
                None => Some(g.so_far()),
            }),
        decreases lines.len() - i,
    {
        assert(all.take(i + 1).drop_last() =~= all.take(i as int));
        assert(all.take(i + 1).last() == lines@[i as int]@);
        if failure.is_none() {
            match read_line(&mut g, lines[i].as_str()) {
                Ok(()) => {},
                Err(e) => {
                    failure = Some(e);
                },
            }
        }
        i = i + 1;
    }
    assert(all.take(lines.len() as int) =~= all);
    match failure {
        Some(e) => {
            proof {
                reveal_strlit("upstream sse json: ");
            }
            let m = concat("upstream sse json: ", e.as_str());
            assert(m@.take("upstream sse json: "@.len() as int) =~= "upstream sse json: "@);
            Err(RuntimeError::Other(m))
        },
        None => {
            let ghost gs = g.so_far();
            let j = assembled_of(g);
            assert(j.view_of() == assembled(gs));
            Ok(j)
        },
    }
}

/// The first choice's delta of a chunk holds text `t` under `key`.
pub open spec fn delta_says(chunk: JsonView, key: Seq<char>, t: Seq<char>) -> bool {
    match jarr(chunk, "choices"@) {
        Some(a) => a.len() > 0 && (match jget(a[0], "delta"@) {
            Some(d) => jstr(d, key) == Some(t),
            None => false,
        }),
        None => false,
    }
}

/// The first choice's delta of a chunk holds no text under `key`.
pub open spec fn delta_silent(chunk: JsonView, key: Seq<char>) -> bool {
    forall|t: Seq<char>| !#[trigger] delta_says(chunk, key, t)
}

/// Taking in a chunk appends its content and reasoning deltas to what was
/// gathered, whole and in order; a chunk without such a delta leaves it.
pub proof fn law_chunk_appends(st: StreamSoFar, chunk: JsonView)
    ensures
        forall|t: Seq<char>| #[trigger] delta_says(chunk, "content"@, t) ==> absorb(st, chunk).content == st.content + t,
        forall|t: Seq<char>| #[trigger] delta_says(chunk, "reasoning_content"@, t) ==> absorb(st, chunk).reasoning == st.reasoning + t,
        delta_silent(chunk, "content"@) ==> absorb(st, chunk).content == st.content,
        delta_silent(chunk, "reasoning_content"@) ==> absorb(st, chunk).reasoning == st.reasoning,
{
    match jarr(chunk, "choices"@) {
        Some(a) => {
            if a.len() > 0 {
                match jget(a[0], "delta"@) {
                    Some(d) => {
                        match jstr(d, "content"@) {
                            Some(x) => {
                                assert(delta_says(chunk, "content"@, x));
                            },
                            None => {
                                assert(st.content + Seq::<char>::empty() =~= st.content);
                            },
                        }
                        match jstr(d, "reasoning_content"@) {
                            Some(x) => {
                                assert(delta_says(chunk, "reasoning_content"@, x));
                            },
                            None => {
                                assert(st.reasoning + Seq::<char>::empty() =~= st.reasoning);
                            },
                        }
                    },
                    None => {
                        assert(st.content + Seq::<char>::empty() =~= st.content);
                        assert(st.reasoning + Seq::<char>::empty() =~= st.reasoning);
                    },
                }
            } else {
                assert(st.content + Seq::<char>::empty() =~= st.content);
                assert(st.reasoning + Seq::<char>::empty() =~= st.reasoning);
            }
        },
        None => {
            assert(st.content + Seq::<char>::empty() =~= st.content);
            assert(st.reasoning + Seq::<char>::empty() =~= st.reasoning);
        },
    }
}

/// Reading one more `data:` line holding a JSON chunk (before `[DONE]`)
/// appends that chunk's content delta to the content gathered so far: the
/// assembled content is the in-order concatenation of the deltas.
pub proof fn law_stream_content_concatenates(lines: Seq<Seq<char>>, line: Seq<char>, chunk: JsonView, t: Seq<char>)
    requires
        stream_fold(lines) matches Some(st) && !st.done,
        has_prefix(trim_ws(line), "data:"@),
        trim_ws(trim_ws(line).subrange(5, trim_ws(line).len() as int)) != "[DONE]"@,
        json_parse_of(trim_ws(trim_ws(line).subrange(5, trim_ws(line).len() as int))) == Some(chunk),
        delta_says(chunk, "content"@, t),
    ensures
        stream_fold(lines.push(line)) matches Some(after) && after.content == stream_fold(lines)->0.content + t && !after.done,
{
    let st = stream_fold(lines)->0;
    law_chunk_appends(st, chunk);
    assert(lines.push(line).drop_last() =~= lines);
}

/// The first choice of a chunk names finish reason `f`.
pub open spec fn finish_says(chunk: JsonView, f: Seq<char>) -> bool {
    match jarr(chunk, "choices"@) {
        Some(a) => a.len() > 0 && jstr(a[0], "finish_reason"@) == Some(f),
        None => false,
    }
}

/// The first non-empty finish reason is the one kept: once one is named,
/// later chunks do not change it; before that, a chunk naming a non-empty
/// one sets it, and an empty or absent one leaves it unnamed.
pub proof fn law_first_finish_wins(st: StreamSoFar, chunk: JsonView)
    ensures
        st.finish is Some ==> absorb(st, chunk).finish == st.finish,
        st.finish is None ==> forall|f: Seq<char>| #[trigger] finish_says(chunk, f) && f.len() > 0 ==> absorb(st, chunk).finish == Some(f),
        st.finish is None && (forall|f: Seq<char>| #[trigger] finish_says(chunk, f) ==> f.len() == 0) ==> absorb(st, chunk).finish is None,
{
    match jarr(chunk, "choices"@) {
        Some(a) => {
            if a.len() > 0 {
                match jstr(a[0], "finish_reason"@) {
                    Some(f) => {
                        assert(finish_says(chunk, f));
                    },
                    None => {},
                }
            }
        },
        None => {},
    }
}

/// The finish reason a reply's first choice reports.
pub open spec fn reply_finish(reply: JsonView) -> Option<Seq<char>> {
    match jarr(reply, "choices"@) {
        Some(a) => if a.len() > 0 { jstr(a[0], "finish_reason"@) } else { None },
        None => None,
    }
}

/// The assembled reply says `stop` until a finish reason is named, then the
/// first one named.
pub proof fn law_assembled_finish(st: StreamSoFar)
    ensures
        st.finish is None ==> reply_finish(assembled(st)) == Some("stop"@),
        st.finish matches Some(f) ==> reply_finish(assembled(st)) == Some(f),
{
    reveal_strlit("id");
    reveal_strlit("object");
    reveal_strlit("created");
    reveal_strlit("model");
    reveal_strlit("choices");
    reveal_strlit("index");
    reveal_strlit("message");
    reveal_strlit("finish_reason");
    let fs = assembled(st)->Obj_0;
    assert("id"@.len() == 2 && "object"@.len() == 6 && "created"@.len() == 7 && "model"@.len() == 5 && "choices"@.len() == 7);
    assert("created"@[1] == 'r' && "choices"@[1] == 'h');
    assert(fs[4].0 == "choices"@);
    assert(first_at(fs, "choices"@, 4));
    lemma_field_first(fs, "choices"@);
    let c = fs[4].1->Arr_0[0]->Obj_0;
    assert("index"@.len() == 5 && "message"@.len() == 7 && "finish_reason"@.len() == 13);
    assert(first_at(c, "finish_reason"@, 2));
    lemma_field_first(c, "finish_reason"@);
}

/// The message text a reply's first choice carries under `key`.
pub open spec fn reply_message_text(reply: JsonView, key: Seq<char>) -> Option<Seq<char>> {
    match jarr(reply, "choices"@) {
        Some(a) => if a.len() > 0 {
            match jget(a[0], "message"@) {
                Some(m) => jstr(m, key),
                None => None,
            }
        } else {
            None
        },
        None => None,
    }
}

/// The assembled reply's message carries all the content gathered, and the
/// reasoning gathered when there is any.
pub proof fn law_assembled_content(st: StreamSoFar)
    ensures
        reply_message_text(assembled(st), "content"@) == Some(st.content),
        st.reasoning.len() > 0 ==> reply_message_text(assembled(st), "reasoning_content"@) == Some(st.reasoning),
        st.reasoning.len() == 0 ==> reply_message_text(assembled(st), "reasoning_content"@) is None,
{
    reveal_strlit("id");
    reveal_strlit("object");
    reveal_strlit("created");
    reveal_strlit("model");
    reveal_strlit("choices");
    reveal_strlit("index");
    reveal_strlit("message");
    reveal_strlit("role");
    reveal_strlit("content");
    reveal_strlit("reasoning_content");
    let fs = assembled(st)->Obj_0;
    assert("id"@.len() == 2 && "object"@.len() == 6 && "created"@.len() == 7 && "model"@.len() == 5 && "choices"@.len() == 7);
    assert("created"@[1] == 'r' && "choices"@[1] == 'h');
    assert(first_at(fs, "choices"@, 4));
    lemma_field_first(fs, "choices"@);
    let c = fs[4].1->Arr_0[0]->Obj_0;
    assert("index"@.len() == 5 && "message"@.len() == 7);
    assert(first_at(c, "message"@, 1));
    lemma_field_first(c, "message"@);
    let m = c[1].1->Obj_0;
    assert("role"@.len() == 4 && "content"@.len() == 7 && "reasoning_content"@.len() == 17);
    assert(first_at(m, "content"@, 1));
    lemma_field_first(m, "content"@);
    if st.reasoning.len() > 0 {
        assert(first_at(m, "reasoning_content"@, 2));
    }
    lemma_field_first(m, "reasoning_content"@);
}

/// The id, model and creation time of the first chunk that has them are
/// kept; the last non-null usage is kept whole.
pub proof fn law_chunk_keeps_first_and_last(st: StreamSoFar, chunk: JsonView)
    ensures
        st.id is Some ==> absorb(st, chunk).id == st.id,
        st.id is None ==> absorb(st, chunk).id == jstr(chunk, "id"@),
        st.model is Some ==> absorb(st, chunk).model == st.model,
        st.model is None ==> absorb(st, chunk).model == jstr(chunk, "model"@),
        st.created is Some ==> absorb(st, chunk).created == st.created,
        forall|u: JsonView| #[trigger] jget(chunk, "usage"@) == Some(u) && !(u is Null) ==> absorb(st, chunk).usage == Some(u),
        (jget(chunk, "usage"@) is None || jget(chunk, "usage"@) == Some(JsonView::Null)) ==> absorb(st, chunk).usage == st.usage,
        absorb(st, chunk).done == st.done,
{
}

} // verus!
