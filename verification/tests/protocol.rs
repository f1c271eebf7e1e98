use aipg::admin::{dedup_texts, entry_from_body, parse_models_from_response};
use aipg::json::{Json, JsonNumber};
use aipg::policy::{detect, extract_request_text, PolicyCategory};
use aipg::protocol::{anthropic_sse_stream, extract_openai_usage, first_choice, openai_sse_stream, openai_to_anthropic};
use aipg::request::anthropic_to_openai;
use aipg::stream::assemble_sse_response;
use serde_json::Value;

fn to_json(v: &Value) -> Json {
    match v {
        Value::Null => Json::Null,
        Value::Bool(b) => Json::Bool(*b),
        Value::Number(n) => Json::Number(JsonNumber { text: n.to_string(), unsigned: n.as_u64() }),
        Value::String(s) => Json::Str(s.clone()),
        Value::Array(a) => Json::Array(a.iter().map(to_json).collect()),
        Value::Object(m) => Json::Object(m.iter().map(|(k, x)| (k.clone(), to_json(x))).collect()),
    }
}

fn to_value(j: &Json) -> Value {
    match j {
        Json::Null => Value::Null,
        Json::Bool(b) => Value::Bool(*b),
        Json::Number(n) => serde_json::from_str(&n.text).unwrap(),
        Json::Str(s) => Value::String(s.clone()),
        Json::Array(a) => Value::Array(a.iter().map(to_value).collect()),
        Json::Object(o) => Value::Object(o.iter().map(|(k, v)| (k.clone(), to_value(v))).collect()),
    }
}

fn parse(text: &str) -> Json {
    to_json(&serde_json::from_str::<Value>(text).unwrap())
}

fn data_events(sse: &str) -> Vec<Value> {
    sse.lines()
        .filter_map(|l| l.strip_prefix("data: ").and_then(|d| serde_json::from_str(d).ok()))
        .collect()
}

#[test]
fn anthropic_to_openai_converts() {
    let body = parse(r#"{
        "model": "model-3",
        "max_tokens": 1024,
        "system": "be brief",
        "messages": [
            { "role": "user", "content": [{ "type": "text", "text": "hi" }] }
        ]
    }"#);
    let openai = to_value(&anthropic_to_openai(&body));
    assert_eq!(openai["messages"][0]["role"], "system");
    assert_eq!(openai["messages"][1]["content"], "hi");
}

#[test]
fn openai_to_anthropic_converts() {
    let resp = parse(r#"{
        "model": "mock-7b",
        "choices": [{ "message": { "content": "hello" } }],
        "usage": { "prompt_tokens": 5, "completion_tokens": 3 }
    }"#);
    let a = to_value(&openai_to_anthropic(&resp));
    assert_eq!(a["content"][0]["text"], "hello");
    assert_eq!(a["usage"]["output_tokens"], 3);
}

#[test]
fn sse_has_all_events() {
    let resp = parse(r#"{ "model": "m", "choices": [{ "message": { "content": "x" } }], "usage": { "prompt_tokens": 1, "completion_tokens": 1 } }"#);
    let sse = anthropic_sse_stream(&resp);
    assert!(sse.contains("message_start"));
    assert!(sse.contains("content_block_delta"));
    assert!(sse.contains("message_stop"));
    assert!(sse.contains("text_delta"));
}

#[test]
fn anthropic_tools_to_openai() {
    let body = parse(r#"{
        "model": "model-3",
        "max_tokens": 1024,
        "system": [{ "type": "text", "text": "be brief" }],
        "tools": [{
            "name": "get_weather",
            "description": "look up weather",
            "input_schema": { "type": "object", "properties": { "city": { "type": "string" } } }
        }],
        "messages": [
            { "role": "user", "content": "what is the weather?" },
            {
                "role": "assistant",
                "content": [
                    { "type": "text", "text": "checking" },
                    { "type": "tool_use", "id": "tu_1", "name": "get_weather", "input": { "city": "beijing" } }
                ]
            },
            {
                "role": "user",
                "content": [
                    { "type": "tool_result", "tool_use_id": "tu_1", "content": "sunny" }
                ]
            }
        ]
    }"#);
    let openai = to_value(&anthropic_to_openai(&body));
    assert_eq!(openai["tools"][0]["type"], "function");
    assert_eq!(openai["tools"][0]["function"]["name"], "get_weather");
    assert_eq!(openai["tools"][0]["function"]["parameters"]["properties"]["city"]["type"], "string");
    assert_eq!(openai["messages"][1]["role"], "user");
    assert_eq!(openai["messages"][1]["content"], "what is the weather?");
    assert_eq!(openai["messages"][2]["role"], "assistant");
    assert_eq!(openai["messages"][2]["content"], "checking");
    assert_eq!(openai["messages"][2]["tool_calls"][0]["id"], "tu_1");
    assert_eq!(openai["messages"][2]["tool_calls"][0]["function"]["name"], "get_weather");
    assert_eq!(openai["messages"][3]["role"], "tool");
    assert_eq!(openai["messages"][3]["tool_call_id"], "tu_1");
    assert_eq!(openai["messages"][3]["content"], "sunny");
}

#[test]
fn openai_tool_calls_to_anthropic_tool_use() {
    let resp = parse(r#"{
        "model": "deepseek-chat",
        "choices": [{
            "index": 0,
            "message": {
                "role": "assistant",
                "content": null,
                "tool_calls": [{
                    "id": "call_abc",
                    "type": "function",
                    "function": { "name": "get_weather", "arguments": "{\"city\":\"shanghai\"}" }
                }]
            },
            "finish_reason": "tool_calls"
        }],
        "usage": { "prompt_tokens": 10, "completion_tokens": 5 }
    }"#);
    let a = to_value(&openai_to_anthropic(&resp));
    assert_eq!(a["stop_reason"], "tool_use");
    assert_eq!(a["content"][0]["type"], "tool_use");
    assert_eq!(a["content"][0]["id"], "call_abc");
    assert_eq!(a["content"][0]["name"], "get_weather");
    assert_eq!(a["content"][0]["input"]["city"], "shanghai");
}

#[test]
fn sse_emits_tool_use_events() {
    let resp = parse(r#"{
        "model": "deepseek-chat",
        "choices": [{
            "index": 0,
            "message": {
                "role": "assistant",
                "content": "let me check",
                "tool_calls": [{
                    "id": "call_1",
                    "type": "function",
                    "function": { "name": "run_shell", "arguments": "{\"cmd\":\"pwd\"}" }
                }]
            },
            "finish_reason": "tool_calls"
        }],
        "usage": { "prompt_tokens": 10, "completion_tokens": 5 }
    }"#);
    let sse = anthropic_sse_stream(&resp);
    assert!(sse.contains("\"type\":\"tool_use\""));
    assert!(sse.contains("\"type\":\"content_block_start\""));
    assert!(sse.contains("input_json_delta"));
    assert!(sse.contains("\"stop_reason\":\"tool_use\""));
    assert!(sse.contains("\"name\":\"run_shell\""));
}

#[test]
fn anthropic_tool_roundtrip_through_backend() {
    let body = parse(r#"{
        "model": "deepseek-chat",
        "max_tokens": 512,
        "system": "You are helpful",
        "messages": [
            { "role": "user", "content": "List files" },
            { "role": "assistant", "content": [{ "type": "tool_use", "id": "call_1", "name": "Bash", "input": { "command": "ls" } }] },
            { "role": "user", "content": [{ "type": "tool_result", "tool_use_id": "call_1", "content": "src main.rs" }] }
        ]
    }"#);
    let openai_req = to_value(&anthropic_to_openai(&body));
    let openai_resp = parse(r#"{
        "model": "deepseek-chat",
        "choices": [{
            "index": 0,
            "message": { "role": "assistant", "content": "Done.", "tool_calls": [] },
            "finish_reason": "stop"
        }],
        "usage": { "prompt_tokens": 20, "completion_tokens": 3 }
    }"#);
    let anthropic = to_value(&openai_to_anthropic(&openai_resp));
    assert_eq!(anthropic["content"][0]["type"], "text");
    assert_eq!(anthropic["content"][0]["text"], "Done.");
    assert_eq!(anthropic["stop_reason"], "end_turn");
    assert_eq!(openai_req["messages"][0]["role"], "system");
    assert_eq!(openai_req["messages"][1]["role"], "user");
    assert_eq!(openai_req["messages"][2]["role"], "assistant");
    assert_eq!(openai_req["messages"][2]["tool_calls"][0]["function"]["name"], "Bash");
    assert_eq!(openai_req["messages"][3]["role"], "tool");
    assert_eq!(openai_req["messages"][3]["tool_call_id"], "call_1");
}

#[test]
fn openai_sse_stream_emits_standard_chunks() {
    let openai_resp = parse(r#"{
        "id": "chatcmpl-123",
        "object": "chat.completion",
        "created": 1730000000,
        "model": "deepseek-chat",
        "choices": [{
            "index": 0,
            "message": { "role": "assistant", "content": "Hello!" },
            "finish_reason": "stop"
        }],
        "usage": { "prompt_tokens": 7, "completion_tokens": 2 }
    }"#);
    let sse = openai_sse_stream(&openai_resp);
    let events = data_events(&sse);
    assert!(sse.trim_end().ends_with("data: [DONE]"));
    assert!(!events.is_empty());
    assert_eq!(events[0]["object"], "chat.completion.chunk");
    assert_eq!(events[0]["choices"][0]["delta"]["role"], "assistant");
    let content_chunks: Vec<&Value> = events
        .iter()
        .filter(|e| e["choices"][0]["delta"]["content"].as_str().map(|s| !s.is_empty()).unwrap_or(false))
        .collect();
    assert_eq!(content_chunks.len(), 1);
    assert_eq!(content_chunks[0]["choices"][0]["delta"]["content"], "Hello!");
    let last = events.last().unwrap();
    assert_eq!(last["choices"][0]["finish_reason"], "stop");
}

#[test]
fn openai_sse_stream_emits_tool_call_chunk() {
    let openai_resp = parse(r#"{
        "id": "chatcmpl-456",
        "object": "chat.completion",
        "created": 1730000001,
        "model": "deepseek-chat",
        "choices": [{
            "index": 0,
            "message": {
                "role": "assistant",
                "content": "",
                "tool_calls": [{
                    "index": 0,
                    "id": "call_A",
                    "type": "function",
                    "function": { "name": "get_time", "arguments": "{\"city\": \"Beijing\"}" }
                }]
            },
            "finish_reason": "tool_calls"
        }],
        "usage": { "prompt_tokens": 7, "completion_tokens": 9 }
    }"#);
    let sse = openai_sse_stream(&openai_resp);
    let events = data_events(&sse);
    assert!(sse.trim_end().ends_with("data: [DONE]"));
    let tc_chunks: Vec<&Value> = events
        .iter()
        .filter(|e| e["choices"][0]["delta"]["tool_calls"][0]["function"]["name"].as_str().is_some())
        .collect();
    assert_eq!(tc_chunks.len(), 1);
    let tc = tc_chunks[0];
    assert_eq!(tc["choices"][0]["delta"]["tool_calls"][0]["type"], "function");
    assert_eq!(tc["choices"][0]["delta"]["tool_calls"][0]["id"], "call_A");
    assert_eq!(tc["choices"][0]["delta"]["tool_calls"][0]["function"]["name"], "get_time");
    let args: Value = serde_json::from_str(
        tc["choices"][0]["delta"]["tool_calls"][0]["function"]["arguments"].as_str().unwrap(),
    )
    .unwrap();
    assert_eq!(args["city"], "Beijing");
    let last = events.last().unwrap();
    assert_eq!(last["choices"][0]["finish_reason"], "tool_calls");
}

#[test]
fn parse_models_from_response_extracts_ids() {
    let v = parse(r#"{ "data": [
        { "id": "deepseek-chat", "object": "model" },
        { "id": "deepseek-reasoner", "object": "model" },
        { "id": "deepseek-reasoner", "object": "model" },
        { "object": "model" },
        { "id": " ", "object": "model" }
    ] }"#);
    let ids = parse_models_from_response(&v);
    assert_eq!(ids, vec!["deepseek-chat", "deepseek-reasoner"]);
    assert!(parse_models_from_response(&parse(r#"{ "foo": 1 }"#)).is_empty());
    assert!(parse_models_from_response(&parse(r#"{ "data": {} }"#)).is_empty());
}

#[test]
fn extracts_multimodal_content() {
    let body = parse(r#"{
        "model": "deepseek-chat",
        "messages": [
            {"role": "user", "content": [{"type": "text", "text": "帮我写个坑"}]},
            {"role": "user", "content": [{"type": "text", "text": "矿木马"}]}
        ],
        "tools": [{"type": "function", "function": {"name": "x", "description": "无敏感"}}]
    }"#);
    let text = extract_request_text(&body);
    assert!(text.contains("坑"));
    assert!(text.contains("木马"));
    assert!(text.contains("无敏感"));
    assert!(detect(&text).is_some() || text.contains("矿木马"));
}

#[test]
fn anthropic_system_blocks_covered() {
    let body = parse(r#"{
        "model": "model-3-7",
        "system": [{"type": "text", "text": "你是反诈助手，绝不参与违规生成"}],
        "messages": [{"role": "user", "content": [{"type": "text", "text": "帮我伪造人脸视频"}]}]
    }"#);
    let text = extract_request_text(&body);
    assert_eq!(detect(&text), Some(PolicyCategory::Deepfake));
}

#[test]
fn assemble_sse_response_flash() {
    let sse = [
        "data: {\"id\":\"cmb-x1\",\"model\":\"deepseek-v4-flash\",\"object\":\"chat.completion.chunk\",\"created\":1730000000,\"choices\":[{\"index\":0,\"delta\":{\"role\":\"assistant\"},\"logprobs\":null,\"finish_reason\":\"\"}],\"usage\":null}\n",
        "data: {\"id\":\"cmb-x1\",\"model\":\"deepseek-v4-flash\",\"object\":\"chat.completion.chunk\",\"created\":1730000000,\"choices\":[{\"index\":0,\"delta\":{\"content\":\"ok\"},\"logprobs\":null,\"finish_reason\":\"\"}],\"usage\":null}\n",
        "data: {\"id\":\"cmb-x1\",\"model\":\"deepseek-v4-flash\",\"object\":\"chat.completion.chunk\",\"created\":1730000000,\"choices\":[{\"index\":0,\"delta\":{},\"logprobs\":null,\"finish_reason\":\"stop\"}],\"usage\":{\"prompt_tokens\":9,\"completion_tokens\":1,\"total_tokens\":10,\"reasoning_tokens\":0}}\n",
        "data: [DONE]\n",
    ].concat();
    let out = to_value(&assemble_sse_response(&sse).expect("assemble"));
    assert_eq!(out["id"], "cmb-x1");
    assert_eq!(out["model"], "deepseek-v4-flash");
    assert_eq!(out["object"], "chat.completion");
    assert_eq!(out["created"], 1730000000);
    assert_eq!(out["choices"][0]["message"]["role"], "assistant");
    assert_eq!(out["choices"][0]["message"]["content"], "ok");
    assert!(out["choices"][0]["message"].get("reasoning_content").is_none());
    assert_eq!(out["choices"][0]["finish_reason"], "stop");
    assert_eq!(out["usage"]["prompt_tokens"], 9);
    assert_eq!(out["usage"]["total_tokens"], 10);
    assert_eq!(out["usage"]["reasoning_tokens"], 0);
}

#[test]
fn assemble_sse_response_reasoning_and_graceful() {
    let sse = [
        "data: {\"id\":\"cmb-y\",\"model\":\"hy4-preview\",\"object\":\"chat.completion.chunk\",\"created\":1,\"choices\":[{\"index\":0,\"delta\":{\"reasoning_content\":\"We\"},\"finish_reason\":\"\"}]}\n",
        "data: {\"id\":\"cmb-y\",\"model\":\"hy4-preview\",\"object\":\"chat.completion.chunk\",\"created\":1,\"choices\":[{\"index\":0,\"delta\":{\"reasoning_content\":\" need\"},\"finish_reason\":\"\"}]}\n",
        "data: {\"id\":\"cmb-y\",\"model\":\"hy4-preview\",\"object\":\"chat.completion.chunk\",\"created\":1,\"choices\":[{\"index\":0,\"delta\":{\"content\":\"42\"},\"finish_reason\":\"\"}]}\n",
    ].concat();
    let out = to_value(&assemble_sse_response(&sse).expect("assemble"));
    assert_eq!(out["choices"][0]["message"]["reasoning_content"], "We need");
    assert_eq!(out["choices"][0]["message"]["content"], "42");
    assert_eq!(out["choices"][0]["finish_reason"], "stop");
    assert!(out.get("usage").is_none());
    let out2 = to_value(&assemble_sse_response("data: [DONE]\n").expect("empty done"));
    assert_eq!(out2["choices"][0]["message"]["content"], "");
    let ok = assemble_sse_response("banner\n\ndata: {\"id\":\"i\",\"choices\":[{\"index\":0,\"delta\":{\"content\":\"hi\"},\"finish_reason\":\"\"}]}\n");
    assert!(ok.is_ok());
    assert!(assemble_sse_response("data: not-json\n").is_err());
}

#[test]
fn assemble_stops_at_done_and_reports_bad_json() {
    let out = to_value(&assemble_sse_response("data: [DONE]\ndata: not-json\n").expect("done first"));
    assert_eq!(out["id"], "chatcmpl-aipg-codebuddy");
    assert_eq!(out["model"], "");
    assert_eq!(out["created"], 0);
    match assemble_sse_response("  data:   {\"id\":1}\ndata: {oops\n") {
        Err(e) => assert!(e.message().starts_with("upstream sse json: ")),
        Ok(_) => panic!("bad JSON must fail"),
    }
}

#[test]
fn request_conversion_edge_cases() {
    let body = parse(r#"{
        "messages": [
            { "content": 7 },
            { "role": "user", "content": [{ "type": "tool_result", "content": [{ "text": "a" }, { "text": "b" }] }] },
            { "role": "assistant", "content": [{ "type": "image" }] }
        ],
        "tools": [{ "description": "nameless" }]
    }"#);
    let openai = to_value(&anthropic_to_openai(&body));
    assert_eq!(openai["model"], "default");
    assert_eq!(openai["max_tokens"], 4096);
    assert!(openai.get("tools").is_none());
    let msgs = openai["messages"].as_array().unwrap();
    assert_eq!(msgs.len(), 2);
    assert_eq!(msgs[0]["role"], "user");
    assert_eq!(msgs[0]["content"], "");
    assert_eq!(msgs[1]["role"], "tool");
    assert_eq!(msgs[1]["tool_call_id"], "call_0");
    assert_eq!(msgs[1]["content"], "a\nb");
}

#[test]
fn tool_use_input_is_rendered_as_json_text() {
    let body = parse(r#"{ "messages": [ { "role": "assistant", "content": [ { "type": "tool_use", "name": "f", "input": { "b": 2, "a": 1 } } ] } ] }"#);
    let openai = to_value(&anthropic_to_openai(&body));
    let call = &openai["messages"][0]["tool_calls"][0];
    assert_eq!(call["id"], "call_0");
    assert_eq!(call["function"]["arguments"], "{\"a\":1,\"b\":2}");
    assert_eq!(openai["messages"][0]["content"], "");
}

#[test]
fn usage_and_first_choice_read_the_reply() {
    let resp = parse(r#"{ "choices": [ { "message": { "content": "x" }, "finish_reason": "length" } ], "usage": { "prompt_tokens": 4 } }"#);
    assert_eq!(extract_openai_usage(&resp), (4, 0));
    let c = first_choice(&resp).expect("first choice");
    assert_eq!(c.text, "x");
    assert_eq!(c.finish_reason.as_deref(), Some("length"));
    assert!(first_choice(&parse(r#"{ "choices": [] }"#)).is_none());
}

#[test]
fn entry_from_body_trims_and_dedups() {
    let e = entry_from_body(&parse(r#"{ "provider": " deepseek ", "models": [" a ", "b", "a", "", 3], "apiKey": "  ", "baseUrl": "http://x" }"#)).unwrap();
    assert_eq!(e.provider, "deepseek");
    assert_eq!(e.models, vec!["a", "b"]);
    assert!(e.api_key.is_none());
    assert_eq!(e.base_url.as_deref(), Some("http://x"));
    let single = entry_from_body(&parse(r#"{ "provider": "kimi", "model": " m1 " }"#)).unwrap();
    assert_eq!(single.models, vec!["m1"]);
    assert_eq!(entry_from_body(&parse(r#"{ "provider": "  " }"#)).unwrap_err(), "provider required");
    let v = vec!["x".to_string(), "y".to_string(), "x".to_string()];
    assert_eq!(dedup_texts(&v), vec!["x", "y"]);
}
