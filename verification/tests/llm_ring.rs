use squeaky::config::ProviderCfg;
use squeaky::json::Json;
use squeaky::llm::{
    attempts_for, build_body, build_ring, endpoint_note, endpoints_for, label_of, skip_note, model_ids, models_url, needs_discovery, parse_choice,
    request_plan, tool_call_of, tool_call_to_json, ChatRun, ChatStep, Endpoint, LlmRing, Msg, Reply, SseDecoder,
    SseLine, ToolCall, ToolDef, ToolFn,
};

fn s(x: &str) -> Json {
    Json::Str(x.to_string())
}

fn obj(fields: Vec<(&str, Json)>) -> Json {
    Json::Obj(fields.into_iter().map(|(k, v)| (k.to_string(), v)).collect())
}

fn ep(p: &str, m: &str) -> Endpoint {
    Endpoint { provider_id: p.into(), base_url: "https://x/v1".into(), model: m.into(), key: None }
}

#[test]
fn message_constructors() {
    let m = Msg::system("be brief");
    assert_eq!(m.role, "system");
    assert_eq!(m.content.as_deref(), Some("be brief"));
    assert!(m.tool_calls.is_none() && m.tool_call_id.is_none() && m.name.is_none());
    let u = Msg::user("hi");
    assert_eq!(u.role, "user");
    assert_eq!(u.content.as_deref(), Some("hi"));
    let t = Msg::tool_result("call_1", "web_search", "out");
    assert_eq!(t.role, "tool");
    assert_eq!(t.content.as_deref(), Some("out"));
    assert_eq!(t.tool_call_id.as_deref(), Some("call_1"));
    assert_eq!(t.name.as_deref(), Some("web_search"));
}

#[test]
fn tool_def_wraps_schema() {
    let d = ToolDef::function("f", "does f", Json::Null);
    assert_eq!(d.kind, "function");
    assert_eq!(d.function, obj(vec![("name", s("f")), ("description", s("does f")), ("parameters", Json::Null)]));
}

#[test]
fn request_body_shape() {
    let msgs = vec![Msg::user("hi")];
    let b = build_body("m1", &msgs, None, 100, false);
    let expect = obj(vec![
        ("model", s("m1")),
        ("messages", Json::Arr(vec![obj(vec![("role", s("user")), ("content", s("hi"))])])),
        ("max_tokens", Json::Num(Some(100))),
        ("stream", Json::Bool(false)),
    ]);
    assert_eq!(b, expect);
    let tools = vec![ToolDef::function("f", "d", Json::Null)];
    let b = build_body("m1", &vec![], Some(&tools), 7, true);
    match b {
        Json::Obj(f) => {
            assert_eq!(f.len(), 5);
            assert_eq!(f[4].0, "tools");
            assert_eq!(
                f[4].1,
                Json::Arr(vec![obj(vec![
                    ("type", s("function")),
                    ("function", obj(vec![("name", s("f")), ("description", s("d")), ("parameters", Json::Null)])),
                ])])
            );
        }
        _ => panic!("body is an object"),
    }
}

fn call(id: &str, name: &str, args: &str) -> ToolCall {
    ToolCall { id: id.into(), kind: "function".into(), function: ToolFn { name: name.into(), arguments: args.into() } }
}

#[test]
fn tool_call_round_trip() {
    let c = call("c1", "web_search", "{\"query\":\"x\"}");
    let j = tool_call_to_json(&c);
    assert_eq!(tool_call_of(&j), Some(c));
    assert_eq!(tool_call_of(&obj(vec![("id", s("c1"))])), None);
}

#[test]
fn reading_replies() {
    let ok = obj(vec![("choices", Json::Arr(vec![obj(vec![("message", obj(vec![("content", s("hi"))]))])]))]);
    let m = parse_choice(&ok).unwrap();
    assert_eq!(m.role, "assistant");
    assert_eq!(m.content.as_deref(), Some("hi"));
    assert!(m.tool_calls.is_none());

    let err = obj(vec![("error", obj(vec![("type", s("rate")), ("message", s("rate limited"))]))]);
    assert_eq!(parse_choice(&err), Err("rate limited".to_string()));
    assert_eq!(parse_choice(&obj(vec![])), Err("unknown error".to_string()));

    let empty = obj(vec![("choices", Json::Arr(vec![obj(vec![("message", obj(vec![("role", s("assistant"))]))])]))]);
    assert_eq!(parse_choice(&empty), Err("message had neither content nor tool_calls".to_string()));

    // undecodable tool calls are dropped, content null is no content
    let calls = Json::Arr(vec![tool_call_to_json(&call("a", "f", "{}")), obj(vec![("id", s("b"))])]);
    let tc = obj(vec![(
        "choices",
        Json::Arr(vec![obj(vec![("message", obj(vec![("content", Json::Null), ("tool_calls", calls)]))])]),
    )]);
    let m = parse_choice(&tc).unwrap();
    assert_eq!(m.content, None);
    assert_eq!(m.tool_calls, Some(vec![call("a", "f", "{}")]));
}

fn provider(id: &str, url: &str, models: &[&str], account: Option<&str>) -> ProviderCfg {
    ProviderCfg {
        id: id.into(),
        base_url: url.into(),
        models: models.iter().map(|m| m.to_string()).collect(),
        key_account: account.map(|a| a.to_string()),
    }
}

#[test]
fn ring_from_providers() {
    let ps = vec![
        provider("openai", "https://api.openai.com/v1", &["gpt"], Some("openai")),
        provider("keyed", "https://k/v1", &["k1", "k2"], Some("keyed")),
        provider("zen-free", "https://opencode.ai/zen/v1", &["a", "b"], None),
        provider("ollama", "http://localhost:11434/v1", &[], None),
    ];
    let lookups = vec![None, Some("sk".to_string()), None, None];
    assert!(!needs_discovery(&ps[0], &lookups[0]));
    assert!(!needs_discovery(&ps[2], &lookups[2]));
    assert!(needs_discovery(&ps[3], &lookups[3]));
    let discovered = vec![vec![], vec![], vec![], vec!["llama3".to_string()]];
    let ring = build_ring(&ps, &lookups, &discovered).unwrap();
    let labels: Vec<String> = ring.iter().map(|e| format!("{}:{}", e.provider_id, e.model)).collect();
    assert_eq!(labels, vec!["keyed:k1", "keyed:k2", "zen-free:a", "zen-free:b", "ollama:llama3"]);
    assert_eq!(ring[0].key.as_deref(), Some("sk"));
    assert_eq!(ring[2].key, None);

    let only_keyed = vec![provider("openai", "https://api.openai.com/v1", &["gpt"], Some("openai"))];
    assert_eq!(
        build_ring(&only_keyed, &vec![None], &vec![vec![]]),
        Err("no usable LLM endpoints (keyed providers missing keys, ollama down)".to_string())
    );
    // ollama with nothing discovered contributes nothing
    assert!(endpoints_for(&ps[3], &None, &vec![]).is_empty());
    assert_eq!(models_url("http://localhost:11434/v1"), "http://localhost:11434/v1/models");
    assert_eq!(skip_note(&ps[0], &None, &vec![]), Some("LLM: openai has no keyring entry — skipped".to_string()));
    assert_eq!(skip_note(&ps[3], &None, &vec![]), Some("LLM: ollama unreachable / no models — skipped".to_string()));
    assert_eq!(skip_note(&ps[3], &None, &vec!["m".to_string()]), None);
    assert_eq!(skip_note(&ps[2], &None, &vec![]), None);
    assert_eq!(label_of(&ring[0]), "keyed:k1");
    assert_eq!(endpoint_note(&ring[0]), "LLM: endpoint keyed:k1 (keyed)");
    assert_eq!(endpoint_note(&ring[2]), "LLM: endpoint zen-free:a");
}

#[test]
fn keyed_providers_take_precedence() {
    let ps = vec![
        provider("zen-free", "https://opencode.ai/zen/v1", &["a"], None),
        provider("ollama", "http://localhost:11434/v1", &[], None),
        provider("openai", "https://api.openai.com/v1", &["gpt", "gpt-mini"], Some("openai")),
        provider("missing", "https://m/v1", &["m"], Some("missing")),
        provider("custom", "https://c/v1", &["c"], Some("custom")),
    ];
    let lookups = vec![None, None, Some("sk-o".to_string()), None, Some("sk-c".to_string())];
    let discovered = vec![vec![], vec!["llama3".to_string()], vec![], vec![], vec![]];
    let ring = build_ring(&ps, &lookups, &discovered).unwrap();
    let labels: Vec<String> = ring.iter().map(|e| label_of(e)).collect();
    assert_eq!(labels, vec!["openai:gpt", "openai:gpt-mini", "custom:c", "zen-free:a", "ollama:llama3"]);
    let keys: Vec<Option<&str>> = ring.iter().map(|e| e.key.as_deref()).collect();
    assert_eq!(keys, vec![Some("sk-o"), Some("sk-o"), Some("sk-c"), None, None]);
}

#[test]
fn listed_model_ids() {
    let v = obj(vec![("data", Json::Arr(vec![obj(vec![("id", s("a"))]), obj(vec![("x", Json::Num(Some(1)))]), obj(vec![("id", s("b"))])]))]);
    assert_eq!(model_ids(&v), vec!["a", "b"]);
    assert!(model_ids(&obj(vec![])).is_empty());
}

#[test]
fn ring_rotates_on_failure() {
    let mut r = LlmRing::new(vec![ep("p", "a"), ep("p", "b"), ep("p", "c")]);
    let names = |v: Vec<Endpoint>| v.iter().map(|e| e.model.clone()).collect::<Vec<_>>();
    assert_eq!(names(r.ordered()), vec!["a", "b", "c"]);
    r.start = 4;
    assert_eq!(names(r.ordered()), vec!["b", "c", "a"]);
    r.note_failure();
    assert_eq!(r.start, 5);
    // one failure later the order is the previous one rotated by one
    assert_eq!(names(r.ordered()), vec!["c", "a", "b"]);
    r.start = usize::MAX;
    r.note_failure();
    assert_eq!(r.start, 0);
    assert!(LlmRing::new(vec![]).ordered().is_empty());
    assert_eq!(attempts_for(3), 3);
    assert_eq!(attempts_for(20), 8);
}

#[test]
fn chat_turn_rotates_and_gives_up() {
    let mut ring = LlmRing::new(vec![ep("zen-free", "m1"), ep("zen-free", "m2")]);
    let mut run = ChatRun::start(&ring, false);
    assert_eq!(run.attempts, 2);
    assert_eq!(run.current().unwrap().model, "m1");
    assert_eq!(run.answer(&mut ring, Reply::Network("timeout".into())), ChatStep::Retry);
    assert_eq!(run.last_err, "zen-free:m1 network: timeout");
    assert_eq!(ring.start, 1);
    assert_eq!(run.current().unwrap().model, "m2");
    let step = run.answer(&mut ring, Reply::Status { status: "429 Too Many Requests".into(), body: "slow down".into() });
    assert_eq!(step, ChatStep::Retry);
    assert_eq!(run.last_err, "zen-free:m2 HTTP 429 Too Many Requests slow down");
    assert!(run.current().is_none());
    assert_eq!(run.give_up(), "all LLM endpoints failed; last: zen-free:m2 HTTP 429 Too Many Requests slow down");
    assert_eq!(ring.start, 2);
}

#[test]
fn chat_turn_outcomes() {
    let mut ring = LlmRing::new(vec![ep("p", "m")]);
    let mut run = ChatRun::start(&ring, false);
    let long = "x".repeat(300);
    run.answer(&mut ring, Reply::Status { status: "500 Internal Server Error".into(), body: long });
    assert_eq!(run.last_err, format!("p:m HTTP 500 Internal Server Error {}…", "x".repeat(200)));

    let mut run = ChatRun::start(&ring, false);
    run.answer(&mut ring, Reply::Body("not json".into()));
    let why = serde_json::from_str::<serde_json::Value>("not json").unwrap_err().to_string();
    assert_eq!(run.last_err, format!("p:m non-json reply ({})", why));
    assert!(run.last_err.starts_with("p:m non-json reply (expected ident"));

    let mut run = ChatRun::start(&ring, false);
    run.answer(&mut ring, Reply::Body("{}".into()));
    assert_eq!(run.last_err, "p:m bad payload: unknown error");

    let before = ring.start;
    let mut run = ChatRun::start(&ring, false);
    let ok = r#"{"choices":[{"message":{"content":"hey"}}]}"#;
    match run.answer(&mut ring, Reply::Body(ok.into())) {
        ChatStep::Done(m, used) => {
            assert_eq!(m.content.as_deref(), Some("hey"));
            assert_eq!(used, "p:m");
        }
        other => panic!("unexpected {:?}", other),
    }
    assert_eq!(ring.start, before);

    let mut run = ChatRun::start(&ring, true);
    run.answer(&mut ring, Reply::Status { status: "503 Service Unavailable".into(), body: "ignored".into() });
    assert_eq!(run.last_err, "p:m HTTP 503 Service Unavailable");
    assert_eq!(run.give_up(), "all LLM endpoints failed (stream); last: p:m HTTP 503 Service Unavailable");
    let mut run = ChatRun::start(&ring, true);
    assert_eq!(run.answer(&mut ring, Reply::Opened), ChatStep::Streaming("p:m".into()));
}

#[test]
fn request_for_endpoint() {
    let e = Endpoint { provider_id: "p".into(), base_url: "http://x/v1//".into(), model: "m".into(), key: Some("sk".into()) };
    let plan = request_plan(&e, true);
    assert_eq!(plan.url, "http://x/v1/chat/completions");
    let h: Vec<(&str, &str)> = plan.headers.iter().map(|(a, b)| (a.as_str(), b.as_str())).collect();
    assert_eq!(
        h,
        vec![
            ("Content-Type", "application/json"),
            ("x-opencode-client", "desktop"),
            ("User-Agent", "opencode"),
            ("Accept", "text/event-stream"),
        ]
    );
    assert_eq!(plan.bearer.as_deref(), Some("sk"));
    assert_eq!(request_plan(&ep("p", "m"), false).headers.len(), 3);
}

#[test]
fn event_stream_lines() {
    let mut d = SseDecoder::new();
    d.push_bytes(b"data: {\"a\":1}\r\n: keep-alive\n\ndata:  [DONE] \npartial");
    assert_eq!(d.next_line(), Some(SseLine::Data("{\"a\":1}".into())));
    assert_eq!(d.next_line(), Some(SseLine::Other));
    assert_eq!(d.next_line(), Some(SseLine::Other));
    assert_eq!(d.next_line(), Some(SseLine::Done));
    assert_eq!(d.next_line(), None);
    d.push_bytes(b" line\n");
    assert_eq!(d.next_line(), Some(SseLine::Other));
    // invalid UTF-8 in a chunk is replaced
    d.push_bytes(b"data: \xff\n");
    assert_eq!(d.next_line(), Some(SseLine::Data("\u{FFFD}".into())));
}

#[test]
fn event_stream_deltas() {
    let mut d = SseDecoder::new();
    let chunk = |c: Json| obj(vec![("choices", Json::Arr(vec![obj(vec![("delta", obj(vec![("content", c)]))])]))]);
    assert_eq!(d.accept(&chunk(s("Hel"))), Some("Hel".to_string()));
    assert_eq!(d.accept(&chunk(s(""))), None);
    assert_eq!(d.accept(&chunk(Json::Null)), None);
    assert_eq!(d.accept(&chunk(s("lo"))), Some("lo".to_string()));
    assert_eq!(d.full, "Hello");
    // data lines as text: decoded here, text that is not JSON passed over
    assert_eq!(d.accept_data(r#"{"choices":[{"delta":{"content":"!"}}]}"#), Some("!".to_string()));
    assert_eq!(d.accept_data("{not json"), None);
    assert_eq!(d.accept_data(r#"{"choices":[{"delta":{"reasoning":"hm","content":null}}]}"#), None);
    assert_eq!(d.full, "Hello!");
}
