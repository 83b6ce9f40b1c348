use squeaky::agent::{
    agent_tools, extract_output, fly, gave_up_note, request_of, request_of_text, say, search_output, AgentRun, AgentStep, ToolRequest,
    MAX_ROUNDS, SYSTEM_PROMPT,
};
use squeaky::json::Json;
use squeaky::llm::{Msg, ToolCall, ToolFn};
use squeaky::search::SearchHit;

fn s(x: &str) -> Json {
    Json::Str(x.to_string())
}

fn obj(fields: Vec<(&str, Json)>) -> Json {
    Json::Obj(fields.into_iter().map(|(k, v)| (k.to_string(), v)).collect())
}

fn call(id: &str, name: &str) -> ToolCall {
    ToolCall { id: id.into(), kind: "function".into(), function: ToolFn { name: name.into(), arguments: "{}".into() } }
}

fn reply(content: Option<&str>, calls: Option<Vec<ToolCall>>) -> Msg {
    Msg { role: "assistant".into(), content: content.map(|c| c.to_string()), tool_calls: calls, tool_call_id: None, name: None }
}

#[test]
fn conversation_opens_with_prompt() {
    let run = AgentRun::new("what is rust?");
    assert_eq!(run.msgs.len(), 2);
    assert_eq!(run.msgs[0], Msg::system(SYSTEM_PROMPT));
    assert_eq!(run.msgs[1], Msg::user("what is rust?"));
    assert_eq!(run.round, 0);
    assert!(SYSTEM_PROMPT.starts_with("You are squeaky"));
}

#[test]
fn tool_rounds_and_answer() {
    let mut run = AgentRun::new("q");
    let r = reply(None, Some(vec![call("c1", "web_search"), call("c2", "web_extract")]));
    match run.on_reply(r) {
        AgentStep::Tools(calls) => assert_eq!(calls, vec![call("c1", "web_search"), call("c2", "web_extract")]),
        other => panic!("unexpected {:?}", other),
    }
    assert_eq!(run.msgs.len(), 3);
    assert_eq!(run.round, 1);
    run.add_tool_result(&call("c1", "web_search"), "[via ddgs]\n");
    assert_eq!(run.msgs[3], Msg::tool_result("c1", "web_search", "[via ddgs]\n"));
    assert_eq!(run.on_reply(reply(Some("done [1]"), None)), AgentStep::Answer("done [1]".into()));
    assert_eq!(run.msgs.len(), 4);
    // an empty call list is no tool request
    assert_eq!(run.on_reply(reply(None, Some(vec![]))), AgentStep::Answer("(empty reply)".into()));
}

#[test]
fn rounds_are_bounded() {
    let mut run = AgentRun::new("q");
    let mut rounds = 0;
    while run.may_ask() {
        run.on_reply(reply(None, Some(vec![call("c", "web_search")])));
        rounds += 1;
    }
    assert_eq!(rounds, MAX_ROUNDS);
    assert_eq!(gave_up_note(), "AGENT: gave up after 8 rounds (model kept calling tools)");
}

#[test]
fn tool_requests() {
    let args = Some(obj(vec![("query", s("rust"))]));
    assert_eq!(request_of("web_search", &args), ToolRequest::Search("rust".into()));
    assert_eq!(request_of("web_search", &None), ToolRequest::Search("".into()));
    assert_eq!(request_of("web_extract", &Some(obj(vec![("url", s("https://x"))]))), ToolRequest::Extract("https://x".into()));
    assert_eq!(request_of("web_extract", &Some(obj(vec![("url", Json::Num(Some(1)))]))), ToolRequest::Extract("".into()));
    assert_eq!(request_of("shell", &args), ToolRequest::Unknown("error: unknown tool 'shell'".into()));
    // arguments as the model sent them: JSON text, unreadable text read as `{}`
    assert_eq!(request_of_text("web_search", r#"{"query": "verus"}"#), ToolRequest::Search("verus".into()));
    assert_eq!(request_of_text("web_search", "{oops"), ToolRequest::Search("".into()));
    assert_eq!(request_of_text("web_extract", r#"{"url": "https://a.b"}"#), ToolRequest::Extract("https://a.b".into()));
    assert_eq!(request_of_text("web_extract", r#"["https://a.b"]"#), ToolRequest::Extract("".into()));
}

#[test]
fn tool_answers() {
    let hits = vec![
        SearchHit { title: "T1".into(), url: "https://1".into(), snippet: "s1".into() },
        SearchHit { title: "T2".into(), url: "https://2".into(), snippet: "".into() },
    ];
    assert_eq!(
        search_output(&Ok((hits, "ddgs"))),
        "[via ddgs]\n[1] T1 | https://1 | s1\n[2] T2 | https://2 | \n"
    );
    assert_eq!(search_output(&Err("empty query".into())), "error: empty query");
    assert_eq!(search_output(&Ok((vec![], "exa"))), "[via exa]\n");
    assert_eq!(extract_output(&Ok("text".into())), "text");
    assert_eq!(extract_output(&Err("no readable text at u".into())), "error: no readable text at u");
}

#[test]
fn offered_tools() {
    let t = agent_tools();
    assert_eq!(t.len(), 2);
    let schema = |p: &str| {
        obj(vec![
            ("type", s("object")),
            ("properties", obj(vec![(p, obj(vec![("type", s("string"))]))])),
            ("required", Json::Arr(vec![s(p)])),
        ])
    };
    assert_eq!(
        t[0].function,
        obj(vec![
            ("name", s("web_search")),
            ("description", s("Search the web. Returns numbered results (title | url | snippet).")),
            ("parameters", schema("query")),
        ])
    );
    assert_eq!(t[1].kind, "function");
    assert_eq!(
        t[1].function,
        obj(vec![
            ("name", s("web_extract")),
            ("description", s("Fetch a web page and return its readable text.")),
            ("parameters", schema("url")),
        ])
    );
}

#[test]
fn director_events() {
    assert_eq!(
        fly(800, -5, "click here!"),
        obj(vec![("cmd", s("fly")), ("x", Json::Num(Some(800))), ("y", Json::Num(Some(-5))), ("label", s("click here!"))])
    );
    assert_eq!(say("researching…"), obj(vec![("cmd", s("say")), ("text", s("researching…"))]));
}
