//! The one-shot research agent: the conversation it keeps with the model,
//! the tools it offers (`web_search`, `web_extract`), what a tool call is
//! asked to do and what the model is told back, and the director events
//! that drive the buddy overlay.
use vstd::prelude::*;
use crate::json::{Json, JsonV, fields_view, jobj, jstr, no_members, push_member, str_field, items_view, no_items, push_item};
use crate::llm::{Msg, MsgV, ToolCall, ToolCallV, ToolDef, calls_view, tool_def_json};
use crate::search::{SearchHit, SearchHitV, hits_view};
use crate::text::{owned, join_str, decimal, u64_to_string};

verus! {

/// What the model is told about its role and its tools.
pub const SYSTEM_PROMPT: &'static str = "You are squeaky, a desktop buddy's research agent. Answer concisely (a few sentences unless asked otherwise). You have tools:\n- web_search(query): find pages; use when facts may be stale or unknown\n- web_extract(url): read a page's text; prefer it over guessing from snippets\nCite sources inline as [n] matching your web_search result order.";

/// Rounds of model replies before the agent gives up.
pub const MAX_ROUNDS: usize = 8;

/// Reply budget of each round.
pub const MAX_TOKENS: u32 = 4096;

pub open spec fn string_schema(prop: Seq<char>) -> JsonV {
    JsonV::Obj(
        seq![
            ("type"@, JsonV::Str("object"@)),
            ("properties"@, JsonV::Obj(seq![(prop, JsonV::Obj(seq![("type"@, JsonV::Str("string"@))]))])),
            ("required"@, JsonV::Arr(seq![JsonV::Str(prop)])),
        ],
    )
}

/// `{"type": "object", "properties": {prop: {"type": "string"}}, "required": [prop]}`.
fn one_string_schema(prop: &str) -> (r: Json)
    ensures
        r@ == string_schema(prop@),
{
    let mut t = no_members();
    push_member(&mut t, "type", jstr("string"));
    let tj = jobj(t);
    let ghost tv = tj@;
    let mut props = no_members();
    push_member(&mut props, prop, tj);
    let pj = jobj(props);
    let ghost pv = pj@;
    let mut req = no_items();
    push_item(&mut req, jstr(prop));
    let rj = Json::Arr(req);
    let ghost rv = rj@;
    let mut f = no_members();
    push_member(&mut f, "type", jstr("object"));
    push_member(&mut f, "properties", pj);
    push_member(&mut f, "required", rj);
    assert(fields_view(t@) =~= seq![("type"@, JsonV::Str("string"@))]);
    assert(fields_view(props@) =~= seq![(prop@, tv)]);
    assert(items_view(req@) =~= seq![JsonV::Str(prop@)]);
    assert(fields_view(f@) =~= seq![("type"@, JsonV::Str("object"@)), ("properties"@, pv), ("required"@, rv)]);
    let r = jobj(f);
    assert(r@ =~~= string_schema(prop@));
    r
}

pub open spec fn function_json(name: Seq<char>, description: Seq<char>, parameters: JsonV) -> JsonV {
    JsonV::Obj(
        seq![
            ("name"@, JsonV::Str(name)),
            ("description"@, JsonV::Str(description)),
            ("parameters"@, parameters),
        ],
    )
}

/// The tools the agent offers: `web_search(query)` and `web_extract(url)`.
pub fn agent_tools() -> (r: Vec<ToolDef>)
    ensures
        r@.len() == 2,
        r@[0].kind@ == "function"@,
        r@[0].function@ == function_json(
            "web_search"@,
            "Search the web. Returns numbered results (title | url | snippet)."@,
            string_schema("query"@),
        ),
        r@[1].kind@ == "function"@,
        r@[1].function@ == function_json(
            "web_extract"@,
            "Fetch a web page and return its readable text."@,
            string_schema("url"@),
        ),
{
    let mut v: Vec<ToolDef> = Vec::new();
    v.push(
        ToolDef::function(
            "web_search",
            "Search the web. Returns numbered results (title | url | snippet).",
            one_string_schema("query"),
        ),
    );
    v.push(
        ToolDef::function(
            "web_extract",
            "Fetch a web page and return its readable text.",
            one_string_schema("url"),
        ),
    );
    v
}

// --- the conversation --------------------------------------------------------------

pub open spec fn msgs_view(m: Seq<Msg>) -> Seq<MsgV> {
    m.map_values(|x: Msg| x@)
}

/// A conversation with the model, counted in rounds.
#[derive(Debug)]
pub struct AgentRun {
    pub msgs: Vec<Msg>,
    pub round: usize,
}

/// What the agent does with a model reply.
#[derive(Debug, PartialEq)]
pub enum AgentStep {
    /// run these tool calls, then add their results and ask again
    Tools(Vec<ToolCall>),
    /// the final answer (the reply's text, or "(empty reply)")
    Answer(String),
}

pub open spec fn system_msg(t: Seq<char>) -> MsgV {
    MsgV { role: "system"@, content: Some(t), tool_calls: None, tool_call_id: None, name: None }
}

pub open spec fn user_msg(t: Seq<char>) -> MsgV {
    MsgV { role: "user"@, content: Some(t), tool_calls: None, tool_call_id: None, name: None }
}

pub open spec fn tool_msg(call_id: Seq<char>, name: Seq<char>, out: Seq<char>) -> MsgV {
    MsgV {
        role: "tool"@,
        content: Some(out),
        tool_calls: None,
        tool_call_id: Some(call_id),
        name: Some(name),
    }
}

/// Whether a reply asks for tools: it carries a non-empty list of calls.
pub open spec fn wants_tools(m: MsgV) -> bool {
    m.tool_calls matches Some(calls) && calls.len() > 0
}

fn copy_call(c: &ToolCall) -> (r: ToolCall)
    ensures
        r@ == c@,
{
    ToolCall {
        id: c.id.clone(),
        kind: c.kind.clone(),
        function: crate::llm::ToolFn {
            name: c.function.name.clone(),
            arguments: c.function.arguments.clone(),
        },
    }
}

impl AgentRun {
    /// A conversation opened with the system prompt and the user's prompt.
    pub fn new(prompt: &str) -> (r: AgentRun)
        ensures
            msgs_view(r.msgs@) == seq![system_msg(SYSTEM_PROMPT@), user_msg(prompt@)],
            r.round == 0,
    {
        let mut msgs: Vec<Msg> = Vec::new();
        msgs.push(Msg::system(SYSTEM_PROMPT));
        msgs.push(Msg::user(prompt));
        assert(msgs_view(msgs@) =~= seq![system_msg(SYSTEM_PROMPT@), user_msg(prompt@)]);
        AgentRun { msgs, round: 0 }
    }

    /// Whether another round may be asked for.
    pub fn may_ask(&self) -> (r: bool)
        ensures
            r == (self.round < MAX_ROUNDS),
    {
        self.round < MAX_ROUNDS
    }

    /// Take the model's reply of this round: tool calls are kept in the
    /// conversation and handed out to run; anything else is the answer.
    pub fn on_reply(&mut self, reply: Msg) -> (step: AgentStep)
        requires
            old(self).round < usize::MAX,
        ensures
            wants_tools(reply@) ==> {
                &&& step matches AgentStep::Tools(calls) && calls_view(calls@) == reply@.tool_calls.unwrap()
                &&& msgs_view(final(self).msgs@) == msgs_view(old(self).msgs@).push(reply@)
                &&& final(self).round == old(self).round + 1
            },
            !wants_tools(reply@) ==> {
                &&& step matches AgentStep::Answer(t) && t@ == match reply@.content {
                    Some(c) => c,
                    None => "(empty reply)"@,
                }
                &&& final(self).msgs == old(self).msgs
                &&& final(self).round == old(self).round
            },
    {
        let calls: Option<Vec<ToolCall>> = match &reply.tool_calls {
            Some(cs) => {
                if cs.len() > 0 {
                    let mut out: Vec<ToolCall> = Vec::new();
                    let mut i: usize = 0;
                    while i < cs.len()
                        invariant
                            i <= cs.len(),
                            calls_view(out@) == calls_view(cs@).take(i as int),
                        decreases cs.len() - i,
                    {
                        let ghost before = out@;
                        let c = copy_call(&cs[i]);
                        out.push(c);
                        assert(calls_view(out@) =~= calls_view(before).push(cs@[i as int]@));
                        assert(calls_view(cs@).take(i + 1) =~= calls_view(cs@).take(i as int).push(
                            cs@[i as int]@,
                        ));
                        i += 1;
                    }
                    assert(calls_view(cs@).take(cs.len() as int) =~= calls_view(cs@));
                    Some(out)
                } else {
                    None
                }
            },
            None => None,
        };
        match calls {
            Some(out) => {
                let ghost rv = reply@;
                let ghost before = msgs_view(self.msgs@);
                self.msgs.push(reply);
                assert(msgs_view(self.msgs@) =~= before.push(rv));
                self.round = self.round + 1;
                AgentStep::Tools(out)
            },
            None => {
                let text = match &reply.content {
                    Some(c) => owned(c.as_str()),
                    None => owned("(empty reply)"),
                };
                AgentStep::Answer(text)
            },
        }
    }

    /// Add what tool call `call` returned.
    pub fn add_tool_result(&mut self, call: &ToolCall, out: &str)
        ensures
            msgs_view(final(self).msgs@) == msgs_view(old(self).msgs@).push(
                tool_msg(call@.id, call@.name, out@),
            ),
            final(self).round == old(self).round,
    {
        let m = Msg::tool_result(call.id.as_str(), call.function.name.as_str(), out);
        let ghost mv = m@;
        let ghost before = msgs_view(self.msgs@);
        self.msgs.push(m);
        assert(msgs_view(self.msgs@) =~= before.push(mv));
    }
}

/// What the agent says when the model kept calling tools every round.
pub fn gave_up_note() -> (r: String)
    ensures
        r@ == "AGENT: gave up after 8 rounds (model kept calling tools)"@,
{
    owned("AGENT: gave up after 8 rounds (model kept calling tools)")
}

// --- tool calls ------------------------------------------------------------------------

/// What a tool call asks for.
#[derive(Debug, PartialEq)]
pub enum ToolRequest {
    /// `web_search` with its `query`
    Search(String),
    /// `web_extract` with its `url`
    Extract(String),
    /// a tool the agent does not have; the text to answer with
    Unknown(String),
}

/// The mathematical value of a [`ToolRequest`].
pub enum ToolRequestV {
    Search(Seq<char>),
    Extract(Seq<char>),
    Unknown(Seq<char>),
}

impl View for ToolRequest {
    type V = ToolRequestV;

    open spec fn view(&self) -> ToolRequestV {
        match self {
            ToolRequest::Search(s) => ToolRequestV::Search(s@),
            ToolRequest::Extract(s) => ToolRequestV::Extract(s@),
            ToolRequest::Unknown(s) => ToolRequestV::Unknown(s@),
        }
    }
}

/// The string argument `key` of a call whose arguments decoded to `args`
/// (`None`: not JSON, read as `{}`), or `""`.
pub open spec fn arg_str(args: Option<JsonV>, key: Seq<char>) -> Seq<char> {
    match args {
        Some(a) => match str_field(a, key) {
            Some(s) => s,
            None => Seq::empty(),
        },
        None => Seq::empty(),
    }
}

/// Tool `name` called with the decoded arguments `args`.
pub open spec fn tool_request(name: Seq<char>, args: Option<JsonV>) -> ToolRequestV {
    if name == "web_search"@ {
        ToolRequestV::Search(arg_str(args, "query"@))
    } else if name == "web_extract"@ {
        ToolRequestV::Extract(arg_str(args, "url"@))
    } else {
        ToolRequestV::Unknown("error: unknown tool '"@ + name + "'"@)
    }
}

/// What tool call `name(args)` asks for.
pub fn request_of(name: &str, args: &Option<Json>) -> (r: ToolRequest)
    ensures
        r@ == tool_request(
            name@,
            match args {
                Some(a) => Some(a@),
                None => None,
            },
        ),
{
    let arg = |key: &str| -> (s: String)
        ensures
            s@ == arg_str(
                match args {
                    Some(a) => Some(a@),
                    None => None,
                },
                key@,
            ),
        {
            match args {
                Some(a) => crate::json::get_str_or_empty(a, key),
                None => String::new(),
            }
        };
    if crate::text::same_text(name, "web_search") {
        ToolRequest::Search(arg("query"))
    } else if crate::text::same_text(name, "web_extract") {
        ToolRequest::Extract(arg("url"))
    } else {
        let mut t = owned("error: unknown tool '");
        t.append(name);
        t.append("'");
        ToolRequest::Unknown(t)
    }
}

/// What tool call `name` asks for, given its JSON-encoded arguments;
/// arguments that are not JSON count as an empty object.
pub fn request_of_text(name: &str, args_json: &str) -> (r: ToolRequest)
    ensures
        r@ == tool_request(name@, crate::json::json_text(args_json@)),
{
    let args: Option<Json> = match crate::json::parse_json(args_json) {
        Ok(v) => Some(v),
        Err(_) => None,
    };
    request_of(name, &args)
}

/// One numbered result line: `[n] title | url | snippet` and a newline.
pub open spec fn hit_line(n: nat, h: SearchHitV) -> Seq<char> {
    "["@ + decimal(n) + "] "@ + h.title + " | "@ + h.url + " | "@ + h.snippet + "\n"@
}

/// The numbered result lines of `hits`, counting from 1.
pub open spec fn hit_lines(hits: Seq<SearchHitV>) -> Seq<char>
    decreases hits.len(),
{
    if hits.len() == 0 {
        Seq::empty()
    } else {
        hit_lines(hits.drop_last()) + hit_line(hits.len(), hits.last())
    }
}

/// What `web_search` answers: `[via backend]` and the numbered results, or
/// `error: …`.
pub open spec fn search_answer(r: Result<(Seq<SearchHitV>, Seq<char>), Seq<char>>) -> Seq<char> {
    match r {
        Ok((hits, backend)) => "[via "@ + backend + "]\n"@ + hit_lines(hits),
        Err(e) => "error: "@ + e,
    }
}

/// The answer to a `web_search` call.
pub fn search_output(result: &Result<(Vec<SearchHit>, &str), String>) -> (r: String)
    ensures
        r@ == search_answer(
            match result {
                Ok((hits, backend)) => Ok((hits_view(hits@), backend@)),
                Err(e) => Err(e@),
            },
        ),
{
    match result {
        Ok((hits, backend)) => {
            let mut out = owned("[via ");
            out.append(backend);
            out.append("]\n");
            let ghost head = out@;
            let mut i: usize = 0;
            while i < hits.len()
                invariant
                    i <= hits.len(),
                    out@ == head + hit_lines(hits_view(hits@).take(i as int)),
                decreases hits.len() - i,
            {
                let ghost hv = hits_view(hits@);
                assert(hv.take(i + 1).drop_last() =~= hv.take(i as int));
                assert(hv.take(i + 1).last() == hits@[i as int]@);
                let n = u64_to_string(i as u64 + 1);
                out.append("[");
                out.append(n.as_str());
                out.append("] ");
                out.append(hits[i].title.as_str());
                out.append(" | ");
                out.append(hits[i].url.as_str());
                out.append(" | ");
                out.append(hits[i].snippet.as_str());
                out.append("\n");
                assert(out@ =~= head + hit_lines(hv.take(i + 1)));
                i += 1;
            }
            assert(hits_view(hits@).take(hits.len() as int) =~= hits_view(hits@));
            out
        },
        Err(e) => join_str("error: ", e.as_str()),
    }
}

/// The answer to a `web_extract` call: the text, or `error: …`.
pub fn extract_output(result: &Result<String, String>) -> (r: String)
    ensures
        r@ == match result {
            Ok(t) => t@,
            Err(e) => "error: "@ + e@,
        },
{
    match result {
        Ok(t) => owned(t.as_str()),
        Err(e) => join_str("error: ", e.as_str()),
    }
}

// --- director events ------------------------------------------------------------------------

/// `{"cmd": "fly", "x": x, "y": y, "label": label}`.
pub open spec fn fly_json(x: i32, y: i32, label: Seq<char>) -> JsonV {
    JsonV::Obj(
        seq![
            ("cmd"@, JsonV::Str("fly"@)),
            ("x"@, JsonV::Num(Some(x as i64))),
            ("y"@, JsonV::Num(Some(y as i64))),
            ("label"@, JsonV::Str(label)),
        ],
    )
}

/// `{"cmd": "say", "text": text}`.
pub open spec fn say_json(text: Seq<char>) -> JsonV {
    JsonV::Obj(seq![("cmd"@, JsonV::Str("say"@)), ("text"@, JsonV::Str(text))])
}

/// The event that flies the buddy to `(x, y)` with a bubble `label`.
pub fn fly(x: i32, y: i32, label: &str) -> (r: Json)
    ensures
        r@ == fly_json(x, y, label@),
{
    let mut f = no_members();
    push_member(&mut f, "cmd", jstr("fly"));
    push_member(&mut f, "x", Json::Num(Some(x as i64)));
    push_member(&mut f, "y", Json::Num(Some(y as i64)));
    push_member(&mut f, "label", jstr(label));
    assert(fields_view(f@) =~= seq![
            ("cmd"@, JsonV::Str("fly"@)),
            ("x"@, JsonV::Num(Some(x as i64))),
            ("y"@, JsonV::Num(Some(y as i64))),
            ("label"@, JsonV::Str(label@)),
        ]);
    jobj(f)
}

/// The event that shows a bubble `text` at the buddy.
pub fn say(text: &str) -> (r: Json)
    ensures
        r@ == say_json(text@),
{
    let mut f = no_members();
    push_member(&mut f, "cmd", jstr("say"));
    push_member(&mut f, "text", jstr(text));
    assert(fields_view(f@) =~= seq![("cmd"@, JsonV::Str("say"@)), ("text"@, JsonV::Str(text@))]);
    jobj(f)
}

} // verus!
