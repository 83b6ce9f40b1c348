//! LLM registry logic: OpenAI-compatible wire messages, the rotating
//! provider ring, the retry/rotation decisions of a chat turn and the
//! server-sent-events decoder of a streamed turn.
//!
//! The HTTP exchange itself happens at the edge; every decision about what to
//! send, what a reply means and where to go next is made here.
use vstd::prelude::*;
use crate::json::{Json, JsonV, items_view, fields_view, lemma_items_push, lemma_fields_push, copy_json, jobj, jstr, member, push_member, push_item, no_members, no_items, str_field};
use crate::config::ProviderCfg;
use crate::text::{owned, has_prefix, trim_ws, trim_end_class, truncated, truncate, truncate_defined, CharClass, utf8_lossy, from_utf8_lossy, chars_of, find_in, first_occurrence};

verus! {

// --- wire types -------------------------------------------------------------

/// The function part of a tool call.
#[derive(Debug, PartialEq)]
pub struct ToolFn {
    pub name: String,
    /// JSON-encoded arguments string, per OpenAI wire format
    pub arguments: String,
}

/// A tool call requested by the model.
#[derive(Debug, PartialEq)]
pub struct ToolCall {
    pub id: String,
    /// the wire field `type`; always "function" in practice
    pub kind: String,
    pub function: ToolFn,
}

/// The mathematical value of a [`ToolCall`].
pub struct ToolCallV {
    pub id: Seq<char>,
    pub kind: Seq<char>,
    pub name: Seq<char>,
    pub arguments: Seq<char>,
}

impl View for ToolCall {
    type V = ToolCallV;

    open spec fn view(&self) -> ToolCallV {
        ToolCallV {
            id: self.id@,
            kind: self.kind@,
            name: self.function.name@,
            arguments: self.function.arguments@,
        }
    }
}

/// One chat message. `content` is `None` for pure tool-call turns and for
/// assistant messages that only reasoned; tool responses carry `tool_call_id`.
#[derive(Debug, PartialEq)]
pub struct Msg {
    pub role: String,
    pub content: Option<String>,
    pub tool_calls: Option<Vec<ToolCall>>,
    pub tool_call_id: Option<String>,
    pub name: Option<String>,
}

/// The mathematical value of a [`Msg`].
pub struct MsgV {
    pub role: Seq<char>,
    pub content: Option<Seq<char>>,
    pub tool_calls: Option<Seq<ToolCallV>>,
    pub tool_call_id: Option<Seq<char>>,
    pub name: Option<Seq<char>>,
}

pub open spec fn calls_view(calls: Seq<ToolCall>) -> Seq<ToolCallV> {
    calls.map_values(|t: ToolCall| t@)
}

impl View for Msg {
    type V = MsgV;

    open spec fn view(&self) -> MsgV {
        MsgV {
            role: self.role@,
            content: self.content.deep_view(),
            tool_calls: match self.tool_calls {
                Some(v) => Some(calls_view(v@)),
                None => None,
            },
            tool_call_id: self.tool_call_id.deep_view(),
            name: self.name.deep_view(),
        }
    }
}

impl Msg {
    /// A system message.
    pub fn system(t: &str) -> (m: Msg)
        ensures
            m@ == (MsgV {
                role: "system"@,
                content: Some(t@),
                tool_calls: None,
                tool_call_id: None,
                name: None,
            }),
    {
        Msg {
            role: owned("system"),
            content: Some(owned(t)),
            tool_calls: None,
            tool_call_id: None,
            name: None,
        }
    }

    /// A user message.
    pub fn user(t: &str) -> (m: Msg)
        ensures
            m@ == (MsgV {
                role: "user"@,
                content: Some(t@),
                tool_calls: None,
                tool_call_id: None,
                name: None,
            }),
    {
        Msg {
            role: owned("user"),
            content: Some(owned(t)),
            tool_calls: None,
            tool_call_id: None,
            name: None,
        }
    }

    /// The answer to tool call `call_id` of tool `name`.
    pub fn tool_result(call_id: &str, name: &str, out: &str) -> (m: Msg)
        ensures
            m@ == (MsgV {
                role: "tool"@,
                content: Some(out@),
                tool_calls: None,
                tool_call_id: Some(call_id@),
                name: Some(name@),
            }),
    {
        Msg {
            role: owned("tool"),
            content: Some(owned(out)),
            tool_calls: None,
            tool_call_id: Some(owned(call_id)),
            name: Some(owned(name)),
        }
    }
}

/// A tool offered to the model: `{"type": "function", "function": {…}}`.
#[derive(Debug)]
pub struct ToolDef {
    /// the wire field `type`
    pub kind: String,
    /// JSON schema `{name, description, parameters}`
    pub function: Json,
}

impl ToolDef {
    /// A function tool with the given name, description and parameter schema.
    pub fn function(name: &str, description: &str, parameters: Json) -> (t: ToolDef)
        ensures
            t.kind@ == "function"@,
            t.function@ == JsonV::Obj(
                seq![
                    ("name"@, JsonV::Str(name@)),
                    ("description"@, JsonV::Str(description@)),
                    ("parameters"@, parameters@),
                ],
            ),
    {
        let mut fields = no_members();
        push_member(&mut fields, "name", jstr(name));
        push_member(&mut fields, "description", jstr(description));
        let ghost pv = parameters@;
        push_member(&mut fields, "parameters", parameters);
        assert(fields_view(fields@) =~= seq![
                    ("name"@, JsonV::Str(name@)),
                    ("description"@, JsonV::Str(description@)),
                    ("parameters"@, pv),
                ]);
        let t = ToolDef { kind: owned("function"), function: jobj(fields) };
        assert(t.function@ =~~= JsonV::Obj(seq![
                    ("name"@, JsonV::Str(name@)),
                    ("description"@, JsonV::Str(description@)),
                    ("parameters"@, parameters@),
                ]));
        t
    }
}

// --- JSON encoding of the wire types -------------------------------------------

/// A member present only when the value is (`skip_serializing_if = "Option::is_none"`).
pub open spec fn opt_str_member(key: Seq<char>, v: Option<Seq<char>>) -> Seq<(Seq<char>, JsonV)> {
    match v {
        Some(s) => seq![(key, JsonV::Str(s))],
        None => Seq::empty(),
    }
}

pub open spec fn tool_call_json(t: ToolCallV) -> JsonV {
    JsonV::Obj(
        seq![
            ("id"@, JsonV::Str(t.id)),
            ("type"@, JsonV::Str(t.kind)),
            (
                "function"@,
                JsonV::Obj(
                    seq![("name"@, JsonV::Str(t.name)), ("arguments"@, JsonV::Str(t.arguments))],
                ),
            ),
        ],
    )
}

/// The wire form of a message: `role`, then the optional members that are set.
pub open spec fn msg_json(m: MsgV) -> JsonV {
    JsonV::Obj(
        seq![("role"@, JsonV::Str(m.role))] + opt_str_member("content"@, m.content) + match m.tool_calls {
            Some(calls) => seq![("tool_calls"@, JsonV::Arr(calls.map_values(|t: ToolCallV| tool_call_json(t))))],
            None => Seq::empty(),
        } + opt_str_member("tool_call_id"@, m.tool_call_id) + opt_str_member("name"@, m.name),
    )
}

fn push_opt_str(fields: &mut Vec<(String, Json)>, key: &str, v: &Option<String>)
    ensures
        fields_view(final(fields)@) == fields_view(old(fields)@) + opt_str_member(key@, v.deep_view()),
{
    match v {
        Some(s) => {
            let m = member(key, jstr(s.as_str()));
            proof {
                lemma_fields_push(fields@, m);
            }
            fields.push(m);
            assert(fields_view(fields@) =~= fields_view(old(fields)@) + opt_str_member(
                key@,
                v.deep_view(),
            ));
        },
        None => {
            assert(fields_view(fields@) =~= fields_view(old(fields)@) + opt_str_member(
                key@,
                v.deep_view(),
            ));
        },
    }
}

/// The wire form of a tool call.
pub fn tool_call_to_json(t: &ToolCall) -> (j: Json)
    ensures
        j@ == tool_call_json(t@),
{
    let mut f = no_members();
    push_member(&mut f, "name", jstr(t.function.name.as_str()));
    push_member(&mut f, "arguments", jstr(t.function.arguments.as_str()));
    let mut fields = no_members();
    push_member(&mut fields, "id", jstr(t.id.as_str()));
    push_member(&mut fields, "type", jstr(t.kind.as_str()));
    assert(fields_view(f@) =~= seq![("name"@, JsonV::Str(t@.name)), ("arguments"@, JsonV::Str(t@.arguments))]);
    let fj = jobj(f);
    let ghost fv = fj@;
    push_member(&mut fields, "function", fj);
    assert(fields_view(fields@) =~= seq![
            ("id"@, JsonV::Str(t@.id)),
            ("type"@, JsonV::Str(t@.kind)),
            ("function"@, fv),
        ]);
    let j = jobj(fields);
    assert(j@ =~~= tool_call_json(t@));
    j
}

/// The wire form of a message.
pub fn msg_to_json(m: &Msg) -> (j: Json)
    ensures
        j@ == msg_json(m@),
{
    let mut fields: Vec<(String, Json)> = Vec::new();
    let role = member("role", jstr(m.role.as_str()));
    proof {
        lemma_fields_push(fields@, role);
    }
    fields.push(role);
    assert(fields_view(fields@) =~= seq![("role"@, JsonV::Str(m.role@))]);
    push_opt_str(&mut fields, "content", &m.content);
    let ghost before = fields_view(fields@);
    match &m.tool_calls {
        Some(calls) => {
            let mut items: Vec<Json> = Vec::new();
            let mut i: usize = 0;
            while i < calls.len()
                invariant
                    i <= calls.len(),
                    items_view(items@) == calls_view(calls@).take(i as int).map_values(
                        |t: ToolCallV| tool_call_json(t),
                    ),
                decreases calls.len() - i,
            {
                let x = tool_call_to_json(&calls[i]);
                proof {
                    lemma_items_push(items@, x);
                }
                items.push(x);
                assert(calls_view(calls@).take(i + 1).map_values(|t: ToolCallV| tool_call_json(t))
                    =~= calls_view(calls@).take(i as int).map_values(
                    |t: ToolCallV| tool_call_json(t),
                ).push(tool_call_json(calls@[i as int]@)));
                i += 1;
            }
            assert(calls_view(calls@).take(calls.len() as int) =~= calls_view(calls@));
            let tc = member("tool_calls", Json::Arr(items));
            proof {
                lemma_fields_push(fields@, tc);
            }
            fields.push(tc);
        },
        None => {},
    }
    let ghost mid = fields_view(fields@);
    assert(mid =~= before + match m@.tool_calls {
        Some(calls) => seq![("tool_calls"@, JsonV::Arr(calls.map_values(|t: ToolCallV| tool_call_json(t))))],
        None => Seq::<(Seq<char>, JsonV)>::empty(),
    });
    push_opt_str(&mut fields, "tool_call_id", &m.tool_call_id);
    push_opt_str(&mut fields, "name", &m.name);
    assert(fields_view(fields@) =~= seq![("role"@, JsonV::Str(m.role@))] + opt_str_member("content"@, m@.content) + match m@.tool_calls {
            Some(calls) => seq![("tool_calls"@, JsonV::Arr(calls.map_values(|t: ToolCallV| tool_call_json(t))))],
            None => Seq::<(Seq<char>, JsonV)>::empty(),
        } + opt_str_member("tool_call_id"@, m@.tool_call_id) + opt_str_member("name"@, m@.name));
    jobj(fields)
}

pub open spec fn tool_def_json(t: ToolDef) -> JsonV {
    JsonV::Obj(seq![("type"@, JsonV::Str(t.kind@)), ("function"@, t.function@)])
}

/// The body of a chat-completions request.
pub open spec fn body_json(
    model: Seq<char>,
    msgs: Seq<Msg>,
    tools: Option<Seq<ToolDef>>,
    max_tokens: u32,
    stream: bool,
) -> JsonV {
    JsonV::Obj(
        seq![
            ("model"@, JsonV::Str(model)),
            ("messages"@, JsonV::Arr(msgs.map_values(|m: Msg| msg_json(m@)))),
            ("max_tokens"@, JsonV::Num(Some(max_tokens as i64))),
            ("stream"@, JsonV::Bool(stream)),
        ] + match tools {
            Some(t) => seq![("tools"@, JsonV::Arr(t.map_values(|d: ToolDef| tool_def_json(d))))],
            None => Seq::empty(),
        },
    )
}

/// `{"model", "messages", "max_tokens", "stream"}` plus `"tools"` when given.
pub fn build_body(
    model: &str,
    msgs: &Vec<Msg>,
    tools: Option<&Vec<ToolDef>>,
    max_tokens: u32,
    stream: bool,
) -> (j: Json)
    ensures
        j@ == body_json(
            model@,
            msgs@,
            match tools {
                Some(t) => Some(t@),
                None => None,
            },
            max_tokens,
            stream,
        ),
{
    let mut ms: Vec<Json> = Vec::new();
    let mut i: usize = 0;
    while i < msgs.len()
        invariant
            i <= msgs.len(),
            items_view(ms@) == msgs@.take(i as int).map_values(|m: Msg| msg_json(m@)),
        decreases msgs.len() - i,
    {
        let x = msg_to_json(&msgs[i]);
        proof {
            lemma_items_push(ms@, x);
        }
        ms.push(x);
        assert(msgs@.take(i + 1).map_values(|m: Msg| msg_json(m@)) =~= msgs@.take(
            i as int,
        ).map_values(|m: Msg| msg_json(m@)).push(msg_json(msgs@[i as int]@)));
        i += 1;
    }
    assert(msgs@.take(msgs.len() as int) =~= msgs@);
    let mut fields = no_members();
    push_member(&mut fields, "model", jstr(model));
    let mj = Json::Arr(ms);
    let ghost mv = mj@;
    assert(mv == JsonV::Arr(msgs@.map_values(|m: Msg| msg_json(m@))));
    push_member(&mut fields, "messages", mj);
    push_member(&mut fields, "max_tokens", Json::Num(Some(max_tokens as i64)));
    push_member(&mut fields, "stream", Json::Bool(stream));
    assert(fields_view(fields@) =~= seq![
            ("model"@, JsonV::Str(model@)),
            ("messages"@, JsonV::Arr(msgs@.map_values(|m: Msg| msg_json(m@)))),
            ("max_tokens"@, JsonV::Num(Some(max_tokens as i64))),
            ("stream"@, JsonV::Bool(stream)),
        ]);
    let ghost base = fields_view(fields@);
    match tools {
        Some(t) => {
            let mut ds: Vec<Json> = Vec::new();
            let mut k: usize = 0;
            while k < t.len()
                invariant
                    k <= t.len(),
                    items_view(ds@) == t@.take(k as int).map_values(|d: ToolDef| tool_def_json(d)),
                decreases t.len() - k,
            {
                let mut df = no_members();
                push_member(&mut df, "type", jstr(t[k].kind.as_str()));
                let fc = copy_json(&t[k].function);
                let ghost fcv = fc@;
                push_member(&mut df, "function", fc);
                assert(fields_view(df@) =~= seq![("type"@, JsonV::Str(t@[k as int].kind@)), ("function"@, fcv)]);
                let x = jobj(df);
                assert(x@ =~~= tool_def_json(t@[k as int]));
                push_item(&mut ds, x);
                assert(t@.take(k + 1).map_values(|d: ToolDef| tool_def_json(d)) =~= t@.take(
                    k as int,
                ).map_values(|d: ToolDef| tool_def_json(d)).push(tool_def_json(t@[k as int])));
                k += 1;
            }
            assert(t@.take(t.len() as int) =~= t@);
            let tj = Json::Arr(ds);
            let ghost tv = tj@;
            assert(tv == JsonV::Arr(t@.map_values(|d: ToolDef| tool_def_json(d))));
            push_member(&mut fields, "tools", tj);
            assert(fields_view(fields@) =~= base + seq![("tools"@, JsonV::Arr(t@.map_values(|d: ToolDef| tool_def_json(d))))]);
        },
        None => {
            assert(fields_view(fields@) =~= base + Seq::<(Seq<char>, JsonV)>::empty());
        },
    }
    let j = jobj(fields);
    assert(j@ =~~= body_json(
        model@,
        msgs@,
        match tools {
            Some(t) => Some(t@),
            None => None,
        },
        max_tokens,
        stream,
    ));
    j
}

// --- reading replies ----------------------------------------------------------

/// Both members decoded as strings (a `{a, b}` object or an `[a, b]` array),
/// the way the derived decoder of a two-string struct reads a JSON value.
pub open spec fn two_strs(j: JsonV, a: Seq<char>, b: Seq<char>) -> Option<(Seq<char>, Seq<char>)> {
    match j {
        JsonV::Obj(_) => match (j.get(a), j.get(b)) {
            (Some(JsonV::Str(x)), Some(JsonV::Str(y))) => Some((x, y)),
            _ => None,
        },
        JsonV::Arr(items) => if items.len() == 2 {
            match (items[0], items[1]) {
                (JsonV::Str(x), JsonV::Str(y)) => Some((x, y)),
                _ => None,
            }
        } else {
            None
        },
        _ => None,
    }
}

/// A [`ToolCall`] decoded from JSON: `{id, type, function: {name, arguments}}`
/// (unknown members ignored) or the positional array form.
pub open spec fn tool_call_from(j: JsonV) -> Option<ToolCallV> {
    let parts = match j {
        JsonV::Obj(_) => match (j.get("id"@), j.get("type"@), j.get("function"@)) {
            (Some(JsonV::Str(id)), Some(JsonV::Str(kind)), Some(f)) => Some((id, kind, f)),
            _ => None,
        },
        JsonV::Arr(items) => if items.len() == 3 {
            match (items[0], items[1]) {
                (JsonV::Str(id), JsonV::Str(kind)) => Some((id, kind, items[2])),
                _ => None,
            }
        } else {
            None
        },
        _ => None,
    };
    match parts {
        Some((id, kind, f)) => match two_strs(f, "name"@, "arguments"@) {
            Some((name, arguments)) => Some(ToolCallV { id, kind, name, arguments }),
            None => None,
        },
        None => None,
    }
}

fn str_of(j: &Json) -> (r: Option<String>)
    ensures
        match r {
            Some(s) => j@ == JsonV::Str(s@),
            None => !(j@ is Str),
        },
{
    match j {
        Json::Str(s) => Some(s.clone()),
        _ => None,
    }
}

fn member_str(j: &Json, key: &str) -> (r: Option<String>)
    ensures
        match r {
            Some(s) => j@.get(key@) == Some(JsonV::Str(s@)),
            None => !(j@.get(key@) matches Some(JsonV::Str(_))),
        },
{
    match j.get(key) {
        Some(x) => str_of(x),
        None => None,
    }
}

fn two_strs_of(j: &Json, a: &str, b: &str) -> (r: Option<(String, String)>)
    ensures
        match r {
            Some(p) => two_strs(j@, a@, b@) == Some((p.0@, p.1@)),
            None => two_strs(j@, a@, b@) is None,
        },
{
    match j {
        Json::Obj(_) => match (member_str(j, a), member_str(j, b)) {
            (Some(x), Some(y)) => Some((x, y)),
            _ => None,
        },
        Json::Arr(items) => {
            proof {
                crate::json::lemma_items_view(items@);
            }
            if items.len() == 2 {
                match (str_of(&items[0]), str_of(&items[1])) {
                    (Some(x), Some(y)) => Some((x, y)),
                    _ => None,
                }
            } else {
                None
            }
        },
        _ => None,
    }
}

/// Decode a tool call (`serde_json::from_value::<ToolCall>`).
pub fn tool_call_of(j: &Json) -> (r: Option<ToolCall>)
    ensures
        match r {
            Some(t) => tool_call_from(j@) == Some(t@),
            None => tool_call_from(j@) is None,
        },
{
    let parts: Option<(String, String, &Json)> = match j {
        Json::Obj(_) => match (member_str(j, "id"), member_str(j, "type"), j.get("function")) {
            (Some(id), Some(kind), Some(f)) => Some((id, kind, f)),
            _ => None,
        },
        Json::Arr(items) => {
            proof {
                crate::json::lemma_items_view(items@);
            }
            if items.len() == 3 {
                match (str_of(&items[0]), str_of(&items[1])) {
                    (Some(id), Some(kind)) => Some((id, kind, &items[2])),
                    _ => None,
                }
            } else {
                None
            }
        },
        _ => None,
    };
    match parts {
        Some((id, kind, f)) => match two_strs_of(f, "name", "arguments") {
            Some((name, arguments)) => Some(
                ToolCall { id, kind, function: ToolFn { name, arguments } },
            ),
            None => None,
        },
        None => None,
    }
}

/// A tool call written to the wire reads back as itself.
pub proof fn lemma_tool_call_round_trip(t: ToolCallV)
    ensures
        tool_call_from(tool_call_json(t)) == Some(t),
{
    reveal_strlit("id");
    reveal_strlit("type");
    reveal_strlit("function");
    reveal_strlit("name");
    reveal_strlit("arguments");
    assert("id"@ != "type"@ && "id"@ != "function"@ && "type"@ != "function"@) by {
        assert("id"@.len() == 2 && "type"@.len() == 4 && "function"@.len() == 8);
    }
    assert("name"@ != "arguments"@) by {
        assert("name"@.len() == 4 && "arguments"@.len() == 9);
    }
    let f = seq![("name"@, JsonV::Str(t.name)), ("arguments"@, JsonV::Str(t.arguments))];
    assert(f.drop_first() =~= seq![("arguments"@, JsonV::Str(t.arguments))]);
    assert(crate::json::lookup(f, "name"@) == Some(JsonV::Str(t.name)));
    assert(crate::json::lookup(f.drop_first(), "arguments"@) == Some(JsonV::Str(t.arguments)));
    assert(crate::json::lookup(f, "arguments"@) == Some(JsonV::Str(t.arguments)));
    let fj = JsonV::Obj(f);
    let o = seq![("id"@, JsonV::Str(t.id)), ("type"@, JsonV::Str(t.kind)), ("function"@, fj)];
    let o1 = o.drop_first();
    let o2 = o1.drop_first();
    assert(o1 =~= seq![("type"@, JsonV::Str(t.kind)), ("function"@, fj)]);
    assert(o2 =~= seq![("function"@, fj)]);
    assert(crate::json::lookup(o, "id"@) == Some(JsonV::Str(t.id)));
    assert(crate::json::lookup(o1, "type"@) == Some(JsonV::Str(t.kind)));
    assert(crate::json::lookup(o, "type"@) == Some(JsonV::Str(t.kind)));
    assert(crate::json::lookup(o2, "function"@) == Some(fj));
    assert(crate::json::lookup(o1, "function"@) == Some(fj));
    assert(crate::json::lookup(o, "function"@) == Some(fj));
    assert(tool_call_json(t) == JsonV::Obj(o));
}

/// The decodable tool calls of `items`, in order (the others are dropped).
pub open spec fn decoded_calls(items: Seq<JsonV>) -> Seq<ToolCallV>
    decreases items.len(),
{
    if items.len() == 0 {
        Seq::empty()
    } else {
        let rest = decoded_calls(items.drop_last());
        match tool_call_from(items.last()) {
            Some(t) => rest.push(t),
            None => rest,
        }
    }
}

/// What a chat-completions reply means: the assistant message, or the
/// error text (the provider's `error.message` when there is no message).
pub open spec fn choice_of(v: JsonV) -> Result<MsgV, Seq<char>> {
    let msg = v.field("choices"@).item(0).field("message"@);
    if msg is Null {
        Err(
            match str_field(v.field("error"@), "message"@) {
                Some(e) => e,
                None => "unknown error"@,
            },
        )
    } else {
        let content = msg.field("content"@).as_str();
        let calls = match msg.field("tool_calls"@).as_array() {
            Some(items) => Some(decoded_calls(items)),
            None => None,
        };
        if content is None && calls is None {
            Err("message had neither content nor tool_calls"@)
        } else {
            Ok(
                MsgV {
                    role: "assistant"@,
                    content,
                    tool_calls: calls,
                    tool_call_id: None,
                    name: None,
                },
            )
        }
    }
}

proof fn lemma_decoded_calls_filter(items: Seq<JsonV>)
    ensures
        decoded_calls(items) == items.filter_map(|j: JsonV| tool_call_from(j)),
    decreases items.len(),
{
    if items.len() > 0 {
        lemma_decoded_calls_filter(items.drop_last());
        let rest = items.drop_last().filter_map(|j: JsonV| tool_call_from(j));
        match tool_call_from(items.last()) {
            Some(t) => {
                assert(rest.push(t) =~= rest + seq![t]);
            },
            None => {},
        }
    }
}

/// A reply's message keeps every tool call it carries that decodes as a
/// `ToolCall`, in order, and only those: when the message lists
/// `tool_calls`, the parsed message's calls are exactly the decodable
/// entries (so there are as many as entries that decode).
pub proof fn lemma_parsed_calls(v: JsonV)
    ensures
        ({
            let msg = v.field("choices"@).item(0).field("message"@);
            !(msg is Null) && (msg.field("tool_calls"@) is Arr) ==> (choice_of(v) matches Ok(m)
                && m.tool_calls == Some(
                match msg.field("tool_calls"@) {
                    JsonV::Arr(items) => items.filter_map(|j: JsonV| tool_call_from(j)),
                    _ => Seq::empty(),
                },
            ) && m.role == "assistant"@)
        }),
{
    let msg = v.field("choices"@).item(0).field("message"@);
    if let JsonV::Arr(items) = msg.field("tool_calls"@) {
        lemma_decoded_calls_filter(items);
    }
}

fn field_or_null<'a>(j: &'a Json, key: &str) -> (r: Option<&'a Json>)
    ensures
        match r {
            Some(x) => j@.field(key@) == x@,
            None => j@.field(key@) is Null,
        },
{
    j.get(key)
}

/// Read the assistant message out of a chat-completions reply.
pub fn parse_choice(v: &Json) -> (r: Result<Msg, String>)
    ensures
        match r {
            Ok(m) => choice_of(v@) == Ok::<MsgV, Seq<char>>(m@),
            Err(e) => choice_of(v@) == Err::<MsgV, Seq<char>>(e@),
        },
{
    let msg: Option<&Json> = match field_or_null(v, "choices") {
        Some(c) => match c.at(0) {
            Some(first) => field_or_null(first, "message"),
            None => None,
        },
        None => None,
    };
    let msg = match msg {
        Some(m) => {
            if m.is_null() {
                None
            } else {
                Some(m)
            }
        },
        None => None,
    };
    match msg {
        None => {
            let emsg = match field_or_null(v, "error") {
                Some(e) => crate::json::get_str(e, "message"),
                None => None,
            };
            match emsg {
                Some(e) => Err(e),
                None => Err(owned("unknown error")),
            }
        },
        Some(m) => {
            let content: Option<String> = match field_or_null(m, "content") {
                Some(c) => str_of(c),
                None => None,
            };
            let calls: Option<Vec<ToolCall>> = match field_or_null(m, "tool_calls") {
                Some(t) => match t.as_array() {
                    Some(items) => {
                        proof {
                            crate::json::lemma_items_view(items@);
                        }
                        let mut out: Vec<ToolCall> = Vec::new();
                        let mut i: usize = 0;
                        while i < items.len()
                            invariant
                                i <= items.len(),
                                items_view(items@).len() == items@.len(),
                                forall|k: int|
                                    0 <= k < items@.len() ==> #[trigger] items_view(items@)[k]
                                        == crate::json::json_view(items@[k]),
                                calls_view(out@) == decoded_calls(items_view(items@).take(i as int)),
                            decreases items.len() - i,
                        {
                            let ghost before = out@;
                            let ghost pre = items_view(items@).take(i as int);
                            assert(items_view(items@).take(i + 1).drop_last() =~= pre);
                            match tool_call_of(&items[i]) {
                                Some(tc) => {
                                    let ghost tv = tc@;
                                    out.push(tc);
                                    assert(calls_view(out@) =~= calls_view(before).push(tv));
                                },
                                None => {},
                            }
                            i += 1;
                        }
                        assert(items_view(items@).take(items.len() as int) =~= items_view(items@));
                        Some(out)
                    },
                    None => None,
                },
                None => None,
            };
            if content.is_none() && calls.is_none() {
                Err(owned("message had neither content nor tool_calls"))
            } else {
                Ok(
                    Msg {
                        role: owned("assistant"),
                        content,
                        tool_calls: calls,
                        tool_call_id: None,
                        name: None,
                    },
                )
            }
        },
    }
}

// --- the provider ring ------------------------------------------------------------

/// One model of one provider.
#[derive(Debug, PartialEq)]
pub struct Endpoint {
    pub provider_id: String,
    pub base_url: String,
    pub model: String,
    pub key: Option<String>,
}

/// The mathematical value of an [`Endpoint`].
pub struct EndpointV {
    pub provider_id: Seq<char>,
    pub base_url: Seq<char>,
    pub model: Seq<char>,
    pub key: Option<Seq<char>>,
}

impl View for Endpoint {
    type V = EndpointV;

    open spec fn view(&self) -> EndpointV {
        EndpointV {
            provider_id: self.provider_id@,
            base_url: self.base_url@,
            model: self.model@,
            key: self.key.deep_view(),
        }
    }
}

pub open spec fn eps_view(eps: Seq<Endpoint>) -> Seq<EndpointV> {
    eps.map_values(|e: Endpoint| e@)
}

/// Ring spans zen(5) + ovh(2) + llm7(1) + ollama.
pub const MAX_ATTEMPTS: usize = 8;

/// Pause between attempts, in milliseconds.
pub const BACKOFF_MS: u64 = 500;

/// The key a provider runs with: its keyring answer, when it names an account.
pub open spec fn effective_key(p: ProviderCfg, lookup: Option<Seq<char>>) -> Option<Seq<char>> {
    if p.key_account is Some {
        lookup
    } else {
        None
    }
}

/// A keyed provider whose keyring entry is missing is skipped.
pub open spec fn provider_usable(p: ProviderCfg, lookup: Option<Seq<char>>) -> bool {
    !(p.key_account is Some && lookup is None)
}

/// A usable provider with no configured models on localhost asks the
/// server for its model list.
pub open spec fn needs_discovery_spec(p: ProviderCfg, lookup: Option<Seq<char>>) -> bool {
    &&& provider_usable(p, lookup)
    &&& p.models@.len() == 0
    &&& exists|i: int| crate::text::occurs_at(p.base_url@, "localhost"@, i)
}

/// The models a provider contributes.
pub open spec fn provider_models(
    p: ProviderCfg,
    lookup: Option<Seq<char>>,
    discovered: Seq<Seq<char>>,
) -> Seq<Seq<char>> {
    if needs_discovery_spec(p, lookup) {
        discovered
    } else {
        p.models.deep_view()
    }
}

/// The endpoints a provider contributes: one per model, none when skipped.
pub open spec fn provider_endpoints(
    p: ProviderCfg,
    lookup: Option<Seq<char>>,
    discovered: Seq<Seq<char>>,
) -> Seq<EndpointV> {
    if !provider_usable(p, lookup) {
        Seq::empty()
    } else {
        provider_models(p, lookup, discovered).map_values(
            |m: Seq<char>|
                EndpointV {
                    provider_id: p.id@,
                    base_url: p.base_url@,
                    model: m,
                    key: effective_key(p, lookup),
                },
        )
    }
}

/// The endpoints of the providers that name a keyring account (`keyed`),
/// or of those that do not, in provider order.
pub open spec fn ring_group(
    ps: Seq<ProviderCfg>,
    lookups: Seq<Option<Seq<char>>>,
    discovered: Seq<Seq<Seq<char>>>,
    keyed: bool,
) -> Seq<EndpointV>
    decreases ps.len(),
{
    if ps.len() == 0 {
        Seq::empty()
    } else {
        ring_group(ps.drop_last(), lookups.drop_last(), discovered.drop_last(), keyed) + if (
        ps.last().key_account is Some) == keyed {
            provider_endpoints(ps.last(), lookups.last(), discovered.last())
        } else {
            Seq::empty()
        }
    }
}

/// Which models a provider contributes: none when it names a keyring
/// account whose entry is missing; otherwise one endpoint per configured
/// model, in order, whatever its url and whatever a server listed; only a
/// provider with no configured models on `localhost` uses the listed ones.
pub proof fn lemma_provider_models(p: ProviderCfg, lookup: Option<Seq<char>>, discovered: Seq<Seq<char>>)
    ensures
        p.key_account is Some && lookup is None ==> provider_endpoints(p, lookup, discovered).len() == 0,
        !(p.key_account is Some && lookup is None) && p.models@.len() > 0 ==> {
            let eps = provider_endpoints(p, lookup, discovered);
            &&& eps.len() == p.models@.len()
            &&& forall|i: int|
                0 <= i < eps.len() ==> (#[trigger] eps[i]).model == p.models@[i]@ && eps[i].provider_id
                    == p.id@ && eps[i].base_url == p.base_url@
        },
        !(p.key_account is Some && lookup is None) && p.models@.len() == 0 && (exists|j: int|
            crate::text::occurs_at(p.base_url@, "localhost"@, j)) ==> {
            let eps = provider_endpoints(p, lookup, discovered);
            &&& eps.len() == discovered.len()
            &&& forall|i: int| 0 <= i < eps.len() ==> (#[trigger] eps[i]).model == discovered[i]
        },
{
    if !(p.key_account is Some && lookup is None) && p.models@.len() > 0 {
        assert(p.models.deep_view().len() == p.models@.len());
        let eps = provider_endpoints(p, lookup, discovered);
        assert forall|i: int| 0 <= i < eps.len() implies (#[trigger] eps[i]).model == p.models@[i]@
            && eps[i].provider_id == p.id@ && eps[i].base_url == p.base_url@ by {
            assert(p.models.deep_view()[i] == p.models@[i]@);
        }
    }
}

/// The ring: the keyed providers' endpoints first, then the keyless ones,
/// each group in provider order.
pub open spec fn ring_spec(
    ps: Seq<ProviderCfg>,
    lookups: Seq<Option<Seq<char>>>,
    discovered: Seq<Seq<Seq<char>>>,
) -> Seq<EndpointV> {
    ring_group(ps, lookups, discovered, true) + ring_group(ps, lookups, discovered, false)
}

/// The endpoints of the keyed group carry a key; those of the keyless
/// group do not.
proof fn lemma_group_keys(
    ps: Seq<ProviderCfg>,
    lookups: Seq<Option<Seq<char>>>,
    discovered: Seq<Seq<Seq<char>>>,
    keyed: bool,
)
    ensures
        forall|k: int|
            0 <= k < ring_group(ps, lookups, discovered, keyed).len() ==> (#[trigger] ring_group(
                ps,
                lookups,
                discovered,
                keyed,
            )[k].key is Some) == keyed,
    decreases ps.len(),
{
    if ps.len() > 0 {
        let front = ring_group(ps.drop_last(), lookups.drop_last(), discovered.drop_last(), keyed);
        lemma_group_keys(ps.drop_last(), lookups.drop_last(), discovered.drop_last(), keyed);
        let g = ring_group(ps, lookups, discovered, keyed);
        assert forall|k: int| 0 <= k < g.len() implies (#[trigger] g[k].key is Some) == keyed by {
            if k < front.len() {
                assert(g[k] == front[k]);
            }
        }
    }
}

/// Keyed providers take precedence: in the ring, no endpoint with a key
/// comes after one without.
pub proof fn lemma_keyed_first(
    ps: Seq<ProviderCfg>,
    lookups: Seq<Option<Seq<char>>>,
    discovered: Seq<Seq<Seq<char>>>,
)
    ensures
        forall|i: int, j: int|
            0 <= i < j < ring_spec(ps, lookups, discovered).len() && (#[trigger] ring_spec(
                ps,
                lookups,
                discovered,
            )[i]).key is None ==> (#[trigger] ring_spec(ps, lookups, discovered)[j]).key is None,
{
    let a = ring_group(ps, lookups, discovered, true);
    let b = ring_group(ps, lookups, discovered, false);
    lemma_group_keys(ps, lookups, discovered, true);
    lemma_group_keys(ps, lookups, discovered, false);
    let r = ring_spec(ps, lookups, discovered);
    assert forall|i: int, j: int| 0 <= i < j < r.len() && (#[trigger] r[i]).key is None implies (
    #[trigger] r[j]).key is None by {
        if i < a.len() {
            assert(r[i] == a[i]);
        } else {
            assert(r[i] == b[i - a.len()]);
            assert(r[j] == b[j - a.len()]);
        }
    }
}

fn clone_opt(o: &Option<String>) -> (r: Option<String>)
    ensures
        r.deep_view() == o.deep_view(),
{
    match o {
        Some(s) => Some(s.clone()),
        None => None,
    }
}

/// Whether the provider's model list must be asked from the server
/// (`GET {base_url}/models`) before the ring can be built.
pub fn needs_discovery(p: &ProviderCfg, lookup: &Option<String>) -> (r: bool)
    ensures
        r == needs_discovery_spec(*p, lookup.deep_view()),
{
    !(p.key_account.is_some() && lookup.is_none()) && p.models.len() == 0 && crate::text::contains(
        p.base_url.as_str(),
        "localhost",
    )
}

/// Why a provider contributes no endpoint, when it does not: a keyed
/// provider without its keyring entry, or a local server that listed no
/// models.
pub open spec fn skip_reason(p: ProviderCfg, lookup: Option<Seq<char>>, discovered: Seq<Seq<char>>) -> Option<
    Seq<char>,
> {
    if !provider_usable(p, lookup) {
        Some("LLM: "@ + p.id@ + " has no keyring entry — skipped"@)
    } else if needs_discovery_spec(p, lookup) && discovered.len() == 0 {
        Some("LLM: "@ + p.id@ + " unreachable / no models — skipped"@)
    } else {
        None
    }
}

/// The note printed for a provider that is skipped.
pub fn skip_note(p: &ProviderCfg, lookup: &Option<String>, discovered: &Vec<String>) -> (r: Option<String>)
    ensures
        r.deep_view() == skip_reason(*p, lookup.deep_view(), discovered.deep_view()),
{
    if p.key_account.is_some() && lookup.is_none() {
        let mut t = owned("LLM: ");
        t.append(p.id.as_str());
        t.append(" has no keyring entry — skipped");
        Some(t)
    } else if needs_discovery(p, lookup) && discovered.len() == 0 {
        let mut t = owned("LLM: ");
        t.append(p.id.as_str());
        t.append(" unreachable / no models — skipped");
        Some(t)
    } else {
        None
    }
}

/// The note printed for each endpoint of the ring: `LLM: endpoint
/// provider:model`, and ` (keyed)` when it has a key.
pub fn endpoint_note(e: &Endpoint) -> (r: String)
    ensures
        r@ == "LLM: endpoint "@ + label(e@) + if e.key is Some {
            " (keyed)"@
        } else {
            Seq::empty()
        },
{
    let mut t = owned("LLM: endpoint ");
    let l = label_of(e);
    t.append(l.as_str());
    if e.key.is_some() {
        t.append(" (keyed)");
    }
    t
}

/// The endpoints of one provider given its keyring answer and discovered models.
pub fn endpoints_for(p: &ProviderCfg, lookup: &Option<String>, discovered: &Vec<String>) -> (r: Vec<
    Endpoint,
>)
    ensures
        eps_view(r@) == provider_endpoints(*p, lookup.deep_view(), discovered.deep_view()),
{
    let mut out: Vec<Endpoint> = Vec::new();
    if p.key_account.is_some() && lookup.is_none() {
        assert(eps_view(out@) =~= Seq::<EndpointV>::empty());
        return out;
    }
    let models = if needs_discovery(p, lookup) {
        discovered
    } else {
        &p.models
    };
    let ghost ms = provider_models(*p, lookup.deep_view(), discovered.deep_view());
    assert(models.deep_view() == ms);
    let key = if p.key_account.is_some() {
        clone_opt(lookup)
    } else {
        None
    };
    let mut i: usize = 0;
    while i < models.len()
        invariant
            i <= models.len(),
            models.deep_view() == ms,
            key.deep_view() == effective_key(*p, lookup.deep_view()),
            provider_usable(*p, lookup.deep_view()),
            eps_view(out@) == ms.take(i as int).map_values(
                |m: Seq<char>|
                    EndpointV {
                        provider_id: p.id@,
                        base_url: p.base_url@,
                        model: m,
                        key: effective_key(*p, lookup.deep_view()),
                    },
            ),
        decreases models.len() - i,
    {
        let e = Endpoint {
            provider_id: p.id.clone(),
            base_url: p.base_url.clone(),
            model: models[i].clone(),
            key: clone_opt(&key),
        };
        let ghost before = out@;
        out.push(e);
        assert(ms[i as int] == models@[i as int]@);
        assert(eps_view(out@) =~= eps_view(before).push(out@.last()@));
        assert(ms.take(i + 1) =~= ms.take(i as int).push(ms[i as int]));
        i += 1;
    }
    assert(ms.take(models.len() as int) =~= ms);
    out
}

/// Build the ring from the providers, each one's keyring answer (`None`
/// for keyless providers or a missing entry) and each one's discovered
/// models (consulted only when `needs_discovery`): keyed providers first,
/// models flattened. An empty ring is an error.
pub fn build_ring(
    providers: &Vec<ProviderCfg>,
    lookups: &Vec<Option<String>>,
    discovered: &Vec<Vec<String>>,
) -> (r: Result<Vec<Endpoint>, String>)
    requires
        lookups.len() == providers.len(),
        discovered.len() == providers.len(),
    ensures
        match r {
            Ok(ring) => eps_view(ring@) == ring_spec(
                providers@,
                lookups.deep_view(),
                discovered.deep_view(),
            ) && ring@.len() > 0,
            Err(e) => ring_spec(providers@, lookups.deep_view(), discovered.deep_view()).len() == 0
                && e@ == "no usable LLM endpoints (keyed providers missing keys, ollama down)"@,
        },
{
    let mut keyed: Vec<Endpoint> = Vec::new();
    let mut plain: Vec<Endpoint> = Vec::new();
    let mut i: usize = 0;
    assert(providers@.take(0) =~= Seq::<ProviderCfg>::empty());
    while i < providers.len()
        invariant
            i <= providers.len(),
            lookups.len() == providers.len(),
            discovered.len() == providers.len(),
            eps_view(keyed@) == ring_group(
                providers@.take(i as int),
                lookups.deep_view().take(i as int),
                discovered.deep_view().take(i as int),
                true,
            ),
            eps_view(plain@) == ring_group(
                providers@.take(i as int),
                lookups.deep_view().take(i as int),
                discovered.deep_view().take(i as int),
                false,
            ),
        decreases providers.len() - i,
    {
        let mut es = endpoints_for(&providers[i], &lookups[i], &discovered[i]);
        let ghost kb = keyed@;
        let ghost pb = plain@;
        let ghost esv = es@;
        let is_keyed = providers[i].key_account.is_some();
        if is_keyed {
            keyed.append(&mut es);
            assert(eps_view(keyed@) =~= eps_view(kb) + eps_view(esv));
        } else {
            plain.append(&mut es);
            assert(eps_view(plain@) =~= eps_view(pb) + eps_view(esv));
        }
        proof {
            let n = i as int;
            let ps = providers@.take(n + 1);
            let ls = lookups.deep_view().take(n + 1);
            let ds = discovered.deep_view().take(n + 1);
            assert(ps.drop_last() =~= providers@.take(n));
            assert(ls.drop_last() =~= lookups.deep_view().take(n));
            assert(ds.drop_last() =~= discovered.deep_view().take(n));
            assert(ls.last() == lookups@[n].deep_view());
            assert(ds.last() == discovered@[n].deep_view());
            assert(ps.last() == providers@[n]);
            if is_keyed {
                assert(eps_view(plain@) =~= eps_view(pb) + Seq::<EndpointV>::empty());
            } else {
                assert(eps_view(keyed@) =~= eps_view(kb) + Seq::<EndpointV>::empty());
            }
        }
        i += 1;
    }
    proof {
        assert(providers@.take(providers.len() as int) =~= providers@);
        assert(lookups.deep_view().take(providers.len() as int) =~= lookups.deep_view());
        assert(discovered.deep_view().take(providers.len() as int) =~= discovered.deep_view());
    }
    let ghost kv = keyed@;
    let ghost pv = plain@;
    keyed.append(&mut plain);
    assert(eps_view(keyed@) =~= eps_view(kv) + eps_view(pv));
    if keyed.len() == 0 {
        Err(owned("no usable LLM endpoints (keyed providers missing keys, ollama down)"))
    } else {
        Ok(keyed)
    }
}

/// Where a local server lists its models: `{base_url}/models`.
pub fn models_url(base_url: &str) -> (r: String)
    ensures
        r@ == base_url@ + "/models"@,
{
    crate::text::join_str(base_url, "/models")
}

/// The model ids a local server lists: `data[].id` (missing entries skipped).
pub open spec fn listed_ids(items: Seq<JsonV>) -> Seq<Seq<char>>
    decreases items.len(),
{
    if items.len() == 0 {
        Seq::empty()
    } else {
        let rest = listed_ids(items.drop_last());
        match items.last().field("id"@).as_str() {
            Some(id) => rest.push(id),
            None => rest,
        }
    }
}

pub open spec fn models_reply_ids(v: JsonV) -> Seq<Seq<char>> {
    match v.field("data"@).as_array() {
        Some(items) => listed_ids(items),
        None => Seq::empty(),
    }
}

/// The model ids in a `GET /models` reply.
pub fn model_ids(v: &Json) -> (r: Vec<String>)
    ensures
        r.deep_view() == models_reply_ids(v@),
{
    let mut out: Vec<String> = Vec::new();
    match v.get("data") {
        Some(d) => match d.as_array() {
            Some(items) => {
                proof {
                    crate::json::lemma_items_view(items@);
                }
                let mut i: usize = 0;
                while i < items.len()
                    invariant
                        i <= items.len(),
                        items_view(items@).len() == items@.len(),
                        forall|k: int|
                            0 <= k < items@.len() ==> #[trigger] items_view(items@)[k]
                                == crate::json::json_view(items@[k]),
                        out.deep_view() == listed_ids(items_view(items@).take(i as int)),
                    decreases items.len() - i,
                {
                    let ghost before = out.deep_view();
                    assert(items_view(items@).take(i + 1).drop_last() =~= items_view(items@).take(
                        i as int,
                    ));
                    match crate::json::get_str(&items[i], "id") {
                        Some(id) => {
                            let ghost idv = id@;
                            out.push(id);
                            assert(out.deep_view() =~= before.push(idv));
                        },
                        None => {},
                    }
                    i += 1;
                }
                assert(items_view(items@).take(items.len() as int) =~= items_view(items@));
            },
            None => {
                assert(out.deep_view() =~= Seq::<Seq<char>>::empty());
            },
        },
        None => {
            assert(out.deep_view() =~= Seq::<Seq<char>>::empty());
        },
    }
    out
}

/// `s` read from position `k` on, wrapping around to its start.
pub open spec fn rotation<T>(s: Seq<T>, k: int) -> Seq<T> {
    s.skip(k) + s.take(k)
}

/// Position `i` of a rotation by `k` is position `(k + i) mod len` of `s`.
pub proof fn lemma_rotation_index<T>(s: Seq<T>, k: int, i: int)
    requires
        0 <= k < s.len(),
        0 <= i < s.len(),
    ensures
        rotation(s, k).len() == s.len(),
        rotation(s, k)[i] == s[(k + i) % (s.len() as int)],
{
    let n = s.len() as int;
    if k + i < n {
        vstd::arithmetic::div_mod::lemma_small_mod((k + i) as nat, n as nat);
    } else {
        vstd::arithmetic::div_mod::lemma_small_mod((k + i - n) as nat, n as nat);
        vstd::arithmetic::div_mod::lemma_mod_sub_multiples_vanish(k + i, n);
    }
}

/// Where the ring starts after `start` failures.
pub open spec fn ring_offset(len: nat, start: usize) -> int {
    if len == 0 {
        0
    } else {
        start as int % len as int
    }
}

/// The endpoint ring with its rotation point, which advances past
/// endpoints that failed.
#[derive(Debug)]
pub struct LlmRing {
    pub ring: Vec<Endpoint>,
    pub start: usize,
}

fn clone_endpoint(e: &Endpoint) -> (r: Endpoint)
    ensures
        r@ == e@,
{
    Endpoint {
        provider_id: e.provider_id.clone(),
        base_url: e.base_url.clone(),
        model: e.model.clone(),
        key: clone_opt(&e.key),
    }
}

impl LlmRing {
    /// A ring that starts at its first endpoint.
    pub fn new(ring: Vec<Endpoint>) -> (r: LlmRing)
        ensures
            r.ring == ring,
            r.start == 0,
    {
        LlmRing { ring, start: 0 }
    }

    /// The ring in attempt order: from the rotation point on, then wrapping.
    pub open spec fn ordered_spec(&self) -> Seq<EndpointV> {
        rotation(eps_view(self.ring@), ring_offset(self.ring@.len(), self.start))
    }

    /// The endpoints in attempt order.
    pub fn ordered(&self) -> (r: Vec<Endpoint>)
        ensures
            eps_view(r@) == self.ordered_spec(),
    {
        let n = self.ring.len();
        let s = if n == 0 {
            0
        } else {
            self.start % n
        };
        let mut out: Vec<Endpoint> = Vec::new();
        let mut i: usize = s;
        while i < n
            invariant
                s <= i <= n,
                n == self.ring@.len(),
                eps_view(out@) == eps_view(self.ring@).subrange(s as int, i as int),
            decreases n - i,
        {
            let ghost before = out@;
            let e = clone_endpoint(&self.ring[i]);
            out.push(e);
            assert(eps_view(out@) =~= eps_view(before).push(self.ring@[i as int]@));
            assert(eps_view(out@) =~= eps_view(self.ring@).subrange(s as int, i + 1));
            i += 1;
        }
        let mut j: usize = 0;
        while j < s
            invariant
                j <= s <= n,
                n == self.ring@.len(),
                eps_view(out@) == eps_view(self.ring@).subrange(s as int, n as int) + eps_view(
                    self.ring@,
                ).take(j as int),
            decreases s - j,
        {
            let ghost before = out@;
            let e = clone_endpoint(&self.ring[j]);
            out.push(e);
            assert(eps_view(out@) =~= eps_view(before).push(self.ring@[j as int]@));
            assert(eps_view(out@) =~= eps_view(self.ring@).subrange(s as int, n as int) + eps_view(
                self.ring@,
            ).take(j + 1));
            j += 1;
        }
        assert(eps_view(out@) =~= self.ordered_spec());
        out
    }

    /// Demote the endpoint that failed: the next turn starts one further on.
    pub fn note_failure(&mut self)
        ensures
            final(self).ring == old(self).ring,
            final(self).start == (if old(self).start == usize::MAX {
                0
            } else {
                old(self).start + 1
            }),
    {
        self.start = self.start.wrapping_add(1);
    }
}

/// Advancing a rotation point by one rotates the rotated sequence by one.
pub proof fn lemma_rotate_step<T>(s: Seq<T>, start: int)
    requires
        s.len() > 0,
        start >= 0,
    ensures
        rotation(s, (start + 1) % (s.len() as int)) == rotation(rotation(s, start % (s.len() as int)), 1),
{
    let n = s.len() as int;
    let k0 = start % n;
    let k1 = (start + 1) % n;
    vstd::arithmetic::div_mod::lemma_mod_bound(start, n);
    vstd::arithmetic::div_mod::lemma_mod_bound(start + 1, n);
    let o = rotation(s, k0);
    lemma_rotation_index_len(s, k0);
    assert(o.len() == n);
    assert forall|i: int| 0 <= i < n implies #[trigger] rotation(s, k1)[i] == rotation(o, 1)[i] by {
        lemma_rotation_index(s, k1, i);
        let j = (1 + i) % n;
        lemma_rotation_index(o, if n == 1 { 0 } else { 1 }, i);
        if n == 1 {
            assert(rotation(o, 1) =~= o);
            assert(k1 == 0 && k0 == 0);
            lemma_rotation_index(s, k0, i);
        } else {
            vstd::arithmetic::div_mod::lemma_mod_bound(1 + i, n);
            lemma_rotation_index(s, k0, j);
            vstd::arithmetic::div_mod::lemma_add_mod_noop(start, 1, n);
            vstd::arithmetic::div_mod::lemma_add_mod_noop(start, 1 + i, n);
            vstd::arithmetic::div_mod::lemma_add_mod_noop(start + 1, i, n);
            vstd::arithmetic::div_mod::lemma_small_mod(1, n as nat);
            vstd::arithmetic::div_mod::lemma_small_mod(i as nat, n as nat);
            vstd::arithmetic::div_mod::lemma_mod_twice(start + 1 + i, n);
        }
    }
    lemma_rotation_index_len(s, k1);
    assert(rotation(s, k1) =~= rotation(o, 1));
}

/// A rotation holds the same items as the sequence it rotates.
pub proof fn lemma_rotation_same_items<T>(s: Seq<T>, k: int)
    requires
        0 <= k <= s.len(),
    ensures
        rotation(s, k).to_multiset() == s.to_multiset(),
{
    assert(s =~= s.take(k) + s.skip(k));
    vstd::seq_lib::lemma_seq_union_to_multiset_commutative(s.skip(k), s.take(k));
}

/// A turn's attempt order holds every endpoint of the ring exactly as often
/// as the ring does.
pub proof fn lemma_ordered_is_permutation(r: LlmRing)
    ensures
        r.ordered_spec().to_multiset() == eps_view(r.ring@).to_multiset(),
{
    let s = eps_view(r.ring@);
    if s.len() > 0 {
        vstd::arithmetic::div_mod::lemma_mod_bound(r.start as int, s.len() as int);
    }
    lemma_rotation_same_items(s, ring_offset(r.ring@.len(), r.start));
}

/// Each failure turns the attempt order one step further: the ring after
/// `note_failure` is tried in the order it had before, rotated by one.
/// (At `start == usize::MAX` the counter wraps to 0 instead.)
pub proof fn lemma_failure_rotates(before: LlmRing, after: LlmRing)
    requires
        after.ring == before.ring,
        after.start == before.start + 1,
        before.ring@.len() > 0,
    ensures
        after.ordered_spec() == rotation(before.ordered_spec(), 1),
{
    lemma_rotate_step(eps_view(before.ring@), before.start as int);
}

/// A rotation is as long as the sequence it rotates.
pub proof fn lemma_rotation_index_len<T>(s: Seq<T>, k: int)
    requires
        0 <= k <= s.len(),
    ensures
        rotation(s, k).len() == s.len(),
{
}

/// How many endpoints one turn tries.
pub fn attempts_for(len: usize) -> (r: usize)
    ensures
        r == (if len < MAX_ATTEMPTS {
            len
        } else {
            MAX_ATTEMPTS
        }),
{
    if len < MAX_ATTEMPTS {
        len
    } else {
        MAX_ATTEMPTS
    }
}

// --- one chat turn ---------------------------------------------------------------

/// What came back from one endpoint.
#[derive(Debug)]
pub enum Reply {
    /// the request could not be sent or answered; the error text
    Network(String),
    /// a non-success HTTP status (its text, e.g. "429 Too Many Requests") and the body
    Status { status: String, body: String },
    /// a success status and its body (non-streaming turns)
    Body(String),
    /// a success status with the event stream open (streaming turns)
    Opened,
}

/// `provider:model`.
pub open spec fn label(e: EndpointV) -> Seq<char> {
    e.provider_id + ":"@ + e.model
}

/// The `provider:model` label of an endpoint.
pub fn label_of(e: &Endpoint) -> (r: String)
    ensures
        r@ == label(e@),
{
    let mut lab = e.provider_id.clone();
    lab.append(":");
    lab.append(e.model.as_str());
    lab
}

/// What a reply from endpoint `e` means: `Ok(Some(m))` the turn is answered,
/// `Ok(None)` the stream is open, `Err(text)` the endpoint failed.
pub open spec fn reply_outcome(stream: bool, e: EndpointV, r: Reply) -> Result<Option<MsgV>, Seq<char>> {
    match r {
        Reply::Network(err) => Err(label(e) + " network: "@ + err@),
        Reply::Status { status, body } => if stream {
            Err(label(e) + " HTTP "@ + status@)
        } else {
            Err(label(e) + " HTTP "@ + status@ + " "@ + truncated(body@, 200))
        },
        Reply::Body(text) => match crate::json::json_text(text@) {
            Some(v) => match choice_of(v) {
                Ok(m) => Ok(Some(m)),
                Err(x) => Err(label(e) + " bad payload: "@ + x),
            },
            None => Err(label(e) + " non-json reply ("@ + crate::json::json_error(text@) + ")"@),
        },
        Reply::Opened => Ok(None),
    }
}

/// The replies a turn can get: a streaming turn never reads a body, a
/// plain one never opens a stream; an error status body is cut at 200 bytes,
/// which must fall between characters.
pub open spec fn reply_fits(stream: bool, r: Reply) -> bool {
    match r {
        Reply::Network(_) => true,
        Reply::Status { status, body } => stream || truncate_defined(body@, 200),
        Reply::Body(_) => !stream,
        Reply::Opened => stream,
    }
}

/// What the turn does next.
#[derive(Debug, PartialEq)]
pub enum ChatStep {
    /// answered: the assistant message and the `provider:model` used
    Done(Msg, String),
    /// streaming from `provider:model`
    Streaming(String),
    /// the endpoint failed (see `last_err`); pause `BACKOFF_MS`, then try
    /// `current()` or give up
    Retry,
}

/// One chat turn across the ring: which endpoint to try, what each reply
/// means, when to give up.
#[derive(Debug)]
pub struct ChatRun {
    pub eps: Vec<Endpoint>,
    pub attempts: usize,
    pub tried: usize,
    pub last_err: String,
    pub stream: bool,
}

fn cat(s: &mut String, b: &str)
    ensures
        final(s)@ == old(s)@ + b@,
{
    s.append(b);
}

impl ChatRun {
    pub open spec fn wf(&self) -> bool {
        &&& self.attempts <= self.eps@.len()
        &&& self.tried <= self.attempts
    }

    /// Start a turn on the ring's current order.
    pub fn start(ring: &LlmRing, stream: bool) -> (r: ChatRun)
        ensures
            r.wf(),
            eps_view(r.eps@) == ring.ordered_spec(),
            r.attempts == (if r.eps@.len() < MAX_ATTEMPTS {
                r.eps@.len()
            } else {
                MAX_ATTEMPTS as nat
            }),
            r.tried == 0,
            r.last_err@ == Seq::<char>::empty(),
            r.stream == stream,
    {
        let eps = ring.ordered();
        let attempts = attempts_for(eps.len());
        ChatRun { eps, attempts, tried: 0, last_err: String::new(), stream }
    }

    /// The endpoint to send to next, if any attempt is left.
    pub fn current(&self) -> (r: Option<&Endpoint>)
        requires
            self.wf(),
        ensures
            match r {
                Some(e) => self.tried < self.attempts && *e == self.eps@[self.tried as int],
                None => self.tried >= self.attempts,
            },
    {
        if self.tried < self.attempts {
            Some(&self.eps[self.tried])
        } else {
            None
        }
    }

    /// Take the reply of the current endpoint. A failure is recorded in
    /// `last_err` and demotes the endpoint in the ring.
    pub fn answer(&mut self, ring: &mut LlmRing, reply: Reply) -> (step: ChatStep)
        requires
            old(self).wf(),
            old(self).tried < old(self).attempts,
            reply_fits(old(self).stream, reply),
        ensures
            final(self).wf(),
            final(self).eps == old(self).eps,
            final(self).attempts == old(self).attempts,
            final(self).stream == old(self).stream,
            ({
                let e = old(self).eps@[old(self).tried as int]@;
                match reply_outcome(old(self).stream, e, reply) {
                    Ok(Some(m)) => step matches ChatStep::Done(msg, used) && msg@ == m && used@ == label(e)
                        && *final(ring) == *old(ring) && final(self).tried == old(self).tried
                        && final(self).last_err == old(self).last_err,
                    Ok(None) => step matches ChatStep::Streaming(used) && used@ == label(e)
                        && *final(ring) == *old(ring) && final(self).tried == old(self).tried
                        && final(self).last_err == old(self).last_err,
                    Err(text) => step is Retry && final(self).last_err@ == text
                        && final(self).tried == old(self).tried + 1
                        && final(ring).ring == old(ring).ring
                        && final(ring).start == (if old(ring).start == usize::MAX {
                        0
                    } else {
                        old(ring).start + 1
                    }),
                }
            }),
    {
        let ep = &self.eps[self.tried];
        let lab = label_of(ep);
        let err: String = match reply {
            Reply::Network(e) => {
                let mut t = lab;
                cat(&mut t, " network: ");
                cat(&mut t, e.as_str());
                t
            },
            Reply::Status { status, body } => {
                let mut t = lab;
                cat(&mut t, " HTTP ");
                cat(&mut t, status.as_str());
                if !self.stream {
                    cat(&mut t, " ");
                    let cut = truncate(body.as_str(), 200);
                    cat(&mut t, cut.as_str());
                }
                t
            },
            Reply::Body(text) => match crate::json::parse_json(text.as_str()) {
                Ok(v) => match parse_choice(&v) {
                    Ok(m) => {
                        return ChatStep::Done(m, lab);
                    },
                    Err(x) => {
                        let mut t = lab;
                        cat(&mut t, " bad payload: ");
                        cat(&mut t, x.as_str());
                        t
                    },
                },
                Err(e) => {
                    let mut t = lab;
                    cat(&mut t, " non-json reply (");
                    cat(&mut t, e.as_str());
                    cat(&mut t, ")");
                    t
                },
            },
            Reply::Opened => {
                return ChatStep::Streaming(lab);
            },
        };
        self.last_err = err;
        self.tried = self.tried + 1;
        ring.note_failure();
        ChatStep::Retry
    }

    /// The error once every attempt failed.
    pub fn give_up(&self) -> (r: String)
        ensures
            r@ == (if self.stream {
                "all LLM endpoints failed (stream); last: "@
            } else {
                "all LLM endpoints failed; last: "@
            }) + self.last_err@,
    {
        let mut r = if self.stream {
            owned("all LLM endpoints failed (stream); last: ")
        } else {
            owned("all LLM endpoints failed; last: ")
        };
        r.append(self.last_err.as_str());
        r
    }
}

// --- requests ------------------------------------------------------------------

/// How to send a chat-completions request to an endpoint.
#[derive(Debug)]
pub struct RequestPlan {
    pub url: String,
    pub headers: Vec<(String, String)>,
    /// bearer token, when the endpoint is keyed
    pub bearer: Option<String>,
}

pub open spec fn headers_view(h: Seq<(String, String)>) -> Seq<(Seq<char>, Seq<char>)> {
    h.map_values(|p: (String, String)| (p.0@, p.1@))
}

/// The request for endpoint `e`: `{base_url without trailing '/'}/chat/completions`,
/// JSON content type, the zen client headers, and an event-stream accept
/// header when streaming.
pub fn request_plan(e: &Endpoint, stream: bool) -> (r: RequestPlan)
    ensures
        r.url@ == trim_end_class(e.base_url@, CharClass::Exactly('/')) + "/chat/completions"@,
        headers_view(r.headers@) == seq![
            ("Content-Type"@, "application/json"@),
            ("x-opencode-client"@, "desktop"@),
            ("User-Agent"@, "opencode"@),
        ] + if stream {
            seq![("Accept"@, "text/event-stream"@)]
        } else {
            Seq::empty()
        },
        r.bearer.deep_view() == e.key.deep_view(),
{
    let mut url = crate::text::trim_end_char(e.base_url.as_str(), '/');
    url.append("/chat/completions");
    let mut headers: Vec<(String, String)> = Vec::new();
    headers.push((owned("Content-Type"), owned("application/json")));
    headers.push((owned("x-opencode-client"), owned("desktop")));
    headers.push((owned("User-Agent"), owned("opencode")));
    if stream {
        headers.push((owned("Accept"), owned("text/event-stream")));
    }
    assert(headers_view(headers@) =~= seq![
            ("Content-Type"@, "application/json"@),
            ("x-opencode-client"@, "desktop"@),
            ("User-Agent"@, "opencode"@),
        ] + if stream {
            seq![("Accept"@, "text/event-stream"@)]
        } else {
            Seq::<(Seq<char>, Seq<char>)>::empty()
        });
    RequestPlan { url, headers, bearer: clone_opt(&e.key) }
}

// --- streamed replies ----------------------------------------------------------------

/// One line of a server-sent event stream.
#[derive(Debug, PartialEq)]
pub enum SseLine {
    /// `data: [DONE]`: the stream is complete
    Done,
    /// `data: <payload>`
    Data(String),
    /// anything else (`: keep-alive` comments, blank lines, other fields)
    Other,
}

/// The mathematical value of an [`SseLine`].
pub enum SseKind {
    Done,
    Data(Seq<char>),
    Other,
}

impl View for SseLine {
    type V = SseKind;

    open spec fn view(&self) -> SseKind {
        match self {
            SseLine::Done => SseKind::Done,
            SseLine::Data(d) => SseKind::Data(d@),
            SseLine::Other => SseKind::Other,
        }
    }
}

/// A line (with its newline) read as an event: trailing whitespace dropped,
/// then a `data:` field's value trimmed.
pub open spec fn classify_line(line: Seq<char>) -> SseKind {
    let t = trim_end_class(line, CharClass::Whitespace);
    if has_prefix(t, "data:"@) {
        let d = trim_ws(t.skip(5));
        if d == "[DONE]"@ {
            SseKind::Done
        } else {
            SseKind::Data(d)
        }
    } else {
        SseKind::Other
    }
}

/// The text a streamed chunk carries: `choices[0].delta.content`.
pub open spec fn delta_content(v: JsonV) -> Option<Seq<char>> {
    v.field("choices"@).item(0).field("delta"@).field("content"@).as_str()
}

/// Decoder state of a streamed turn: undelivered text and the reply so far.
#[derive(Debug)]
pub struct SseDecoder {
    pub buf: Vec<char>,
    pub full: String,
}

impl SseDecoder {
    /// A decoder with nothing read yet.
    pub fn new() -> (d: SseDecoder)
        ensures
            d.buf@ == Seq::<char>::empty(),
            d.full@ == Seq::<char>::empty(),
    {
        SseDecoder { buf: Vec::new(), full: String::new() }
    }

    /// Take a network chunk (decoded on its own, invalid UTF-8 replaced).
    pub fn push_bytes(&mut self, bytes: &[u8])
        ensures
            final(self).buf@ == old(self).buf@ + utf8_lossy(bytes@),
            vstd::utf8::valid_utf8(bytes@) ==> final(self).buf@ == old(self).buf@ + vstd::utf8::decode_utf8(
                bytes@,
            ),
            final(self).full == old(self).full,
    {
        let text = from_utf8_lossy(bytes);
        let cs = chars_of(text.as_str());
        let mut i: usize = 0;
        let ghost b0 = self.buf@;
        while i < cs.len()
            invariant
                i <= cs.len(),
                cs@ == utf8_lossy(bytes@),
                vstd::utf8::valid_utf8(bytes@) ==> cs@ == vstd::utf8::decode_utf8(bytes@),
                self.buf@ == b0 + cs@.take(i as int),
                self.full == old(self).full,
            decreases cs.len() - i,
        {
            self.buf.push(cs[i]);
            assert(b0 + cs@.take(i + 1) =~= (b0 + cs@.take(i as int)).push(cs@[i as int]));
            i += 1;
        }
        assert(cs@.take(cs.len() as int) =~= cs@);
    }

    /// The next complete line, if the buffer holds one, read as an event.
    pub fn next_line(&mut self) -> (r: Option<SseLine>)
        ensures
            final(self).full == old(self).full,
            match first_occurrence(old(self).buf@, seq!['\n']) {
                Some(p) => r matches Some(l) && l@ == classify_line(old(self).buf@.take(p + 1))
                    && final(self).buf@ == old(self).buf@.skip(p + 1),
                None => r is None && final(self).buf@ == old(self).buf@,
            },
    {
        let nl = vec!['\n'];
        assert(nl@ =~= seq!['\n']);
        let pos = match find_in(&self.buf, &nl) {
            Some(p) => p,
            None => {
                return None;
            },
        };
        assert(pos < self.buf.len());
        let end = pos + 1;
        let ghost whole = self.buf@;
        let mut lv: Vec<char> = Vec::new();
        let mut i: usize = 0;
        while i < end
            invariant
                i <= end,
                end == pos + 1,
                end <= self.buf@.len(),
                self.buf@ == whole,
                lv@ == whole.take(i as int),
            decreases end - i,
        {
            lv.push(self.buf[i]);
            assert(whole.take(i + 1) =~= whole.take(i as int).push(whole[i as int]));
            i += 1;
        }
        let mut rest: Vec<char> = Vec::new();
        let mut k: usize = pos + 1;
        while k < self.buf.len()
            invariant
                pos + 1 <= k <= self.buf@.len(),
                self.buf@ == whole,
                rest@ == whole.subrange(pos + 1, k as int),
            decreases self.buf.len() - k,
        {
            rest.push(self.buf[k]);
            assert(whole.subrange(pos + 1, k + 1) =~= whole.subrange(pos + 1, k as int).push(whole[k as int]));
            k += 1;
        }
        assert(rest@ =~= whole.skip(pos + 1));
        self.buf = rest;
        let line_s = crate::text::string_of_all(&lv);
        let t = crate::text::trim_end(line_s.as_str());
        proof {
            reveal_strlit("data:");
        }
        let kind = match crate::text::strip_prefix(t.as_str(), "data:") {
            Some(d) => {
                let dt = crate::text::trim(d.as_str());
                if dt == owned("[DONE]") {
                    SseLine::Done
                } else {
                    SseLine::Data(dt)
                }
            },
            None => SseLine::Other,
        };
        Some(kind)
    }

    /// Take the text of a `data:` line: when it decodes as JSON, its
    /// non-empty delta text is appended to the reply and returned for
    /// display; text that is not JSON is passed over.
    pub fn accept_data(&mut self, data: &str) -> (r: Option<String>)
        ensures
            final(self).buf == old(self).buf,
            match crate::json::json_text(data@) {
                Some(v) => match delta_content(v) {
                    Some(p) => if p.len() > 0 {
                        r matches Some(x) && x@ == p && final(self).full@ == old(self).full@ + p
                    } else {
                        r is None && final(self).full == old(self).full
                    },
                    None => r is None && final(self).full == old(self).full,
                },
                None => r is None && final(self).full == old(self).full,
            },
    {
        match crate::json::parse_json(data) {
            Ok(v) => self.accept(&v),
            Err(_) => None,
        }
    }

    /// Take the payload of a `data:` line: its non-empty delta text is
    /// appended to the reply and returned for display.
    pub fn accept(&mut self, payload: &Json) -> (r: Option<String>)
        ensures
            final(self).buf == old(self).buf,
            match delta_content(payload@) {
                Some(p) => if p.len() > 0 {
                    r matches Some(x) && x@ == p && final(self).full@ == old(self).full@ + p
                } else {
                    r is None && final(self).full == old(self).full
                },
                None => r is None && final(self).full == old(self).full,
            },
    {
        let c = match payload.get("choices") {
            Some(c) => c,
            None => {
                return None;
            },
        };
        let first = match c.at(0) {
            Some(f) => f,
            None => {
                return None;
            },
        };
        let d = match first.get("delta") {
            Some(d) => d,
            None => {
                return None;
            },
        };
        let piece = match crate::json::get_str(d, "content") {
            Some(p) => p,
            None => {
                return None;
            },
        };
        if piece.as_str().unicode_len() == 0 {
            return None;
        }
        self.full.append(piece.as_str());
        Some(piece)
    }
}

} // verus!
