//! What the command lines ask for: the agent's modes, the buddy's run
//! modes, and the buddy's pinned position for alignment checks.
use vstd::prelude::*;
use crate::text::{owned, parse_i32, parse_u64, int_text, trim_ws, first_occurrence};

verus! {

/// What the agent is asked to do.
#[derive(Debug, PartialEq)]
pub enum AgentMode {
    /// one-shot agent with `web_search` and `web_extract`
    Ask(String),
    /// streaming chat through the provider ring
    LlmTest(String),
    /// the search chain end to end
    SearchTest(String),
    /// readability-lite extraction of a page
    ExtractTest(String),
    /// print the usage
    Help,
}

pub enum AgentModeV {
    Ask(Seq<char>),
    LlmTest(Seq<char>),
    SearchTest(Seq<char>),
    ExtractTest(Seq<char>),
    Help,
}

impl View for AgentMode {
    type V = AgentModeV;

    open spec fn view(&self) -> AgentModeV {
        match self {
            AgentMode::Ask(s) => AgentModeV::Ask(s@),
            AgentMode::LlmTest(s) => AgentModeV::LlmTest(s@),
            AgentMode::SearchTest(s) => AgentModeV::SearchTest(s@),
            AgentMode::ExtractTest(s) => AgentModeV::ExtractTest(s@),
            AgentMode::Help => AgentModeV::Help,
        }
    }
}

/// The agent's mode from its first two arguments (each `""` when absent);
/// the modes that need an argument fall back to the usage without one.
pub open spec fn agent_mode_of(mode: Seq<char>, arg: Seq<char>) -> AgentModeV {
    if mode == "ask"@ && arg.len() > 0 {
        AgentModeV::Ask(arg)
    } else if mode == "llm-test"@ {
        AgentModeV::LlmTest(if arg.len() == 0 { "Say OK"@ } else { arg })
    } else if mode == "search-test"@ && arg.len() > 0 {
        AgentModeV::SearchTest(arg)
    } else if mode == "extract-test"@ && arg.len() > 0 {
        AgentModeV::ExtractTest(arg)
    } else {
        AgentModeV::Help
    }
}

/// The agent's mode.
pub fn agent_mode(mode: &str, arg: &str) -> (r: AgentMode)
    ensures
        r@ == agent_mode_of(mode@, arg@),
{
    let has_arg = arg.unicode_len() > 0;
    if crate::text::same_text(mode, "ask") && has_arg {
        AgentMode::Ask(owned(arg))
    } else if crate::text::same_text(mode, "llm-test") {
        AgentMode::LlmTest(
            if has_arg {
                owned(arg)
            } else {
                owned("Say OK")
            },
        )
    } else if crate::text::same_text(mode, "search-test") && has_arg {
        AgentMode::SearchTest(owned(arg))
    } else if crate::text::same_text(mode, "extract-test") && has_arg {
        AgentMode::ExtractTest(owned(arg))
    } else {
        AgentMode::Help
    }
}

/// How the buddy runs.
#[derive(Debug, PartialEq, Eq, Structural)]
pub enum RunMode {
    /// hold ctrl+alt to draw (the default)
    Hotkey,
    /// synthetic-pen self-test
    Scribble,
    /// agent mock: flights and bubbles
    Demo,
    /// transcribe a WAV file through the worker
    SttTest,
    /// plain buddy-follow for `secs` seconds (0: until closed)
    Follow { secs: u64 },
}

/// The buddy's run mode from its first argument (`""` when absent); any
/// other argument is a duration in seconds, 0 when it is not one.
pub open spec fn run_mode_of(arg: Seq<char>) -> RunMode {
    if arg == "stt-test"@ {
        RunMode::SttTest
    } else if arg == "hotkey"@ || arg.len() == 0 {
        RunMode::Hotkey
    } else if arg == "demo"@ {
        RunMode::Demo
    } else if arg == "scribble"@ {
        RunMode::Scribble
    } else {
        RunMode::Follow {
            secs: match int_text(arg, false) {
                Some(v) => if 0 <= v <= u64::MAX {
                    v as u64
                } else {
                    0
                },
                None => 0,
            },
        }
    }
}

/// The buddy's run mode.
pub fn run_mode(arg: &str) -> (r: RunMode)
    ensures
        r == run_mode_of(arg@),
{
    if crate::text::same_text(arg, "stt-test") {
        RunMode::SttTest
    } else if crate::text::same_text(arg, "hotkey") || arg.unicode_len() == 0 {
        RunMode::Hotkey
    } else if crate::text::same_text(arg, "demo") {
        RunMode::Demo
    } else if crate::text::same_text(arg, "scribble") {
        RunMode::Scribble
    } else {
        RunMode::Follow {
            secs: match parse_u64(arg) {
                Some(v) => v,
                None => 0,
            },
        }
    }
}

/// An `i32` read from trimmed text, as `trim().parse()` does.
pub open spec fn i32_field(t: Seq<char>) -> Option<i32> {
    match int_text(trim_ws(t), true) {
        Some(v) => if i32::MIN <= v <= i32::MAX {
            Some(v as i32)
        } else {
            None
        },
        None => None,
    }
}

/// `x,y` margins to pin the buddy at: the first two comma-separated fields,
/// each trimmed and read as an `i32` (further fields are ignored).
pub open spec fn pin_of(v: Seq<char>) -> Option<(i32, i32)> {
    match first_occurrence(v, seq![',']) {
        Some(i) => {
            let rest = v.skip(i + 1);
            let second = match first_occurrence(rest, seq![',']) {
                Some(j) => rest.take(j),
                None => rest,
            };
            match (i32_field(v.take(i)), i32_field(second)) {
                (Some(x), Some(y)) => Some((x, y)),
                _ => None,
            }
        },
        None => None,
    }
}

/// The pinned position in `x,y` text.
pub fn pin(v: &str) -> (r: Option<(i32, i32)>)
    ensures
        r == pin_of(v@),
{
    let cs = crate::text::chars_of(v);
    let comma = vec![','];
    assert(comma@ =~= seq![',']);
    let i = match crate::text::find_in(&cs, &comma) {
        Some(i) => i,
        None => {
            return None;
        },
    };
    let n = cs.len();
    assert(i < n);
    let first = crate::text::string_of(&cs, 0, i);
    let rest = crate::text::string_of(&cs, i + 1, n);
    assert(cs@.subrange(0, i as int) =~= v@.take(i as int));
    assert(cs@.subrange(i + 1, n as int) =~= v@.skip(i + 1));
    let rc = crate::text::chars_of(rest.as_str());
    let end = match crate::text::find_in(&rc, &comma) {
        Some(j) => j,
        None => rc.len(),
    };
    let second = crate::text::string_of(&rc, 0, end);
    assert(rc@.subrange(0, end as int) =~= (match first_occurrence(rest@, seq![',']) {
        Some(j) => rest@.take(j),
        None => rest@,
    }));
    let x = parse_i32(crate::text::trim(first.as_str()).as_str());
    let y = parse_i32(crate::text::trim(second.as_str()).as_str());
    match (x, y) {
        (Some(a), Some(b)) => Some((a, b)),
        _ => None,
    }
}

} // verus!
