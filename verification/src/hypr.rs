//! Hyprland IPC: where the socket is and what its replies mean (cursor
//! position, focused output).
//!
//! A request is written with no trailing newline, the write side shut down,
//! and the reply read to EOF (at the edge).
use vstd::prelude::*;
use crate::json::{Json, JsonV};
use crate::text::{owned, decimal, u64_to_string};

verus! {

/// `/run/user/{uid}/hypr/{instance}/.socket.sock`.
pub fn socket_path(uid: u32, instance: &str) -> (r: String)
    ensures
        r@ == "/run/user/"@ + decimal(uid as nat) + "/hypr/"@ + instance@ + "/.socket.sock"@,
{
    let mut r = owned("/run/user/");
    let u = u64_to_string(uid as u64);
    r.append(u.as_str());
    r.append("/hypr/");
    r.append(instance);
    r.append("/.socket.sock");
    r
}

/// The request for the cursor position.
pub const CURSOR_REQUEST: &'static str = "j/cursorpos";

/// A `j/cursorpos` reply: `x` and `y` as integers, cut to 32 bits.
pub open spec fn cursor_of(v: JsonV) -> Option<(i32, i32)> {
    match (v.get("x"@), v.get("y"@)) {
        (Some(x), Some(y)) => match (x.as_i64(), y.as_i64()) {
            (Some(a), Some(b)) => Some((a as i32, b as i32)),
            _ => None,
        },
        _ => None,
    }
}

/// The cursor position (logical px) in a `j/cursorpos` reply.
pub fn cursor_pos(v: &Json) -> (r: Option<(i32, i32)>)
    ensures
        r == cursor_of(v@),
{
    let x = match v.get("x") {
        Some(x) => x,
        None => {
            return None;
        },
    };
    let y = match v.get("y") {
        Some(y) => y,
        None => {
            return None;
        },
    };
    match (x.as_i64(), y.as_i64()) {
        (Some(a), Some(b)) => Some((a as i32, b as i32)),
        _ => None,
    }
}

/// The cursor position in the raw bytes of a `j/cursorpos` reply (`None`
/// when they are not JSON or hold no integer `x` and `y`).
pub fn cursor_from_reply(reply: &[u8]) -> (r: Option<(i32, i32)>)
    ensures
        r == match crate::json::json_bytes(reply@) {
            Some(v) => cursor_of(v),
            None => None,
        },
{
    match crate::json::parse_json_bytes(reply) {
        Some(v) => cursor_pos(&v),
        None => None,
    }
}

/// Whether a monitor entry says it is focused (`focused: true`).
pub open spec fn is_focused(m: JsonV) -> bool {
    match m.get("focused"@) {
        Some(f) => f.as_bool() == Some(true),
        None => false,
    }
}

/// The first focused monitor of a list.
pub open spec fn first_focused(ms: Seq<JsonV>) -> Option<JsonV>
    decreases ms.len(),
{
    if ms.len() == 0 {
        None
    } else if is_focused(ms[0]) {
        Some(ms[0])
    } else {
        first_focused(ms.drop_first())
    }
}

/// The name of the focused output in `hyprctl -j monitors` output: the
/// first focused monitor's `name`, if it is a string.
pub open spec fn focused_name(v: JsonV) -> Option<Seq<char>> {
    match v.as_array() {
        Some(ms) => match first_focused(ms) {
            Some(m) => match m.get("name"@) {
                Some(n) => n.as_str(),
                None => None,
            },
            None => None,
        },
        None => None,
    }
}

/// The name of the focused output (for `grim -o`).
pub fn focused_monitor(v: &Json) -> (r: Option<String>)
    ensures
        r.deep_view() == focused_name(v@),
{
    let ms = match v.as_array() {
        Some(ms) => ms,
        None => {
            return None;
        },
    };
    proof {
        crate::json::lemma_items_view(ms@);
    }
    let ghost mv = crate::json::items_view(ms@);
    let mut i: usize = 0;
    assert(mv.skip(0) =~= mv);
    while i < ms.len()
        invariant
            i <= ms.len(),
            mv == crate::json::items_view(ms@),
            mv.len() == ms@.len(),
            forall|k: int| 0 <= k < ms@.len() ==> #[trigger] mv[k] == crate::json::json_view(ms@[k]),
            first_focused(mv) == first_focused(mv.skip(i as int)),
            v@.as_array() == Some(mv),
        decreases ms.len() - i,
    {
        assert(mv.skip(i as int)[0] == mv[i as int]);
        assert(mv.skip(i as int).drop_first() =~= mv.skip(i + 1));
        let m = &ms[i];
        assert(mv[i as int] == m@);
        let focused = match m.get("focused") {
            Some(f) => match f.as_bool() {
                Some(b) => b,
                None => false,
            },
            None => false,
        };
        if focused {
            assert(first_focused(mv.skip(i as int)) == Some(mv[i as int]));
            return match m.get("name") {
                Some(n) => match n.as_str() {
                    Some(s) => Some(owned(s)),
                    None => None,
                },
                None => None,
            };
        }
        i += 1;
    }
    None
}

/// The focused output's name in the raw output of `hyprctl -j monitors`.
pub fn focused_from_reply(out: &[u8]) -> (r: Option<String>)
    ensures
        r.deep_view() == match crate::json::json_bytes(out@) {
            Some(v) => focused_name(v),
            None => None,
        },
{
    match crate::json::parse_json_bytes(out) {
        Some(v) => focused_monitor(&v),
        None => None,
    }
}

} // verus!
