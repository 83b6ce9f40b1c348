//! Pen session records: the wall clock, the session id, where the
//! screenshot goes, and the follow-up events tied to a session.
use vstd::prelude::*;
use crate::json::{Json, JsonV, fields_view, jobj, jstr, no_members, push_member};
use crate::text::{owned, join_str, decimal, u64_to_string};

verus! {

/// `SystemTime::now().duration_since(UNIX_EPOCH)` in milliseconds, `None`
/// when the clock is before the epoch. Nothing is claimed of the value: it
/// is the time.
#[verifier::external_body]
fn since_epoch_ms() -> (r: Option<u128>) {
    std::time::SystemTime::now().duration_since(std::time::UNIX_EPOCH).ok().map(|d| d.as_millis())
}

/// Milliseconds since the epoch as a `u64` (cut to 64 bits), 0 when the
/// clock is before the epoch.
pub fn wall_ms_of(elapsed: Option<u128>) -> (r: u64)
    ensures
        r == match elapsed {
            Some(ms) => ms as u64,
            None => 0,
        },
{
    match elapsed {
        Some(ms) => ms as u64,
        None => 0,
    }
}

/// The wall clock in milliseconds since the epoch.
pub fn wall_ms() -> u64 {
    wall_ms_of(since_epoch_ms())
}

/// The id of the session that started at `start_wall`: `ink-{start_wall}`.
pub fn session_id(start_wall: u64) -> (r: String)
    ensures
        r@ == "ink-"@ + decimal(start_wall as nat),
{
    let n = u64_to_string(start_wall);
    join_str("ink-", n.as_str())
}

/// How a record's point list is shown on the console: `[{n} pts]`.
pub fn points_summary(n: u64) -> (r: String)
    ensures
        r@ == "["@ + decimal(n as nat) + " pts]"@,
{
    let d = u64_to_string(n);
    let mut r = join_str("[", d.as_str());
    r.append(" pts]");
    r
}

/// Where screenshots go: `{home}/Pictures/heyclicky`.
pub fn pictures_dir(home: &str) -> (r: String)
    ensures
        r@ == home@ + "/Pictures/heyclicky"@,
{
    join_str(home, "/Pictures/heyclicky")
}

/// The screenshot taken at `ts` (seconds since the epoch): `{dir}/ink-{ts}.png`.
pub fn shot_path(dir: &str, ts: u64) -> (r: String)
    ensures
        r@ == dir@ + "/ink-"@ + decimal(ts as nat) + ".png"@,
{
    let mut r = join_str(dir, "/ink-");
    let d = u64_to_string(ts);
    r.append(d.as_str());
    r.append(".png");
    r
}

/// The shell command that puts a screenshot on the clipboard.
pub fn copy_command(path: &str) -> (r: String)
    ensures
        r@ == "exec wl-copy -t image/png < '"@ + path@ + "'"@,
{
    let mut r = join_str("exec wl-copy -t image/png < '", path);
    r.append("'");
    r
}

/// The session log: `{home}/.local/state/heyclicky/sessions.jsonl`.
pub fn sessions_log(home: &str) -> (r: String)
    ensures
        r@ == home@ + "/.local/state/heyclicky/sessions.jsonl"@,
{
    join_str(home, "/.local/state/heyclicky/sessions.jsonl")
}

/// `{"kind": "transcript", "session": id, "text": text}`.
pub open spec fn transcript_json(session: Seq<char>, text: Seq<char>) -> JsonV {
    JsonV::Obj(
        seq![
            ("kind"@, JsonV::Str("transcript"@)),
            ("session"@, JsonV::Str(session)),
            ("text"@, JsonV::Str(text)),
        ],
    )
}

/// The event that ties a voice transcript to the session it belongs to.
pub fn transcript_event(session: &str, text: &str) -> (r: Json)
    ensures
        r@ == transcript_json(session@, text@),
{
    let mut f = no_members();
    push_member(&mut f, "kind", jstr("transcript"));
    push_member(&mut f, "session", jstr(session));
    push_member(&mut f, "text", jstr(text));
    assert(fields_view(f@) =~= seq![
            ("kind"@, JsonV::Str("transcript"@)),
            ("session"@, JsonV::Str(session@)),
            ("text"@, JsonV::Str(text@)),
        ]);
    jobj(f)
}

} // verus!
