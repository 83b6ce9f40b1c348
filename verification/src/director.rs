//! The buddy's side of the agent command feed: one JSON event per line,
//! appended by the agent. The buddy polls the file's mtime each tick and
//! executes the lines it has not executed yet (line-count tracking; a
//! shrunk file was truncated or rotated, so it is replayed from the top).
use vstd::prelude::*;
use crate::json::{Json, JsonV, str_field};
use crate::text::owned;

verus! {

/// A command from the agent.
#[derive(Debug, PartialEq)]
pub enum DirectorCmd {
    /// fly to `(x, y)` and show `label`
    Fly { x: i32, y: i32, label: String },
    /// show `text` in a bubble at the buddy
    Say { text: String },
}

/// The mathematical value of a [`DirectorCmd`].
pub enum DirectorCmdV {
    Fly { x: i32, y: i32, label: Seq<char> },
    Say { text: Seq<char> },
}

impl View for DirectorCmd {
    type V = DirectorCmdV;

    open spec fn view(&self) -> DirectorCmdV {
        match self {
            DirectorCmd::Fly { x, y, label } => DirectorCmdV::Fly { x: *x, y: *y, label: label@ },
            DirectorCmd::Say { text } => DirectorCmdV::Say { text: text@ },
        }
    }
}

pub open spec fn cmds_view(c: Seq<DirectorCmd>) -> Seq<DirectorCmdV> {
    c.map_values(|x: DirectorCmd| x@)
}

/// An integer member (`as_i64().unwrap_or(0)`), cut to 32 bits.
pub open spec fn int_member(v: JsonV, key: Seq<char>) -> i32 {
    match v.field(key).as_i64() {
        Some(n) => n as i32,
        None => 0,
    }
}

/// What an event means: `fly` (coordinates default to 0, the label to
/// "look here"), `say` (text defaults to ""), or nothing.
pub open spec fn command_of(v: JsonV) -> Option<DirectorCmdV> {
    match str_field(v, "cmd"@) {
        Some(c) => if c == "fly"@ {
            Some(
                DirectorCmdV::Fly {
                    x: int_member(v, "x"@),
                    y: int_member(v, "y"@),
                    label: match str_field(v, "label"@) {
                        Some(l) => l,
                        None => "look here"@,
                    },
                },
            )
        } else if c == "say"@ {
            Some(
                DirectorCmdV::Say {
                    text: match str_field(v, "text"@) {
                        Some(t) => t,
                        None => Seq::empty(),
                    },
                },
            )
        } else {
            None
        },
        None => None,
    }
}

fn int_member_exec(v: &Json, key: &str) -> (r: i32)
    ensures
        r == int_member(v@, key@),
{
    match v.get(key) {
        Some(x) => match x.as_i64() {
            Some(n) => n as i32,
            None => 0,
        },
        None => 0,
    }
}

/// Read one event.
pub fn command(v: &Json) -> (r: Option<DirectorCmd>)
    ensures
        match r {
            Some(c) => command_of(v@) == Some(c@),
            None => command_of(v@) is None,
        },
{
    let c = match crate::json::get_str(v, "cmd") {
        Some(c) => c,
        None => {
            return None;
        },
    };
    if crate::text::same_text(c.as_str(), "fly") {
        let label = match crate::json::get_str(v, "label") {
            Some(l) => l,
            None => owned("look here"),
        };
        Some(DirectorCmd::Fly { x: int_member_exec(v, "x"), y: int_member_exec(v, "y"), label })
    } else if crate::text::same_text(c.as_str(), "say") {
        Some(DirectorCmd::Say { text: crate::json::get_str_or_empty(v, "text") })
    } else {
        None
    }
}

/// The commands of `events` in order; lines that are not JSON (`None`) or
/// not a known command are passed over.
pub open spec fn commands_of(events: Seq<Option<JsonV>>) -> Seq<DirectorCmdV>
    decreases events.len(),
{
    if events.len() == 0 {
        Seq::empty()
    } else {
        let rest = commands_of(events.drop_last());
        match events.last() {
            Some(v) => match command_of(v) {
                Some(c) => rest.push(c),
                None => rest,
            },
            None => rest,
        }
    }
}

// --- lines ------------------------------------------------------------------------------

/// The lines read so far and the line being read (`str::lines`: split at
/// `\n`, a `\r` before the `\n` dropped).
pub open spec fn lines_state(s: Seq<char>) -> (Seq<Seq<char>>, Seq<char>)
    decreases s.len(),
{
    if s.len() == 0 {
        (Seq::empty(), Seq::empty())
    } else {
        let (done, cur) = lines_state(s.drop_last());
        if s.last() == '\n' {
            (done.push(strip_cr(cur)), Seq::empty())
        } else {
            (done, cur.push(s.last()))
        }
    }
}

pub open spec fn strip_cr(l: Seq<char>) -> Seq<char> {
    if l.len() > 0 && l.last() == '\r' {
        l.drop_last()
    } else {
        l
    }
}

/// The lines of `s` (a final line break is optional).
pub open spec fn lines_of(s: Seq<char>) -> Seq<Seq<char>> {
    let (done, cur) = lines_state(s);
    if cur.len() > 0 {
        done.push(cur)
    } else {
        done
    }
}

fn strip_cr_exec(v: &Vec<char>) -> (r: String)
    ensures
        r@ == strip_cr(v@),
{
    let n = v.len();
    if n > 0 && v[n - 1] == '\r' {
        let r = crate::text::string_of(v, 0, n - 1);
        assert(v@.subrange(0, n - 1) =~= v@.drop_last());
        r
    } else {
        crate::text::string_of_all(v)
    }
}

/// The lines of `s`.
pub fn lines(s: &str) -> (r: Vec<String>)
    ensures
        r.deep_view() == lines_of(s@),
{
    let v = crate::text::chars_of(s);
    let mut done: Vec<String> = Vec::new();
    let mut cur: Vec<char> = Vec::new();
    let mut i: usize = 0;
    while i < v.len()
        invariant
            i <= v.len(),
            v@ == s@,
            (done.deep_view(), cur@) == lines_state(v@.take(i as int)),
        decreases v.len() - i,
    {
        assert(v@.take(i + 1).drop_last() =~= v@.take(i as int));
        if v[i] == '\n' {
            let l = strip_cr_exec(&cur);
            let ghost before = done.deep_view();
            done.push(l);
            assert(done.deep_view() =~= before.push(strip_cr(cur@)));
            cur = Vec::new();
            assert(cur@ =~= Seq::<char>::empty());
        } else {
            cur.push(v[i]);
        }
        i += 1;
    }
    assert(v@.take(v.len() as int) =~= v@);
    if cur.len() > 0 {
        let l = crate::text::string_of_all(&cur);
        let ghost before = done.deep_view();
        done.push(l);
        assert(done.deep_view() =~= before.push(cur@));
    }
    done
}

/// The feed: `~/.local/state/heyclicky/director.jsonl`.
pub fn director_path(home: &str) -> (r: String)
    ensures
        r@ == crate::settings::join_path(home@, ".local/state/heyclicky/director.jsonl"@),
{
    crate::settings::join(home, ".local/state/heyclicky/director.jsonl")
}

// --- the feed cursor ------------------------------------------------------------------------

/// How far the feed has been executed: lines done and the mtime last seen.
#[derive(Debug)]
pub struct DirectorFeed {
    pub seen: usize,
    pub last_mtime: u64,
}

pub open spec fn events_view(e: Seq<Option<Json>>) -> Seq<Option<JsonV>> {
    e.map_values(|x: Option<Json>| match x {
        Some(j) => Some(j@),
        None => None,
    })
}

/// The line a poll resumes from: where the last one stopped, or the top
/// when the file has shrunk since.
pub open spec fn resume_at(seen: usize, n: nat) -> nat {
    if n < seen {
        0
    } else {
        seen as nat
    }
}

impl DirectorFeed {
    /// A feed nothing of which has been executed.
    pub fn new(mtime: u64) -> (r: DirectorFeed)
        ensures
            r.seen == 0,
            r.last_mtime == mtime,
    {
        DirectorFeed { seen: 0, last_mtime: mtime }
    }

    /// Whether the file must be read: its mtime changed since last seen
    /// (which is then remembered).
    pub fn changed(&mut self, mtime: u64) -> (r: bool)
        ensures
            r == (mtime != old(self).last_mtime),
            final(self).last_mtime == mtime,
            final(self).seen == old(self).seen,
    {
        if mtime == self.last_mtime {
            false
        } else {
            self.last_mtime = mtime;
            true
        }
    }

    /// The file could not be read: start over from the top next time.
    pub fn unreadable(&mut self)
        ensures
            final(self).seen == 0,
            final(self).last_mtime == old(self).last_mtime,
    {
        self.seen = 0;
    }

    /// The commands among the file's lines (each read as JSON, `None` when
    /// it is not) that have not been executed yet; all lines count as seen.
    pub fn take(&mut self, events: &Vec<Option<Json>>) -> (r: Vec<DirectorCmd>)
        ensures
            cmds_view(r@) == commands_of(
                events_view(events@).skip(resume_at(old(self).seen, events@.len()) as int),
            ),
            final(self).seen == events@.len(),
            final(self).last_mtime == old(self).last_mtime,
    {
        if events.len() < self.seen {
            self.seen = 0;
        }
        let start = self.seen;
        let ghost ev = events_view(events@);
        let mut out: Vec<DirectorCmd> = Vec::new();
        let mut i: usize = start;
        assert(ev.subrange(start as int, start as int) =~= Seq::<Option<JsonV>>::empty());
        while i < events.len()
            invariant
                start <= i <= events.len(),
                ev == events_view(events@),
                cmds_view(out@) == commands_of(ev.subrange(start as int, i as int)),
            decreases events.len() - i,
        {
            assert(ev.subrange(start as int, i + 1).drop_last() =~= ev.subrange(start as int, i as int));
            match &events[i] {
                Some(v) => match command(v) {
                    Some(c) => {
                        let ghost before = out@;
                        let ghost cv = c@;
                        out.push(c);
                        assert(cmds_view(out@) =~= cmds_view(before).push(cv));
                    },
                    None => {},
                },
                None => {},
            }
            i += 1;
        }
        assert(ev.subrange(start as int, events@.len() as int) =~= ev.skip(start as int));
        self.seen = events.len();
        out
    }
}

/// Each line of the feed as JSON (`None` where a line is not JSON).
pub open spec fn line_events(txt: Seq<char>) -> Seq<Option<JsonV>> {
    lines_of(txt).map_values(|l: Seq<char>| crate::json::json_text(l))
}

impl DirectorFeed {
    /// The commands in the feed's text that have not been executed yet
    /// (each line read as JSON; lines that are not are passed over); all
    /// its lines count as seen.
    pub fn take_text(&mut self, txt: &str) -> (r: Vec<DirectorCmd>)
        ensures
            cmds_view(r@) == commands_of(
                line_events(txt@).skip(resume_at(old(self).seen, lines_of(txt@).len()) as int),
            ),
            final(self).seen == lines_of(txt@).len(),
            final(self).last_mtime == old(self).last_mtime,
    {
        let ls = lines(txt);
        let ghost lv = ls.deep_view();
        let mut events: Vec<Option<Json>> = Vec::new();
        let mut i: usize = 0;
        while i < ls.len()
            invariant
                i <= ls.len(),
                lv == ls.deep_view(),
                lv == lines_of(txt@),
                events_view(events@) == lv.take(i as int).map_values(
                    |l: Seq<char>| crate::json::json_text(l),
                ),
            decreases ls.len() - i,
        {
            let e: Option<Json> = match crate::json::parse_json(ls[i].as_str()) {
                Ok(v) => Some(v),
                Err(_) => None,
            };
            let ghost ev = match &e {
                Some(j) => Some(j@),
                None => None,
            };
            let ghost before = events_view(events@);
            assert(ev == crate::json::json_text(lv[i as int]));
            events.push(e);
            assert(events_view(events@) =~= before.push(ev));
            assert(lv.take(i + 1).map_values(|l: Seq<char>| crate::json::json_text(l)) =~= lv.take(
                i as int,
            ).map_values(|l: Seq<char>| crate::json::json_text(l)).push(crate::json::json_text(lv[i as int])));
            i += 1;
        }
        assert(lv.take(ls.len() as int) =~= lv);
        self.take(&events)
    }
}

/// An event the agent writes with `fly` is read back by the buddy as the
/// same flight (coordinates and label intact).
pub proof fn lemma_fly_round_trip(x: i32, y: i32, label: Seq<char>)
    ensures
        command_of(crate::agent::fly_json(x, y, label)) == Some(DirectorCmdV::Fly { x, y, label }),
{
    reveal_strlit("fly");
    reveal_strlit("cmd");
    reveal_strlit("x");
    reveal_strlit("y");
    reveal_strlit("label");
    let f = seq![
        ("cmd"@, JsonV::Str("fly"@)),
        ("x"@, JsonV::Num(Some(x as i64))),
        ("y"@, JsonV::Num(Some(y as i64))),
        ("label"@, JsonV::Str(label)),
    ];
    let f1 = f.drop_first();
    let f2 = f1.drop_first();
    let f3 = f2.drop_first();
    assert(f1 =~= seq![
        ("x"@, JsonV::Num(Some(x as i64))),
        ("y"@, JsonV::Num(Some(y as i64))),
        ("label"@, JsonV::Str(label)),
    ]);
    assert(f2 =~= seq![("y"@, JsonV::Num(Some(y as i64))), ("label"@, JsonV::Str(label))]);
    assert(f3 =~= seq![("label"@, JsonV::Str(label))]);
    assert("cmd"@.len() == 3 && "x"@.len() == 1 && "y"@.len() == 1 && "label"@.len() == 5);
    assert("x"@[0] != "y"@[0]);
    assert("cmd"@ != "x"@ && "cmd"@ != "y"@ && "cmd"@ != "label"@);
    assert("x"@ != "y"@ && "x"@ != "label"@ && "y"@ != "label"@);
    assert(crate::json::lookup(f, "cmd"@) == Some(JsonV::Str("fly"@)));
    assert(crate::json::lookup(f1, "x"@) == Some(JsonV::Num(Some(x as i64))));
    assert(crate::json::lookup(f, "x"@) == Some(JsonV::Num(Some(x as i64))));
    assert(crate::json::lookup(f2, "y"@) == Some(JsonV::Num(Some(y as i64))));
    assert(crate::json::lookup(f1, "y"@) == Some(JsonV::Num(Some(y as i64))));
    assert(crate::json::lookup(f, "y"@) == Some(JsonV::Num(Some(y as i64))));
    assert(crate::json::lookup(f3, "label"@) == Some(JsonV::Str(label)));
    assert(crate::json::lookup(f2, "label"@) == Some(JsonV::Str(label)));
    assert(crate::json::lookup(f1, "label"@) == Some(JsonV::Str(label)));
    assert(crate::json::lookup(f, "label"@) == Some(JsonV::Str(label)));
}

/// An event the agent writes with `say` is read back as the same bubble.
pub proof fn lemma_say_round_trip(text: Seq<char>)
    ensures
        command_of(crate::agent::say_json(text)) == Some(DirectorCmdV::Say { text }),
{
    reveal_strlit("say");
    reveal_strlit("fly");
    reveal_strlit("cmd");
    reveal_strlit("text");
    let f = seq![("cmd"@, JsonV::Str("say"@)), ("text"@, JsonV::Str(text))];
    let f1 = f.drop_first();
    assert(f1 =~= seq![("text"@, JsonV::Str(text))]);
    assert("cmd"@.len() == 3 && "text"@.len() == 4);
    assert("cmd"@ != "text"@);
    assert("say"@ != "fly"@) by {
        assert("say"@[0] != "fly"@[0]);
    }
    assert(crate::json::lookup(f, "cmd"@) == Some(JsonV::Str("say"@)));
    assert(crate::json::lookup(f1, "text"@) == Some(JsonV::Str(text)));
    assert(crate::json::lookup(f, "text"@) == Some(JsonV::Str(text)));
}

/// A line is executed once: polling the same lines again, after they were
/// taken, yields no command.
pub proof fn lemma_no_replay(events: Seq<Option<JsonV>>, seen: usize)
    requires
        seen == events.len(),
    ensures
        commands_of(events.skip(resume_at(seen, events.len()) as int)) == Seq::<DirectorCmdV>::empty(),
{
    assert(events.skip(seen as int) =~= Seq::<Option<JsonV>>::empty());
}

/// After the file shrank (it was truncated or rotated), every line of it is
/// executed from the top.
pub proof fn lemma_shrunk_replays(events: Seq<Option<JsonV>>, seen: usize)
    requires
        events.len() < seen,
    ensures
        commands_of(events.skip(resume_at(seen, events.len()) as int)) == commands_of(events),
{
    assert(events.skip(0) =~= events);
}

} // verus!
