//! The buddy's settings and status (the files shared with the settings
//! panel), whisper model discovery, and the cursor color.
//!
//! Model files are looked up in heyclicky's own models directory first,
//! then in voxtype's, whose models are reused when present.
use vstd::prelude::*;
use crate::text::{owned, join_str, trim_ws, trim_start_class, CharClass, has_suffix};

verus! {

/// The buddy's settings (`~/.config/heyclicky/settings.json`).
#[derive(Clone, Debug)]
pub struct Settings {
    /// capture + transcribe voice while the hotkey is held
    pub voice_enabled: bool,
    /// model file name inside a models dir (see `find_model`)
    pub model: String,
    /// whisper language code ("en", "auto", ...)
    pub language: String,
    /// buddy float distance right/down of the pointer (logical px)
    pub buddy_gap: i32,
    /// buddy triangle fill color as hex, e.g. "#A78BFA"
    pub cursor_color: String,
}

/// The cursor color when the file gives none.
pub fn default_cursor_color() -> (r: String)
    ensures
        r@ == "#A78BFA"@,
{
    owned("#A78BFA")
}

impl Settings {
    pub open spec fn is_default(&self) -> bool {
        &&& self.voice_enabled
        &&& self.model@ == "ggml-base.en.bin"@
        &&& self.language@ == "en"@
        &&& self.buddy_gap == 8
        &&& self.cursor_color@ == "#A78BFA"@
    }
}

impl Default for Settings {
    fn default() -> (r: Settings)
        ensures
            r.is_default(),
    {
        Settings {
            voice_enabled: true,
            model: owned("ggml-base.en.bin"),
            language: owned("en"),
            buddy_gap: 8,
            cursor_color: default_cursor_color(),
        }
    }
}

/// The settings in effect: the file's, or the defaults when it is missing
/// or not valid.
pub fn settings_from_file(file: Option<Settings>) -> (r: Settings)
    ensures
        match file {
            Some(s) => r == s,
            None => r.is_default(),
        },
{
    match file {
        Some(s) => s,
        None => Settings::default(),
    }
}

/// What the buddy publishes for the panel (`~/.local/state/heyclicky/status.json`).
#[derive(Debug)]
pub struct Status {
    pub listening: bool,
    pub transcribing: bool,
    /// true while an agent job runs; the panel pulses its dot off this
    pub agent_busy: bool,
    pub model: String,
    pub last_transcript: String,
}

impl Status {
    /// The status while idle: the model in use and the last transcript.
    pub fn idle(model: &str, last_transcript: &str) -> (r: Status)
        ensures
            !r.listening && !r.transcribing && !r.agent_busy,
            r.model@ == model@,
            r.last_transcript@ == last_transcript@,
    {
        Status {
            listening: false,
            transcribing: false,
            agent_busy: false,
            model: owned(model),
            last_transcript: owned(last_transcript),
        }
    }
}

/// The settings the buddy runs with, as applied on every (re)load.
#[derive(Debug)]
pub struct BuddyPrefs {
    pub gap_x: i32,
    pub gap_y: i32,
    pub voice_enabled: bool,
    pub cursor_color: String,
    pub model_name: String,
}

impl BuddyPrefs {
    /// Apply freshly loaded settings; voice stays off without a speech
    /// worker. Returns whether the cursor color changed (the buddy is then
    /// redrawn).
    pub fn apply(&mut self, s: &Settings, stt_ready: bool) -> (changed: bool)
        ensures
            final(self).gap_x == s.buddy_gap,
            final(self).gap_y == s.buddy_gap,
            final(self).voice_enabled == (s.voice_enabled && stt_ready),
            final(self).model_name@ == s.model@,
            final(self).cursor_color@ == s.cursor_color@,
            changed == (old(self).cursor_color@ != s.cursor_color@),
    {
        self.gap_x = s.buddy_gap;
        self.gap_y = s.buddy_gap;
        self.voice_enabled = s.voice_enabled && stt_ready;
        self.model_name = owned(s.model.as_str());
        let changed = !crate::text::same_text(self.cursor_color.as_str(), s.cursor_color.as_str());
        if changed {
            self.cursor_color = owned(s.cursor_color.as_str());
        }
        changed
    }
}

// --- paths -----------------------------------------------------------------------

/// `Path::join` on Unix: an absolute `rel` replaces `base`; otherwise a
/// separator goes between them unless `base` is empty or already ends in one.
pub open spec fn join_path(base: Seq<char>, rel: Seq<char>) -> Seq<char> {
    if rel.len() > 0 && rel[0] == '/' {
        rel
    } else if base.len() == 0 || base.last() == '/' {
        base + rel
    } else {
        base + "/"@ + rel
    }
}

/// `base` joined with `rel`.
pub fn join(base: &str, rel: &str) -> (r: String)
    ensures
        r@ == join_path(base@, rel@),
{
    proof {
        reveal_strlit("/");
    }
    let rv = crate::text::chars_of(rel);
    if rv.len() > 0 && rv[0] == '/' {
        return owned(rel);
    }
    let b = crate::text::chars_of(base);
    if b.len() == 0 || b[b.len() - 1] == '/' {
        join_str(base, rel)
    } else {
        let mut r = join_str(base, "/");
        r.append(rel);
        r
    }
}

/// The pieces of `s` between slashes, read so far, and the piece being read.
pub open spec fn seg_state(s: Seq<char>) -> (Seq<Seq<char>>, Seq<char>)
    decreases s.len(),
{
    if s.len() == 0 {
        (Seq::empty(), Seq::empty())
    } else {
        let (done, cur) = seg_state(s.drop_last());
        if s.last() == '/' {
            (done.push(cur), Seq::empty())
        } else {
            (done, cur.push(s.last()))
        }
    }
}

/// The named parts of a path: the pieces between slashes, empty pieces and
/// `.` left out.
pub open spec fn path_parts(s: Seq<char>) -> Seq<Seq<char>> {
    let (done, cur) = seg_state(s);
    keep_parts(done.push(cur))
}

pub open spec fn keep_parts(ps: Seq<Seq<char>>) -> Seq<Seq<char>>
    decreases ps.len(),
{
    if ps.len() == 0 {
        Seq::empty()
    } else {
        let rest = keep_parts(ps.drop_last());
        if ps.last().len() > 0 && ps.last() != seq!['.'] {
            rest.push(ps.last())
        } else {
            rest
        }
    }
}

/// What `Path` equality compares on Unix: whether the path is absolute,
/// whether it starts with a `.` component, and its named parts.
pub open spec fn path_key(s: Seq<char>) -> (bool, bool, Seq<Seq<char>>) {
    let root = s.len() > 0 && s[0] == '/';
    let dot = !root && s.len() > 0 && s[0] == '.' && (s.len() == 1 || s[1] == '/');
    (root, dot, path_parts(s))
}

fn parts_of(s: &str) -> (r: Vec<String>)
    ensures
        r.deep_view() == path_parts(s@),
{
    let v = crate::text::chars_of(s);
    let mut done: Vec<Vec<char>> = Vec::new();
    let mut cur: Vec<char> = Vec::new();
    let mut i: usize = 0;
    while i < v.len()
        invariant
            i <= v.len(),
            v@ == s@,
            (done@.map_values(|x: Vec<char>| x@), cur@) == seg_state(v@.take(i as int)),
        decreases v.len() - i,
    {
        assert(v@.take(i + 1).drop_last() =~= v@.take(i as int));
        if v[i] == '/' {
            let ghost before = done@.map_values(|x: Vec<char>| x@);
            let ghost cv = cur@;
            done.push(cur);
            assert(done@.map_values(|x: Vec<char>| x@) =~= before.push(cv));
            cur = Vec::new();
            assert(cur@ =~= Seq::<char>::empty());
        } else {
            cur.push(v[i]);
        }
        i += 1;
    }
    assert(v@.take(v.len() as int) =~= v@);
    let ghost before = done@.map_values(|x: Vec<char>| x@);
    let ghost cv = cur@;
    done.push(cur);
    let ghost all = done@.map_values(|x: Vec<char>| x@);
    assert(all =~= before.push(cv));
    let mut out: Vec<String> = Vec::new();
    let mut k: usize = 0;
    while k < done.len()
        invariant
            k <= done.len(),
            all == done@.map_values(|x: Vec<char>| x@),
            out.deep_view() == keep_parts(all.take(k as int)),
        decreases done.len() - k,
    {
        assert(all.take(k + 1).drop_last() =~= all.take(k as int));
        assert(all.take(k + 1).last() == done@[k as int]@);
        let piece = &done[k];
        let keep = piece.len() > 0 && !(piece.len() == 1 && piece[0] == '.');
        assert(keep == (piece@.len() > 0 && piece@ != seq!['.'])) by {
            if piece@.len() == 1 && piece@[0] == '.' {
                assert(piece@ =~= seq!['.']);
            }
        }
        if keep {
            let ghost b = out.deep_view();
            out.push(crate::text::string_of_all(piece));
            assert(out.deep_view() =~= b.push(piece@));
        }
        k += 1;
    }
    assert(all.take(done.len() as int) =~= all);
    out
}

/// Whether two paths are equal as `Path`s: same components on Unix.
pub fn same_path(a: &str, b: &str) -> (r: bool)
    ensures
        r == (path_key(a@) == path_key(b@)),
{
    let x = crate::text::chars_of(a);
    let y = crate::text::chars_of(b);
    let root_a = x.len() > 0 && x[0] == '/';
    let root_b = y.len() > 0 && y[0] == '/';
    let dot_a = !root_a && x.len() > 0 && x[0] == '.' && (x.len() == 1 || x[1] == '/');
    let dot_b = !root_b && y.len() > 0 && y[0] == '.' && (y.len() == 1 || y[1] == '/');
    assert(root_a == path_key(a@).0 && root_b == path_key(b@).0);
    assert(dot_a == path_key(a@).1 && dot_b == path_key(b@).1);
    if root_a != root_b || dot_a != dot_b {
        return false;
    }
    let pa = parts_of(a);
    let pb = parts_of(b);
    if pa.len() != pb.len() {
        assert(path_key(a@).2.len() != path_key(b@).2.len());
        assert(path_key(a@).2 != path_key(b@).2);
        assert(path_key(a@) != path_key(b@));
        return false;
    }
    let mut i: usize = 0;
    while i < pa.len()
        invariant
            i <= pa.len(),
            pa.len() == pb.len(),
            pa.deep_view() == path_parts(a@),
            pb.deep_view() == path_parts(b@),
            forall|k: int| 0 <= k < i ==> pa.deep_view()[k] == pb.deep_view()[k],
        decreases pa.len() - i,
    {
        if !crate::text::same_text(pa[i].as_str(), pb[i].as_str()) {
            assert(pa.deep_view()[i as int] != pb.deep_view()[i as int]);
            assert(path_key(a@).2[i as int] != path_key(b@).2[i as int]);
            assert(path_key(a@) != path_key(b@));
            return false;
        }
        i += 1;
    }
    assert(pa.deep_view() =~= pb.deep_view());
    true
}

/// The home directory: `$HOME`, or `/tmp` when it is not set.
pub fn home_dir(var: Option<String>) -> (r: String)
    ensures
        r@ == match var {
            Some(h) => h@,
            None => "/tmp"@,
        },
{
    match var {
        Some(h) => h,
        None => owned("/tmp"),
    }
}

/// `~/.config/heyclicky/settings.json`, written by the panel.
pub fn settings_path(home: &str) -> (r: String)
    ensures
        r@ == join_path(home@, ".config/heyclicky/settings.json"@),
{
    join(home, ".config/heyclicky/settings.json")
}

/// `~/.local/state/heyclicky/status.json`, read by the panel.
pub fn status_path(home: &str) -> (r: String)
    ensures
        r@ == join_path(home@, ".local/state/heyclicky/status.json"@),
{
    join(home, ".local/state/heyclicky/status.json")
}

/// The model directories under `home`, in the order they are searched.
pub open spec fn model_dirs_of(home: Seq<char>) -> Seq<Seq<char>> {
    seq![
        join_path(home, ".local/share/heyclicky/models"@),
        join_path(home, ".local/share/voxtype/models"@),
    ]
}

/// heyclicky's own models directory wins; voxtype's models are reused.
pub fn model_dirs(home: &str) -> (r: Vec<String>)
    ensures
        r.deep_view() == model_dirs_of(home@),
{
    let mut v: Vec<String> = Vec::new();
    v.push(join(home, ".local/share/heyclicky/models"));
    v.push(join(home, ".local/share/voxtype/models"));
    assert(v.deep_view() =~= model_dirs_of(home@));
    v
}

/// The paths model `name` would have in each directory.
pub fn model_candidates(dirs: &Vec<String>, name: &str) -> (r: Vec<String>)
    ensures
        r.deep_view() == dirs.deep_view().map_values(|d: Seq<char>| join_path(d, name@)),
{
    let mut out: Vec<String> = Vec::new();
    let mut i: usize = 0;
    while i < dirs.len()
        invariant
            i <= dirs.len(),
            out.deep_view() == dirs.deep_view().take(i as int).map_values(
                |d: Seq<char>| join_path(d, name@),
            ),
        decreases dirs.len() - i,
    {
        let p = join(dirs[i].as_str(), name);
        let ghost before = out.deep_view();
        out.push(p);
        assert(out.deep_view() =~= before.push(join_path(dirs@[i as int]@, name@)));
        assert(dirs.deep_view().take(i + 1).map_values(|d: Seq<char>| join_path(d, name@))
            =~= dirs.deep_view().take(i as int).map_values(|d: Seq<char>| join_path(d, name@)).push(
            join_path(dirs@[i as int]@, name@),
        ));
        i += 1;
    }
    assert(dirs.deep_view().take(dirs.len() as int) =~= dirs.deep_view());
    out
}

/// The first candidate path that is a file, given which of them are.
pub open spec fn first_file(candidates: Seq<Seq<char>>, is_file: Seq<bool>) -> Option<Seq<char>>
    decreases candidates.len(),
{
    if candidates.len() == 0 || is_file.len() == 0 {
        None
    } else if is_file[0] {
        Some(candidates[0])
    } else {
        first_file(candidates.drop_first(), is_file.drop_first())
    }
}

/// Resolve a model: the first of its candidate paths that is a file.
pub fn find_model(candidates: &Vec<String>, is_file: &Vec<bool>) -> (r: Option<String>)
    requires
        is_file.len() == candidates.len(),
    ensures
        r.deep_view() == first_file(candidates.deep_view(), is_file@),
{
    let ghost cv = candidates.deep_view();
    let mut i: usize = 0;
    assert(cv.skip(0) =~= cv);
    assert(is_file@.skip(0) =~= is_file@);
    while i < candidates.len()
        invariant
            i <= candidates.len(),
            is_file.len() == candidates.len(),
            cv == candidates.deep_view(),
            first_file(cv, is_file@) == first_file(cv.skip(i as int), is_file@.skip(i as int)),
        decreases candidates.len() - i,
    {
        assert(cv.skip(i as int).drop_first() =~= cv.skip(i + 1));
        assert(is_file@.skip(i as int).drop_first() =~= is_file@.skip(i + 1));
        assert(cv.skip(i as int)[0] == candidates@[i as int]@);
        if is_file[i] {
            return Some(candidates[i].clone());
        }
        i += 1;
    }
    None
}

/// heyclicky's own models directory wins: a model there is the one used;
/// voxtype's copy is used only when heyclicky has none; with neither there
/// is no model.
pub proof fn lemma_own_dir_wins(home: Seq<char>, name: Seq<char>, is_file: Seq<bool>)
    requires
        is_file.len() == 2,
    ensures
        ({
            let cands = model_dirs_of(home).map_values(|d: Seq<char>| join_path(d, name));
            let own = join_path(join_path(home, ".local/share/heyclicky/models"@), name);
            let vox = join_path(join_path(home, ".local/share/voxtype/models"@), name);
            &&& is_file[0] ==> first_file(cands, is_file) == Some(own)
            &&& !is_file[0] && is_file[1] ==> first_file(cands, is_file) == Some(vox)
            &&& !is_file[0] && !is_file[1] ==> first_file(cands, is_file) is None
        }),
{
    let cands = model_dirs_of(home).map_values(|d: Seq<char>| join_path(d, name));
    let own = join_path(join_path(home, ".local/share/heyclicky/models"@), name);
    let vox = join_path(join_path(home, ".local/share/voxtype/models"@), name);
    assert(cands.len() == 2 && cands[0] == own && cands[1] == vox);
    let rest = cands.drop_first();
    let rest_f = is_file.drop_first();
    assert(rest.len() == 1 && rest[0] == vox);
    assert(rest_f.len() == 1 && rest_f[0] == is_file[1]);
    assert(first_file(rest.drop_first(), rest_f.drop_first()) is None);
    assert(first_file(rest, rest_f) == if is_file[1] {
        Some(vox)
    } else {
        first_file(rest.drop_first(), rest_f.drop_first())
    });
    assert(first_file(cands, is_file) == if is_file[0] {
        Some(own)
    } else {
        first_file(rest, rest_f)
    });
}

// --- listing models -------------------------------------------------------------------

/// Rust's `Ord` on strings: byte-wise on the UTF-8 encoding, which orders
/// the same as comparing characters by code point.
pub open spec fn lex_le(a: Seq<char>, b: Seq<char>) -> bool
    decreases a.len(),
{
    if a.len() == 0 {
        true
    } else if b.len() == 0 {
        false
    } else if a[0] != b[0] {
        (a[0] as u32) < (b[0] as u32)
    } else {
        lex_le(a.drop_first(), b.drop_first())
    }
}

/// Any two names are ordered one way or the other.
pub proof fn lemma_lex_total(a: Seq<char>, b: Seq<char>)
    ensures
        lex_le(a, b) || lex_le(b, a),
    decreases a.len(),
{
    if a.len() > 0 && b.len() > 0 {
        if a[0] == b[0] {
            lemma_lex_total(a.drop_first(), b.drop_first());
        } else {
            vstd::utf8::char_u32_cast(a[0], a[0] as u32);
            vstd::utf8::char_u32_cast(b[0], b[0] as u32);
        }
    }
}

/// The order is transitive.
pub proof fn lemma_lex_trans(a: Seq<char>, b: Seq<char>, c: Seq<char>)
    requires
        lex_le(a, b),
        lex_le(b, c),
    ensures
        lex_le(a, c),
    decreases a.len(),
{
    if a.len() > 0 && b.len() > 0 && c.len() > 0 && a[0] == b[0] && b[0] == c[0] {
        lemma_lex_trans(a.drop_first(), b.drop_first(), c.drop_first());
    }
}

/// Names ordered both ways are equal: with the two lemmas above, `lex_le`
/// is a total order, so a sorted arrangement of distinct names is unique.
pub proof fn lemma_lex_antisym(a: Seq<char>, b: Seq<char>)
    requires
        lex_le(a, b),
        lex_le(b, a),
    ensures
        a == b,
    decreases a.len(),
{
    if a.len() > 0 && b.len() > 0 {
        lemma_lex_antisym(a.drop_first(), b.drop_first());
        assert(a =~= seq![a[0]] + a.drop_first());
        assert(b =~= seq![b[0]] + b.drop_first());
    } else {
        assert(a =~= b);
    }
}

fn lex_le_exec(a: &str, b: &str) -> (r: bool)
    ensures
        r == lex_le(a@, b@),
{
    let x = crate::text::chars_of(a);
    let y = crate::text::chars_of(b);
    let mut i: usize = 0;
    assert(x@.skip(0) =~= x@);
    assert(y@.skip(0) =~= y@);
    while i < x.len() && i < y.len()
        invariant
            i <= x.len(),
            i <= y.len(),
            x@ == a@,
            y@ == b@,
            lex_le(a@, b@) == lex_le(x@.skip(i as int), y@.skip(i as int)),
        decreases x.len() - i,
    {
        assert(x@.skip(i as int)[0] == x@[i as int]);
        assert(y@.skip(i as int)[0] == y@[i as int]);
        if x[i] != y[i] {
            return (x[i] as u32) < (y[i] as u32);
        }
        assert(x@.skip(i as int).drop_first() =~= x@.skip(i + 1));
        assert(y@.skip(i as int).drop_first() =~= y@.skip(i + 1));
        i += 1;
    }
    i == x.len()
}

pub open spec fn sorted(s: Seq<Seq<char>>) -> bool {
    forall|i: int, j: int| 0 <= i < j < s.len() ==> lex_le(s[i], s[j])
}

/// The model file names found (`.bin` files, each directory's entries in
/// the order given), each kept once, in the order first met.
pub open spec fn bin_names(entries: Seq<Seq<char>>, acc: Seq<Seq<char>>) -> Seq<Seq<char>>
    decreases entries.len(),
{
    if entries.len() == 0 {
        acc
    } else {
        let n = entries[0];
        bin_names(
            entries.drop_first(),
            if has_suffix(n, ".bin"@) && !acc.contains(n) {
                acc.push(n)
            } else {
                acc
            },
        )
    }
}

fn contains_name(v: &Vec<String>, n: &str) -> (r: bool)
    ensures
        r == v.deep_view().contains(n@),
{
    let mut i: usize = 0;
    while i < v.len()
        invariant
            i <= v.len(),
            forall|k: int| 0 <= k < i ==> v.deep_view()[k] != n@,
        decreases v.len() - i,
    {
        if crate::text::same_text(v[i].as_str(), n) {
            assert(v.deep_view()[i as int] == n@);
            return true;
        }
        i += 1;
    }
    false
}

/// Inserting `x` where everything before is at most `x` and the next is
/// at least `x` keeps a sorted sequence sorted.
proof fn lemma_insert_keeps_sorted(s: Seq<Seq<char>>, p: int, x: Seq<char>)
    requires
        sorted(s),
        0 <= p <= s.len(),
        forall|k: int| 0 <= k < p ==> lex_le(#[trigger] s[k], x),
        p < s.len() ==> lex_le(x, s[p]),
    ensures
        sorted(s.insert(p, x)),
{
    s.insert_ensures(p, x);
    let t = s.insert(p, x);
    assert forall|i: int, j: int| 0 <= i < j < t.len() implies lex_le(t[i], t[j]) by {
        if j < p {
            assert(t[i] == s[i] && t[j] == s[j]);
        } else if j == p {
            assert(t[i] == s[i]);
        } else if i == p {
            assert(t[j] == s[j - 1]);
            if j - 1 > p {
                lemma_lex_trans(x, s[p], s[j - 1]);
            }
        } else if i < p {
            assert(t[i] == s[i] && t[j] == s[j - 1]);
        } else {
            assert(t[i] == s[i - 1] && t[j] == s[j - 1]);
        }
    }
}

/// Insert `x` into sorted `v`, keeping it sorted.
pub(crate) fn insert_sorted(v: &mut Vec<String>, x: String)
    requires
        sorted(old(v).deep_view()),
    ensures
        sorted(final(v).deep_view()),
        final(v).deep_view().to_multiset() == old(v).deep_view().to_multiset().insert(x@),
{
    let ghost s = v.deep_view();
    let mut p: usize = 0;
    while p < v.len() && lex_le_exec(v[p].as_str(), x.as_str())
        invariant
            p <= v.len(),
            s == v.deep_view(),
            forall|k: int| 0 <= k < p ==> lex_le(#[trigger] s[k], x@),
        decreases v.len() - p,
    {
        p += 1;
    }
    proof {
        if p < s.len() {
            lemma_lex_total(s[p as int], x@);
        }
        lemma_insert_keeps_sorted(s, p as int, x@);
        vstd::seq_lib::to_multiset_insert(s, p as int, x@);
    }
    let ghost xv = x@;
    v.insert(p, x);
    assert(v.deep_view() =~= s.insert(p as int, xv));
}

/// All model file names available, each once and sorted (for the settings
/// panel), from the entry names of the model directories, one directory
/// after the other.
pub fn list_models(entries: &Vec<String>) -> (r: Vec<String>)
    ensures
        sorted(r.deep_view()),
        r.deep_view().to_multiset() == bin_names(entries.deep_view(), Seq::empty()).to_multiset(),
        r.deep_view().no_duplicates(),
{
    let ghost all = entries.deep_view();
    let mut names: Vec<String> = Vec::new();
    let mut k: usize = 0;
    assert(all.skip(0) =~= all);
    assert(names.deep_view() =~= Seq::<Seq<char>>::empty());
    while k < entries.len()
        invariant
            k <= entries.len(),
            all == entries.deep_view(),
            bin_names(all, Seq::empty()) == bin_names(all.skip(k as int), names.deep_view()),
        decreases entries.len() - k,
    {
        let ghost rest = all.skip(k as int);
        assert(rest[0] == entries@[k as int]@);
        assert(rest.drop_first() =~= all.skip(k + 1));
        let n = entries[k].as_str();
        if crate::text::ends_with(n, ".bin") && !contains_name(&names, n) {
            let ghost before = names.deep_view();
            names.push(entries[k].clone());
            assert(names.deep_view() =~= before.push(n@));
        }
        k += 1;
    }
    assert(all.skip(entries.len() as int) =~= Seq::<Seq<char>>::empty());
    let ghost found = names.deep_view();
    assert(bin_names(all, Seq::empty()) == found);
    let mut out: Vec<String> = Vec::new();
    let mut j: usize = 0;
    assert(found.take(0) =~= Seq::<Seq<char>>::empty());
    assert(out.deep_view() =~= Seq::<Seq<char>>::empty());
    while j < names.len()
        invariant
            j <= names.len(),
            found == names.deep_view(),
            sorted(out.deep_view()),
            out.deep_view().to_multiset() == found.take(j as int).to_multiset(),
        decreases names.len() - j,
    {
        insert_sorted(&mut out, names[j].clone());
        proof {
            assert(found.take(j + 1) =~= found.take(j as int).push(found[j as int]));
            found.take(j as int).to_multiset_ensures();
        }
        j += 1;
    }
    assert(found.take(names.len() as int) =~= found);
    proof {
        lemma_bin_names_distinct(all, Seq::empty());
        found.lemma_multiset_has_no_duplicates();
        out.deep_view().lemma_multiset_has_no_duplicates_conv();
    }
    out
}

/// The names found are distinct when those already found were.
pub proof fn lemma_bin_names_distinct(entries: Seq<Seq<char>>, acc: Seq<Seq<char>>)
    requires
        acc.no_duplicates(),
    ensures
        bin_names(entries, acc).no_duplicates(),
    decreases entries.len(),
{
    if entries.len() > 0 {
        let n = entries[0];
        if has_suffix(n, ".bin"@) && !acc.contains(n) {
            let a2 = acc.push(n);
            assert forall|i: int, j: int| 0 <= i < a2.len() && 0 <= j < a2.len() && i != j implies a2[i]
                != a2[j] by {
                if i == acc.len() {
                    assert(a2[j] == acc[j]);
                    if acc[j] == n {
                        assert(acc.contains(n));
                    }
                } else if j == acc.len() {
                    assert(a2[i] == acc[i]);
                    if acc[i] == n {
                        assert(acc.contains(n));
                    }
                }
            }
            lemma_bin_names_distinct(entries.drop_first(), a2);
        } else {
            lemma_bin_names_distinct(entries.drop_first(), acc);
        }
    }
}

// --- the cursor color --------------------------------------------------------------------

/// The hex text of a color: trimmed, leading `#`s removed.
pub open spec fn hex_body(hex: Seq<char>) -> Seq<char> {
    trim_start_class(trim_ws(hex), CharClass::Exactly('#'))
}

pub open spec fn hex_digit(b: u8) -> Option<u8> {
    crate::search::hex_val(b)
}

/// `u8::from_str_radix` on two bytes in base 16: an optional `+` then
/// hex digits.
pub open spec fn byte_pair(a: u8, b: u8) -> Option<u8> {
    if a == 43 {
        match hex_digit(b) {
            Some(y) => Some(y),
            None => None,
        }
    } else {
        match (hex_digit(a), hex_digit(b)) {
            (Some(x), Some(y)) => Some((x * 16 + y) as u8),
            _ => None,
        }
    }
}

/// A `#RRGGBB` color (six bytes after trimming), or `None`.
pub open spec fn rgb_of(hex: Seq<char>) -> Option<(u8, u8, u8)> {
    let b = vstd::utf8::encode_utf8(hex_body(hex));
    if b.len() != 6 {
        None
    } else {
        match (byte_pair(b[0], b[1]), byte_pair(b[2], b[3]), byte_pair(b[4], b[5])) {
            (Some(r), Some(g), Some(bl)) => Some((r, g, bl)),
            _ => None,
        }
    }
}

/// The colors the parser can slice: when six bytes remain, bytes 2 and 4
/// start characters.
pub open spec fn hex_sliceable(hex: Seq<char>) -> bool {
    let b = vstd::utf8::encode_utf8(hex_body(hex));
    b.len() == 6 ==> vstd::utf8::is_char_boundary(b, 2) && vstd::utf8::is_char_boundary(b, 4)
}

fn hex_digit_exec(b: u8) -> (r: Option<u8>)
    ensures
        r == hex_digit(b),
{
    if 48 <= b && b <= 57 {
        Some(b - 48)
    } else if 97 <= b && b <= 102 {
        Some(b - 87)
    } else if 65 <= b && b <= 70 {
        Some(b - 55)
    } else {
        None
    }
}

fn byte_pair_exec(a: u8, b: u8) -> (r: Option<u8>)
    ensures
        r == byte_pair(a, b),
{
    if a == 43 {
        hex_digit_exec(b)
    } else {
        match (hex_digit_exec(a), hex_digit_exec(b)) {
            (Some(x), Some(y)) => Some(x * 16 + y),
            _ => None,
        }
    }
}

/// Parse the cursor color into its red, green and blue bytes.
pub fn parse_hex_rgb(hex: &str) -> (r: Option<(u8, u8, u8)>)
    requires
        hex_sliceable(hex@),
    ensures
        r == rgb_of(hex@),
{
    let t = crate::text::trim(hex);
    let h = crate::text::trim_start_char(t.as_str(), '#');
    let b = h.as_str().as_bytes();
    if b.len() != 6 {
        return None;
    }
    match (byte_pair_exec(b[0], b[1]), byte_pair_exec(b[2], b[3]), byte_pair_exec(b[4], b[5])) {
        (Some(r), Some(g), Some(bl)) => Some((r, g, bl)),
        _ => None,
    }
}

/// Whether `parse_hex_rgb` can slice `hex`.
pub fn hex_is_sliceable(hex: &str) -> (r: bool)
    ensures
        r == hex_sliceable(hex@),
{
    let t = crate::text::trim(hex);
    let h = crate::text::trim_start_char(t.as_str(), '#');
    let s = h.as_str();
    s.as_bytes().len() != 6 || (s.is_char_boundary(2) && s.is_char_boundary(4))
}

} // verus!
