//! Speech-to-text logic: what the whisper worker does with each message,
//! how a transcript is put together from whisper's segments, how captured
//! audio is brought down to 16 kHz mono, and how a PCM16 WAV file is read.
use vstd::prelude::*;
use crate::text::{owned, trim_ws};

verus! {

/// Audio shorter than this (0.5 s at 16 kHz) is not worth a whisper pass.
pub const MIN_SAMPLES: usize = 8000;

/// The sample rate whisper wants.
pub const TARGET_RATE: u32 = 16000;

// --- transcripts -----------------------------------------------------------------

/// What a segment adds: its trimmed text, unless it is a bracketed stage
/// direction (`[BLANK_AUDIO]`, `(music)`, …) whisper emits for silence.
pub open spec fn segment_part(s: Seq<char>) -> Seq<char> {
    let t = trim_ws(s);
    if t.len() > 0 && (t[0] == '[' || t[0] == '(') {
        Seq::empty()
    } else {
        t
    }
}

pub open spec fn joined_parts(segs: Seq<Seq<char>>) -> Seq<char>
    decreases segs.len(),
{
    if segs.len() == 0 {
        Seq::empty()
    } else {
        joined_parts(segs.drop_last()) + segment_part(segs.last())
    }
}

/// The transcript of whisper's segments: their parts run together, trimmed.
pub open spec fn transcript_of(segs: Seq<Seq<char>>) -> Seq<char> {
    trim_ws(joined_parts(segs))
}

/// Put a transcript together from whisper's segment texts.
pub fn transcript(segments: &Vec<String>) -> (r: String)
    ensures
        r@ == transcript_of(segments.deep_view()),
{
    let ghost sv = segments.deep_view();
    let mut text = String::new();
    let mut i: usize = 0;
    while i < segments.len()
        invariant
            i <= segments.len(),
            sv == segments.deep_view(),
            text@ == joined_parts(sv.take(i as int)),
        decreases segments.len() - i,
    {
        assert(sv.take(i + 1).drop_last() =~= sv.take(i as int));
        assert(sv.take(i + 1).last() == segments@[i as int]@);
        let t = crate::text::trim(segments[i].as_str());
        let tv = crate::text::chars_of(t.as_str());
        let skip = tv.len() > 0 && (tv[0] == '[' || tv[0] == '(');
        if !skip {
            text.append(t.as_str());
        }
        i += 1;
    }
    assert(sv.take(segments.len() as int) =~= sv);
    crate::text::trim(text.as_str())
}

// --- the worker --------------------------------------------------------------------

/// The whisper worker's model state: the model path it was asked for last
/// (successfully) and whether a model is loaded.
#[derive(Debug)]
pub struct SttWorker {
    pub current: String,
    pub loaded: bool,
}

/// What the worker does with captured audio.
#[derive(Debug, PartialEq, Eq, Structural)]
pub enum AudioAction {
    /// no model is loaded: the audio is dropped (and said so)
    NoModel,
    /// under half a second: ignored
    TooShort,
    /// run whisper on it
    Transcribe,
}

impl SttWorker {
    /// The worker after trying to load its first model (`ok` = it loaded).
    pub fn new(model: &str, ok: bool) -> (r: SttWorker)
        ensures
            r.current@ == model@,
            r.loaded == ok,
    {
        SttWorker { current: owned(model), loaded: ok }
    }

    /// Whether a request to load `path` means loading anything: not when it
    /// is (as a path) the model already in use.
    pub fn wants_load(&self, path: &str) -> (r: bool)
        ensures
            r == (crate::settings::path_key(path@) != crate::settings::path_key(self.current@)),
    {
        !crate::settings::same_path(path, self.current.as_str())
    }

    /// The outcome of loading `path`: on success it becomes the model in
    /// use; on failure the previous model (if any) stays.
    pub fn load_done(&mut self, path: &str, ok: bool)
        ensures
            ok ==> final(self).current@ == path@ && final(self).loaded,
            !ok ==> final(self).current == old(self).current && final(self).loaded == old(self).loaded,
    {
        if ok {
            self.current = owned(path);
            self.loaded = true;
        }
    }

    /// What to do with `n` captured samples.
    pub fn on_audio(&self, n: usize) -> (r: AudioAction)
        ensures
            r == (if !self.loaded {
                AudioAction::NoModel
            } else if n < MIN_SAMPLES {
                AudioAction::TooShort
            } else {
                AudioAction::Transcribe
            }),
    {
        if !self.loaded {
            AudioAction::NoModel
        } else if n < MIN_SAMPLES {
            AudioAction::TooShort
        } else {
            AudioAction::Transcribe
        }
    }
}

// --- decimation ------------------------------------------------------------------

/// Every `k`-th element of `s`, starting with the first.
pub open spec fn every<T>(s: Seq<T>, k: nat) -> Seq<T>
    decreases s.len(),
{
    if s.len() == 0 || k == 0 {
        Seq::empty()
    } else {
        seq![s[0]] + every(s.skip(if k < s.len() { k as int } else { s.len() as int }), k)
    }
}

/// How many samples are kept per sample wanted: `rate / 16000`, at least 1.
pub open spec fn rate_step(rate: u32) -> nat {
    if rate / TARGET_RATE == 0 {
        1
    } else {
        (rate / TARGET_RATE) as nat
    }
}

/// Captured samples brought to ~16 kHz mono: the first channel of each
/// frame, then every `rate_step`-th of those.
pub open spec fn decimated<T>(data: Seq<T>, rate: u32, chans: nat) -> Seq<T> {
    every(every(data, chans), rate_step(rate))
}

/// Below the rounded-up quotient `⌈a / k⌉`, a multiple of `k` stays below `a`.
proof fn lemma_below_ceil(x: int, a: int, k: int)
    requires
        k >= 1,
        a >= 0,
        0 <= x < (a + k - 1) / k,
    ensures
        x * k < a,
{
    let c = (a + k - 1) / k;
    let r = (a + k - 1) % k;
    vstd::arithmetic::div_mod::lemma_fundamental_div_mod(a + k - 1, k);
    assert(x * k <= (c - 1) * k) by (nonlinear_arith)
        requires
            0 <= x <= c - 1,
            k >= 1,
    ;
    assert((c - 1) * k == k * c - k) by (nonlinear_arith);
}

/// `every(s, k)` holds the elements at `0, k, 2k, …`: as many as there are
/// multiples of `k` below the length.
proof fn lemma_every_index<T>(s: Seq<T>, k: nat)
    requires
        k >= 1,
    ensures
        every(s, k).len() == (s.len() + k - 1) / (k as int),
        forall|i: int| 0 <= i < every(s, k).len() ==> #[trigger] every(s, k)[i] == s[i * k],
    decreases s.len(),
{
    let n = s.len() as int;
    let kk = k as int;
    if n == 0 {
        vstd::arithmetic::div_mod::lemma_fundamental_div_mod_converse(kk - 1, kk, 0, kk - 1);
        assert(every(s, k).len() == 0);
    } else {
        let m = if kk < n { kk } else { n };
        let rest = s.skip(m);
        lemma_every_index(rest, k);
        let e = every(s, k);
        assert(e == seq![s[0]] + every(rest, k));
        if kk < n {
            let q = (n - 1) / kk;
            let r = (n - 1) % kk;
            vstd::arithmetic::div_mod::lemma_fundamental_div_mod(n - 1, kk);
            assert(n + kk - 1 == (q + 1) * kk + r) by (nonlinear_arith)
                requires
                    n - 1 == kk * q + r,
            ;
            vstd::arithmetic::div_mod::lemma_fundamental_div_mod_converse(n + kk - 1, kk, q + 1, r);
            assert(n - kk + kk - 1 == n - 1);
        } else {
            assert(rest.len() == 0);
            vstd::arithmetic::div_mod::lemma_fundamental_div_mod_converse(n + kk - 1, kk, 1, n - 1);
        }
        assert forall|i: int| 0 <= i < e.len() implies #[trigger] e[i] == s[i * k] by {
            if i == 0 {
                assert(i * k == 0) by (nonlinear_arith)
                    requires
                        i == 0,
                ;
            } else {
                assert(e[i] == every(rest, k)[i - 1]);
                let j = i - 1;
                lemma_below_ceil(j, rest.len() as int, kk);
                assert(j * k < rest.len());
                assert(i * k == j * k + kk) by (nonlinear_arith)
                    requires
                        j == i - 1,
                        kk == k,
                ;
                assert(rest[j * k] == s[m + j * k]);
                assert(m == kk);
                assert(rest.len() == n - kk);
                assert(i * k < s.len());
            }
        }
    }
}

/// What decimation keeps: with `q = max(rate / 16000, 1)`, the `i`-th
/// sample kept is sample `i·q·chans` of the captured data (the first
/// channel of every `q`-th frame), one for each `q`-th of the frames
/// there are.
pub proof fn lemma_decimate_picks<T>(data: Seq<T>, rate: u32, chans: nat)
    requires
        chans >= 1,
    ensures
        ({
            let q: int = if rate < 16000 {
                1
            } else {
                rate as int / 16000
            };
            let frames = (data.len() + chans - 1) / (chans as int);
            &&& decimated(data, rate, chans).len() == (frames + q - 1) / q
            &&& forall|i: int|
                0 <= i < decimated(data, rate, chans).len() ==> #[trigger] decimated(data, rate, chans)[i]
                    == data[i * q * chans]
        }),
{
    let q: int = if rate < 16000 {
        1
    } else {
        rate as int / 16000
    };
    assert(rate_step(rate) == q);
    let mono = every(data, chans);
    lemma_every_index(data, chans);
    lemma_every_index(mono, rate_step(rate));
    let d = decimated(data, rate, chans);
    assert forall|i: int| 0 <= i < d.len() implies #[trigger] d[i] == data[i * q * chans] by {
        lemma_below_ceil(i, mono.len() as int, q);
        assert(d[i] == mono[i * q]);
        assert(i * q < mono.len());
        lemma_below_ceil(i * q, data.len() as int, chans as int);
        assert(mono[i * q] == data[(i * q) * chans]);
    }
}

/// Every `k`-th element of `s`.
pub fn every_nth<T: Copy>(s: &[T], k: usize) -> (r: Vec<T>)
    requires
        k >= 1,
    ensures
        r@ == every(s@, k as nat),
{
    let mut out: Vec<T> = Vec::new();
    let n = s.len();
    let mut i: usize = 0;
    assert(s@.skip(0) =~= s@);
    while i < n
        invariant
            i <= n,
            n == s@.len(),
            k >= 1,
            every(s@, k as nat) == out@ + every(s@.skip(i as int), k as nat),
        decreases n - i,
    {
        let ghost rest = s@.skip(i as int);
        assert(rest[0] == s@[i as int]);
        let step: usize = if k < n - i {
            k
        } else {
            n - i
        };
        assert(rest.skip(step as int) =~= s@.skip(i + step));
        out.push(s[i]);
        assert(every(s@, k as nat) == out@ + every(s@.skip(i + step), k as nat));
        i = i + step;
    }
    assert(s@.skip(n as int) =~= Seq::<T>::empty());
    assert(out@ + Seq::<T>::empty() =~= out@);
    out
}

/// Captured audio (`chans` interleaved channels at `rate` Hz) brought to
/// ~16 kHz mono.
pub fn decimate<T: Copy>(data: &[T], rate: u32, chans: usize) -> (r: Vec<T>)
    requires
        chans >= 1,
    ensures
        r@ == decimated(data@, rate, chans as nat),
{
    let q = rate / TARGET_RATE;
    let step: usize = if q == 0 {
        1
    } else {
        q as usize
    };
    let mono = every_nth(data, chans);
    every_nth(mono.as_slice(), step)
}

// --- WAV files -------------------------------------------------------------------------

pub open spec fn le16(b: Seq<u8>, o: int) -> int {
    b[o] as int + 256 * (b[o + 1] as int)
}

pub open spec fn le32(b: Seq<u8>, o: int) -> int {
    b[o] as int + 256 * (b[o + 1] as int) + 65536 * (b[o + 2] as int) + 16777216 * (b[o + 3] as int)
}

pub open spec fn riff_id() -> Seq<u8> {
    seq![82u8, 73u8, 70u8, 70u8]
}

pub open spec fn wave_id() -> Seq<u8> {
    seq![87u8, 65u8, 86u8, 69u8]
}

pub open spec fn fmt_id() -> Seq<u8> {
    seq![102u8, 109u8, 116u8, 32u8]
}

pub open spec fn data_id() -> Seq<u8> {
    seq![100u8, 97u8, 116u8, 97u8]
}

/// Where the chunk after the one at `o` starts (chunks are padded to even sizes).
pub open spec fn next_chunk(b: Seq<u8>, o: int) -> int {
    let size = le32(b, o + 4);
    o + 8 + size + size % 2
}

/// The RIFF chunks from offset `o` on: the last `fmt ` chunk's channel
/// count (16 bits at offset 2) and sample rate (32 bits at offset 4), and
/// the byte range of the last `data` chunk (cut at the end of the file),
/// after those found before `o`.
pub open spec fn riff_walk(
    b: Seq<u8>,
    o: int,
    fmt: Option<(u16, u32)>,
    data: Option<(int, int)>,
) -> (Option<(u16, u32)>, Option<(int, int)>)
    decreases b.len() - o,
{
    if o < 0 || o + 8 > b.len() {
        (fmt, data)
    } else {
        let size = le32(b, o + 4);
        let body = o + 8;
        let id = b.subrange(o, o + 4);
        let fmt2 = if id == fmt_id() {
            Some((le16(b, body + 2) as u16, le32(b, body + 4) as u32))
        } else {
            fmt
        };
        let data2 = if id != fmt_id() && id == data_id() {
            Some((body, if body + size < b.len() { body + size } else { b.len() as int }))
        } else {
            data
        };
        let next = next_chunk(b, o);
        if next + 8 > b.len() {
            (fmt2, data2)
        } else {
            riff_walk(b, next, fmt2, data2)
        }
    }
}

/// Every `fmt ` chunk from `o` on is long enough to read its channel count
/// and sample rate.
pub open spec fn riff_walk_safe(b: Seq<u8>, o: int) -> bool
    decreases b.len() - o,
{
    if o < 0 || o + 8 > b.len() {
        true
    } else {
        &&& (b.subrange(o, o + 4) == fmt_id() ==> o + 16 <= b.len())
        &&& (next_chunk(b, o) + 8 > b.len() || riff_walk_safe(b, next_chunk(b, o)))
    }
}

/// The first sample (little-endian 16-bit) of each whole frame of `w` bytes.
pub open spec fn frame_firsts(raw: Seq<u8>, w: nat) -> Seq<i16>
    decreases raw.len(),
{
    if w == 0 || raw.len() < w {
        Seq::empty()
    } else {
        seq![le16(raw, 0) as i16] + frame_firsts(raw.skip(w as int), w)
    }
}

/// What reading a WAV file yields: the first channel's 16-bit sample of
/// each frame, brought to ~16 kHz; or the error.
pub open spec fn wav_spec(b: Seq<u8>) -> Result<Seq<i16>, Seq<char>> {
    if b.subrange(0, 4) != riff_id() || b.subrange(8, 12) != wave_id() {
        Err("not a WAV file"@)
    } else {
        let (fmt, data) = riff_walk(b, 12, None, None);
        match fmt {
            None => Err("no fmt chunk"@),
            Some((chans, rate)) => match data {
                None => Err("no data chunk"@),
                Some((lo, hi)) => Ok(
                    every(frame_firsts(b.subrange(lo, hi), 2 * chans as nat), rate_step(rate)),
                ),
            },
        }
    }
}

/// The files the reader takes without failing outright: long enough for
/// the headers it looks at, every `fmt ` chunk complete, and a non-zero
/// channel count when the audio is read.
pub open spec fn wav_readable(b: Seq<u8>) -> bool {
    &&& b.len() >= 4
    &&& (b.subrange(0, 4) == riff_id() ==> b.len() >= 12)
    &&& (b.subrange(0, 4) == riff_id() && b.subrange(8, 12) == wave_id()) ==> {
        &&& riff_walk_safe(b, 12)
        &&& !(riff_walk(b, 12, None, None) matches (Some((0, _)), Some(_)))
    }
}

fn read_u16(b: &[u8], o: usize) -> (r: u16)
    requires
        o + 2 <= b@.len(),
    ensures
        r as int == le16(b@, o as int),
{
    (b[o] as u16) + 256 * (b[o + 1] as u16)
}

fn read_u32(b: &[u8], o: usize) -> (r: u32)
    requires
        o + 4 <= b@.len(),
    ensures
        r as int == le32(b@, o as int),
{
    (b[o] as u32) + 256 * (b[o + 1] as u32) + 65536 * (b[o + 2] as u32) + 16777216 * (b[o + 3] as u32)
}

fn id_is(b: &[u8], o: usize, id: [u8; 4]) -> (r: bool)
    requires
        o + 4 <= b@.len(),
    ensures
        r == (b@.subrange(o as int, o + 4) == seq![id[0], id[1], id[2], id[3]]),
{
    let r = b[o] == id[0] && b[o + 1] == id[1] && b[o + 2] == id[2] && b[o + 3] == id[3];
    if r {
        assert(b@.subrange(o as int, o + 4) =~= seq![id[0], id[1], id[2], id[3]]);
    } else {
        proof {
            if b@.subrange(o as int, o + 4) == seq![id[0], id[1], id[2], id[3]] {
                assert(b@.subrange(o as int, o + 4)[0] == b@[o as int]);
                assert(b@.subrange(o as int, o + 4)[1] == b@[o + 1]);
                assert(b@.subrange(o as int, o + 4)[2] == b@[o + 2]);
                assert(b@.subrange(o as int, o + 4)[3] == b@[o + 3]);
            }
        }
    }
    r
}

/// The first sample of each whole frame of `w` bytes of `raw[lo..hi]`.
fn frame_samples(b: &[u8], lo: usize, hi: usize, w: usize) -> (r: Vec<i16>)
    requires
        lo <= hi <= b@.len(),
        w >= 2,
    ensures
        r@ == frame_firsts(b@.subrange(lo as int, hi as int), w as nat),
{
    let ghost raw = b@.subrange(lo as int, hi as int);
    let mut out: Vec<i16> = Vec::new();
    let mut i: usize = lo;
    assert(raw.skip(0) =~= raw);
    while i <= hi && hi - i >= w
        invariant
            lo <= i,
            i <= hi || i == hi,
            hi <= b@.len(),
            w >= 2,
            raw == b@.subrange(lo as int, hi as int),
            frame_firsts(raw, w as nat) == out@ + frame_firsts(b@.subrange(i as int, hi as int), w as nat),
        decreases hi - i,
    {
        let ghost rest = b@.subrange(i as int, hi as int);
        assert(rest[0] == b@[i as int] && rest[1] == b@[i + 1]);
        let x = read_u16(b, i);
        out.push(x as i16);
        assert(rest.skip(w as int) =~= b@.subrange(i + w, hi as int));
        i = i + w;
    }
    assert(frame_firsts(b@.subrange(i as int, hi as int), w as nat) =~= Seq::<i16>::empty());
    assert(out@ + Seq::<i16>::empty() =~= out@);
    out
}

pub open spec fn walk_view(data: Option<(usize, usize)>) -> Option<(int, int)> {
    match data {
        Some((lo, hi)) => Some((lo as int, hi as int)),
        None => None,
    }
}

/// Walk the RIFF chunks after the header: the format and data found, or
/// `None` when a `fmt ` chunk is too short to read.
fn riff_chunks(bytes: &[u8]) -> (r: Option<(Option<(u16, u32)>, Option<(usize, usize)>)>)
    requires
        bytes@.len() >= 12,
    ensures
        r is Some <==> riff_walk_safe(bytes@, 12),
        match r {
            Some((fmt, data)) => {
                &&& riff_walk(bytes@, 12, None, None) == (fmt, walk_view(data))
                &&& match data {
                    Some((lo, hi)) => lo <= hi <= bytes@.len(),
                    None => true,
                }
            },
            None => true,
        },
{
    let ghost b = bytes@;
    let n = bytes.len();
    assert(seq![102u8, 109u8, 116u8, 32u8] =~= fmt_id());
    assert(seq![100u8, 97u8, 116u8, 97u8] =~= data_id());
    let mut fmt: Option<(u16, u32)> = None;
    let mut data: Option<(usize, usize)> = None;
    let mut o: usize = 12;
    loop
        invariant_except_break
            o <= n,
            riff_walk_safe(b, 12) == riff_walk_safe(b, o as int),
            riff_walk(b, 12, None, None) == riff_walk(b, o as int, fmt, walk_view(data)),
        invariant
            n == b.len(),
            b == bytes@,
            match data {
                Some((lo, hi)) => lo <= hi <= n,
                None => true,
            },
        ensures
            riff_walk_safe(b, 12),
            riff_walk(b, 12, None, None) == (fmt, walk_view(data)),
        decreases n - o,
    {
        if n - o < 8 {
            break;
        }
        let size = read_u32(bytes, o + 4);
        let body = o + 8;
        let is_fmt = id_is(bytes, o, [102u8, 109u8, 116u8, 32u8]);
        let is_data = id_is(bytes, o, [100u8, 97u8, 116u8, 97u8]);
        if is_fmt {
            if n - o < 16 {
                return None;
            }
            let ch = read_u16(bytes, body + 2);
            let rate = read_u32(bytes, body + 4);
            fmt = Some((ch, rate));
        } else if is_data {
            let end: usize = if (size as u128) < ((n - body) as u128) {
                body + size as usize
            } else {
                n
            };
            data = Some((body, end));
        }
        let next: u128 = body as u128 + size as u128 + (size % 2) as u128;
        assert(next == next_chunk(b, o as int));
        if next + 8 > n as u128 {
            break;
        }
        o = next as usize;
    }
    Some((fmt, data))
}

/// Whether `wav_samples` can read `bytes` (see `wav_readable`).
pub fn wav_is_readable(bytes: &[u8]) -> (r: bool)
    ensures
        r == wav_readable(bytes@),
{
    if bytes.len() < 4 {
        return false;
    }
    let riff = id_is(bytes, 0, [82u8, 73u8, 70u8, 70u8]);
    assert(seq![82u8, 73u8, 70u8, 70u8] =~= riff_id());
    if !riff {
        return true;
    }
    if bytes.len() < 12 {
        return false;
    }
    let wave = id_is(bytes, 8, [87u8, 65u8, 86u8, 69u8]);
    assert(seq![87u8, 65u8, 86u8, 69u8] =~= wave_id());
    if !wave {
        return true;
    }
    match riff_chunks(bytes) {
        None => false,
        Some((fmt, data)) => match (fmt, data) {
            (Some((0, _)), Some(_)) => false,
            _ => true,
        },
    }
}

/// Read a PCM16 WAV file: the first channel of each frame, at ~16 kHz.
pub fn wav_samples(bytes: &[u8]) -> (r: Result<Vec<i16>, String>)
    requires
        wav_readable(bytes@),
    ensures
        match r {
            Ok(s) => wav_spec(bytes@) == Ok::<Seq<i16>, Seq<char>>(s@),
            Err(e) => wav_spec(bytes@) == Err::<Seq<i16>, Seq<char>>(e@),
        },
{
    if !id_is(bytes, 0, [82u8, 73u8, 70u8, 70u8]) {
        assert(seq![82u8, 73u8, 70u8, 70u8] =~= riff_id());
        return Err(owned("not a WAV file"));
    }
    assert(seq![82u8, 73u8, 70u8, 70u8] =~= riff_id());
    if !id_is(bytes, 8, [87u8, 65u8, 86u8, 69u8]) {
        assert(seq![87u8, 65u8, 86u8, 69u8] =~= wave_id());
        return Err(owned("not a WAV file"));
    }
    assert(seq![87u8, 65u8, 86u8, 69u8] =~= wave_id());
    let (fmt, data) = match riff_chunks(bytes) {
        Some(found) => found,
        None => {
            // not reached: `wav_readable` rules out short fmt chunks
            return Err(owned("no fmt chunk"));
        },
    };
    let (chans, rate) = match fmt {
        Some(f) => f,
        None => {
            return Err(owned("no fmt chunk"));
        },
    };
    let (lo, hi) = match data {
        Some(d) => d,
        None => {
            return Err(owned("no data chunk"));
        },
    };
    let mono = frame_samples(bytes, lo, hi, 2 * chans as usize);
    let q = rate / TARGET_RATE;
    let step: usize = if q == 0 {
        1
    } else {
        q as usize
    };
    Ok(every_nth(mono.as_slice(), step))
}

} // verus!
