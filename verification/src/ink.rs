//! Marker ink: how long trail points live and fade, how the trail is cut
//! into bands for drawing, and the bookkeeping of one pen session.
//!
//! Every point ages individually: full alpha for `TRAIL_HOLD_MS`, then it
//! fades over `TRAIL_FADE_MS`. The trail is drawn as bands that overlap by
//! one point, each at its tail's alpha, so every segment is painted once.
use vstd::prelude::*;

verus! {

/// A point stays at full alpha this long (ms).
pub const TRAIL_HOLD_MS: i64 = 900;

/// Then it fades to nothing over this long (ms).
pub const TRAIL_FADE_MS: i64 = 1200;

/// Points per alpha band (smooth gradient, cheap).
pub const TRAIL_BAND: usize = 6;

/// Total point lifetime in µs (past this, points are pruned from the trail).
pub fn trail_life_us() -> (r: i64)
    ensures
        r == (TRAIL_HOLD_MS + TRAIL_FADE_MS) * 1000,
{
    (TRAIL_HOLD_MS + TRAIL_FADE_MS) * 1000
}

/// Whether a point born at `birth` (µs) is still part of the trail at `now`.
pub fn alive(now: i64, birth: i64) -> (r: bool)
    requires
        i64::MIN <= now - birth <= i64::MAX,
    ensures
        r == (now - birth < (TRAIL_HOLD_MS + TRAIL_FADE_MS) * 1000),
{
    now - birth < trail_life_us()
}

/// How a point of a given age is drawn.
#[derive(Debug, PartialEq, Eq, Structural)]
pub enum Fade {
    /// full alpha
    Held,
    /// fading: `elapsed` of `TRAIL_FADE_MS * 1000` µs have passed (alpha
    /// `1 - elapsed / total`)
    Fading { elapsed: i64 },
    /// faded out (alpha 0): not drawn
    Gone,
}

/// The fade of a point born at `birth`, at `now` (µs).
pub open spec fn fade_of(now: int, birth: int) -> Fade {
    let age = now - birth;
    let hold = TRAIL_HOLD_MS * 1000;
    let fade = TRAIL_FADE_MS * 1000;
    if age <= hold {
        Fade::Held
    } else if age - hold >= fade {
        Fade::Gone
    } else {
        Fade::Fading { elapsed: (age - hold) as i64 }
    }
}

/// Per-point decay: full alpha while young, then fading tail-first.
pub fn point_fade(now: i64, birth: i64) -> (r: Fade)
    requires
        i64::MIN <= now - birth <= i64::MAX,
    ensures
        r == fade_of(now as int, birth as int),
{
    let age = now - birth;
    let hold = TRAIL_HOLD_MS * 1000;
    let fade = TRAIL_FADE_MS * 1000;
    if age <= hold {
        Fade::Held
    } else if age - hold >= fade {
        Fade::Gone
    } else {
        Fade::Fading { elapsed: age - hold }
    }
}

// --- bands ------------------------------------------------------------------------

/// The bands from point `i` on, for a trail of `len` points: each spans up
/// to `TRAIL_BAND` points and the next starts at its last point.
pub open spec fn bands_from(i: nat, len: nat) -> Seq<(nat, nat)>
    decreases len - i,
{
    if i + 1 >= len {
        Seq::empty()
    } else {
        let e = if i + TRAIL_BAND < len {
            (i + TRAIL_BAND) as nat
        } else {
            len
        };
        seq![(i, e)] + bands_from((e - 1) as nat, len)
    }
}

/// The bands a trail of `len` points is drawn in (as point ranges
/// `[start, end)`); a single point is drawn as a dot instead.
pub fn trail_bands(len: usize) -> (r: Vec<(usize, usize)>)
    ensures
        r@.map_values(|b: (usize, usize)| (b.0 as nat, b.1 as nat)) == bands_from(0, len as nat),
{
    let mut out: Vec<(usize, usize)> = Vec::new();
    if len < 2 {
        assert(out@.map_values(|b: (usize, usize)| (b.0 as nat, b.1 as nat)) =~= bands_from(0, len as nat));
        return out;
    }
    let mut i: usize = 0;
    while i < len - 1
        invariant
            len >= 2,
            i < len,
            out@.map_values(|b: (usize, usize)| (b.0 as nat, b.1 as nat)) + bands_from(i as nat, len as nat)
                == bands_from(0, len as nat),
        decreases len - i,
    {
        let e = if len - i > TRAIL_BAND {
            i + TRAIL_BAND
        } else {
            len
        };
        let ghost before = out@.map_values(|b: (usize, usize)| (b.0 as nat, b.1 as nat));
        out.push((i, e));
        assert(out@.map_values(|b: (usize, usize)| (b.0 as nat, b.1 as nat)) =~= before.push(
            (i as nat, e as nat),
        ));
        assert(bands_from(i as nat, len as nat) == seq![(i as nat, e as nat)] + bands_from(
            (e - 1) as nat,
            len as nat,
        ));
        assert(before.push((i as nat, e as nat)) + bands_from((e - 1) as nat, len as nat) =~= before
            + bands_from(i as nat, len as nat));
        i = e - 1;
    }
    assert(bands_from(i as nat, len as nat) =~= Seq::<(nat, nat)>::empty());
    assert(out@.map_values(|b: (usize, usize)| (b.0 as nat, b.1 as nat)) =~= bands_from(0, len as nat));
    out
}

/// Whether band `b` paints segment `k` (from point `k` to point `k + 1`).
pub open spec fn paints(b: (nat, nat), k: nat) -> bool {
    b.0 <= k && k + 1 < b.1
}

/// Every segment of a trail is painted by exactly one band.
pub proof fn lemma_each_segment_once(i: nat, len: nat, k: nat)
    requires
        i <= k,
        k + 1 < len,
    ensures
        exists|j: int| 0 <= j < bands_from(i, len).len() && paints(#[trigger] bands_from(i, len)[j], k),
        forall|j1: int, j2: int|
            0 <= j1 < bands_from(i, len).len() && 0 <= j2 < bands_from(i, len).len() && paints(
                #[trigger] bands_from(i, len)[j1],
                k,
            ) && paints(#[trigger] bands_from(i, len)[j2], k) ==> j1 == j2,
    decreases len - i,
{
    let bs = bands_from(i, len);
    let e = if i + TRAIL_BAND < len {
        (i + TRAIL_BAND) as nat
    } else {
        len
    };
    let rest = bands_from((e - 1) as nat, len);
    assert(bs == seq![(i, e)] + rest);
    lemma_bands_start(((e - 1) as nat), len);
    if k + 1 < e {
        assert(paints(bs[0], k));
        assert forall|j1: int, j2: int|
            0 <= j1 < bs.len() && 0 <= j2 < bs.len() && paints(#[trigger] bs[j1], k) && paints(
                #[trigger] bs[j2],
                k,
            ) implies j1 == j2 by {
            if j1 > 0 {
                assert(bs[j1] == rest[j1 - 1]);
            }
            if j2 > 0 {
                assert(bs[j2] == rest[j2 - 1]);
            }
        }
    } else {
        lemma_each_segment_once((e - 1) as nat, len, k);
        let j = choose|j: int| 0 <= j < rest.len() && paints(#[trigger] rest[j], k);
        assert(bs[j + 1] == rest[j]);
        assert forall|j1: int, j2: int|
            0 <= j1 < bs.len() && 0 <= j2 < bs.len() && paints(#[trigger] bs[j1], k) && paints(
                #[trigger] bs[j2],
                k,
            ) implies j1 == j2 by {
            assert(!paints(bs[0], k));
            assert(bs[j1] == rest[j1 - 1]);
            assert(bs[j2] == rest[j2 - 1]);
        }
    }
}

/// Every band from point `i` on starts at or after `i`.
proof fn lemma_bands_start(i: nat, len: nat)
    ensures
        forall|j: int| 0 <= j < bands_from(i, len).len() ==> #[trigger] bands_from(i, len)[j].0 >= i,
    decreases len - i,
{
    if i + 1 < len {
        let e = if i + TRAIL_BAND < len {
            (i + TRAIL_BAND) as nat
        } else {
            len
        };
        lemma_bands_start((e - 1) as nat, len);
        let rest = bands_from((e - 1) as nat, len);
        assert forall|j: int| 0 <= j < bands_from(i, len).len() implies #[trigger] bands_from(
            i,
            len,
        )[j].0 >= i by {
            if j > 0 {
                assert(bands_from(i, len)[j] == rest[j - 1]);
            }
        }
    }
}

// --- a pen session --------------------------------------------------------------------

/// Points laid in a pen session and its last point.
#[derive(Debug)]
pub struct PenSession {
    /// points laid this session (a tap without movement lays one)
    pub pts: usize,
    /// the last point laid from the real cursor
    pub last: Option<(i32, i32)>,
    /// pen-down time (µs, monotonic)
    pub start_mono: i64,
    /// pen-down time (ms since the epoch)
    pub start_wall: u64,
}

/// What a pen-up leads to.
#[derive(Debug)]
pub struct PenUp {
    /// a stroke (two points or more): screenshot and session record
    pub capture: bool,
    /// the recorded audio goes to the speech worker
    pub send_audio: bool,
}

impl PenSession {
    /// No session yet.
    pub fn new() -> (r: PenSession)
        ensures
            r.pts == 0,
            r.last is None,
            r.start_mono == 0,
            r.start_wall == 0,
    {
        PenSession { pts: 0, last: None, start_mono: 0, start_wall: 0 }
    }

    /// Start a fresh session (any leftover ink is wiped, so a quick
    /// re-press never continues the old stroke), at the cursor when there
    /// is one. Returns whether the microphone should start: only for a real
    /// pen with voice on and no capture running.
    pub fn pen_down(
        &mut self,
        now: i64,
        wall: u64,
        at: Option<(i32, i32)>,
        voice_enabled: bool,
        mic_running: bool,
    ) -> (start_mic: bool)
        ensures
            final(self).start_mono == now,
            final(self).start_wall == wall,
            final(self).last == at,
            final(self).pts == (if at is Some {
                1usize
            } else {
                0usize
            }),
            start_mic == (at is Some && voice_enabled && !mic_running),
    {
        self.pts = 0;
        self.start_mono = now;
        self.start_wall = wall;
        self.last = None;
        let start_mic = at.is_some() && voice_enabled && !mic_running;
        match at {
            Some(p) => {
                self.last = Some(p);
                self.pts = 1;
            },
            None => {},
        }
        start_mic
    }

    /// The cursor is at `(x, y)` while drawing: a point is laid unless it is
    /// where the last one was.
    pub fn on_cursor(&mut self, x: i32, y: i32) -> (laid: bool)
        requires
            old(self).pts < usize::MAX,
        ensures
            laid == (old(self).last != Some((x, y))),
            laid ==> final(self).pts == old(self).pts + 1 && final(self).last == Some((x, y)),
            !laid ==> final(self).pts == old(self).pts && final(self).last == old(self).last,
            final(self).start_mono == old(self).start_mono,
            final(self).start_wall == old(self).start_wall,
    {
        let same = match self.last {
            Some((a, b)) => a == x && b == y,
            None => false,
        };
        if same {
            false
        } else {
            self.last = Some((x, y));
            self.pts = self.pts + 1;
            true
        }
    }

    /// A synthetic pen laid a point.
    pub fn on_synthetic(&mut self)
        requires
            old(self).pts < usize::MAX,
        ensures
            final(self).pts == old(self).pts + 1,
            final(self).last == old(self).last,
            final(self).start_mono == old(self).start_mono,
            final(self).start_wall == old(self).start_wall,
    {
        self.pts = self.pts + 1;
    }

    /// The pen is lifted, with `samples` recorded (if the microphone ran)
    /// and a speech worker present or not. The session's count restarts.
    pub fn pen_up(&mut self, samples: Option<usize>, stt_ready: bool) -> (r: PenUp)
        ensures
            r.capture == (old(self).pts >= 2),
            r.send_audio == (samples matches Some(n) && n >= crate::stt::MIN_SAMPLES && stt_ready),
            final(self).pts == 0,
            final(self).start_mono == old(self).start_mono,
            final(self).start_wall == old(self).start_wall,
    {
        let capture = self.pts >= 2;
        let send_audio = match samples {
            Some(n) => n >= crate::stt::MIN_SAMPLES && stt_ready,
            None => false,
        };
        self.pts = 0;
        PenUp { capture, send_audio }
    }
}

/// Where the buddy floats: `gap` right of and below the pointer.
pub fn buddy_at(x: i32, y: i32, gap_x: i32, gap_y: i32) -> (r: (i32, i32))
    requires
        i32::MIN <= x + gap_x <= i32::MAX,
        i32::MIN <= y + gap_y <= i32::MAX,
    ensures
        r == ((x + gap_x) as i32, (y + gap_y) as i32),
{
    (x + gap_x, y + gap_y)
}

} // verus!
