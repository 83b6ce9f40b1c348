//! The buddy's per-frame decisions: when a pen session starts, what each
//! drawing frame does, when the demo flights begin, and where the buddy
//! goes when a flight or a pointing bubble ends. The flight geometry of the
//! demo (floating point) stays at the edge.
use vstd::prelude::*;
use crate::modes::RunMode;

verus! {

/// The scribble self-test puts its synthetic pen down after this long (µs).
pub const SCRIBBLE_AFTER_US: i64 = 800_000;

/// The demo starts pointing after this long (µs).
pub const DEMO_AFTER_US: i64 = 2_000_000;

/// What the hidden buddy does this frame.
#[derive(Debug, PartialEq, Eq, Structural)]
pub enum IdleAction {
    /// nothing new
    Nothing,
    /// the scribble self-test's synthetic pen goes down
    SyntheticPenDown,
    /// the chord is held: the pen goes down at the cursor (when there is one)
    PenDownAtCursor,
}

/// The hidden buddy's decision: the scribble self-test starts once, after
/// `SCRIBBLE_AFTER_US`; otherwise a held chord starts drawing, except in
/// the demo and the self-test.
pub open spec fn idle_action_of(mode: RunMode, scribble_started: bool, now: i64, held: bool) -> IdleAction {
    if mode == RunMode::Scribble && !scribble_started && now > SCRIBBLE_AFTER_US {
        IdleAction::SyntheticPenDown
    } else if held && mode != RunMode::Demo && mode != RunMode::Scribble {
        IdleAction::PenDownAtCursor
    } else {
        IdleAction::Nothing
    }
}

/// What the hidden buddy does this frame.
pub fn idle_action(mode: &RunMode, scribble_started: bool, now: i64, held: bool) -> (r: IdleAction)
    ensures
        r == idle_action_of(*mode, scribble_started, now, held),
{
    let scribble = match mode {
        RunMode::Scribble => true,
        _ => false,
    };
    let demo = match mode {
        RunMode::Demo => true,
        _ => false,
    };
    if scribble && !scribble_started && now > SCRIBBLE_AFTER_US {
        IdleAction::SyntheticPenDown
    } else if held && !demo && !scribble {
        IdleAction::PenDownAtCursor
    } else {
        IdleAction::Nothing
    }
}

/// What a drawing frame does.
#[derive(Debug, PartialEq, Eq, Structural)]
pub enum DrawAction {
    /// the synthetic pen lays its next point; `release` when it was the last
    Synthetic { release: bool },
    /// the chord was let go: the pen comes up
    Release,
    /// the pen follows the cursor (when there is one)
    FollowCursor,
}

/// A drawing frame's decision: a synthetic pen at step `i` of `n` lays a
/// point and is done after the last; a real pen comes up when the chord
/// is no longer held.
pub open spec fn draw_action_of(synthetic: Option<(i32, i32)>, held: bool) -> DrawAction {
    match synthetic {
        Some((i, n)) => DrawAction::Synthetic { release: i + 1 >= n },
        None => if !held {
            DrawAction::Release
        } else {
            DrawAction::FollowCursor
        },
    }
}

/// What this drawing frame does.
pub fn draw_action(synthetic: Option<(i32, i32)>, held: bool) -> (r: DrawAction)
    requires
        synthetic matches Some((i, _)) ==> i < i32::MAX,
    ensures
        r == draw_action_of(synthetic, held),
{
    match synthetic {
        Some((i, n)) => DrawAction::Synthetic { release: i + 1 >= n },
        None => if !held {
            DrawAction::Release
        } else {
            DrawAction::FollowCursor
        },
    }
}

/// Whether the demo starts this frame: once, after `DEMO_AFTER_US`.
pub fn demo_due(mode: &RunMode, started: bool, now: i64) -> (r: bool)
    ensures
        r == (*mode == RunMode::Demo && !started && now > DEMO_AFTER_US),
{
    let demo = match mode {
        RunMode::Demo => true,
        _ => false,
    };
    demo && !started && now > DEMO_AFTER_US
}

/// The tip of the buddy sprite, from its top-left corner (logical px).
pub const HOT_X: i32 = 5;

/// See `HOT_X`.
pub const HOT_Y: i32 = 3;

/// How long the buddy holds its "right here!" bubble (ms).
pub const POINT_HOLD_MS: i64 = 1200;

/// Where a finished flight leaves the buddy.
#[derive(Debug, PartialEq, Eq, Structural)]
pub enum FlightEnd {
    /// the flight back to the cursor is over: the buddy hides
    Hide,
    /// the buddy arrived at a target: it points there until `until` (µs)
    Point { until: i64 },
}

/// Where a finished flight leaves the buddy at `now` (µs): hidden after the
/// flight back, else pointing for `POINT_HOLD_MS`.
pub fn flight_end(ret: bool, now: i64) -> (r: FlightEnd)
    requires
        !ret ==> now + POINT_HOLD_MS * 1000 <= i64::MAX,
    ensures
        r == (if ret {
            FlightEnd::Hide
        } else {
            FlightEnd::Point { until: (now + POINT_HOLD_MS * 1000) as i64 }
        }),
{
    if ret {
        FlightEnd::Hide
    } else {
        FlightEnd::Point { until: now + POINT_HOLD_MS * 1000 }
    }
}

/// What a pointing frame does.
#[derive(Debug, PartialEq, Eq, Structural)]
pub enum PointStep {
    /// keep pointing
    Hold,
    /// fly on to the next queued target
    NextTarget,
    /// no target left: fly back to the cursor (or hide when there is none)
    BackToCursor,
}

/// A pointing frame at `now` (µs) with the bubble held until `until` and
/// `queued` targets waiting.
pub fn point_step(now: i64, until: i64, queued: usize) -> (r: PointStep)
    ensures
        r == (if now < until {
            PointStep::Hold
        } else if queued > 0 {
            PointStep::NextTarget
        } else {
            PointStep::BackToCursor
        }),
{
    if now < until {
        PointStep::Hold
    } else if queued > 0 {
        PointStep::NextTarget
    } else {
        PointStep::BackToCursor
    }
}

/// Where the flight back goes: the sprite placed so its tip is on the
/// cursor; `None` (the buddy hides) when the cursor is unknown.
pub fn fly_back_target(cursor: Option<(i32, i32)>) -> (r: Option<(i32, i32)>)
    requires
        cursor matches Some((x, y)) ==> x >= i32::MIN + HOT_X && y >= i32::MIN + HOT_Y,
    ensures
        r == match cursor {
            Some((x, y)) => Some(((x - HOT_X) as i32, (y - HOT_Y) as i32)),
            None => None,
        },
{
    match cursor {
        Some((x, y)) => Some((x - HOT_X, y - HOT_Y)),
        None => None,
    }
}

} // verus!
