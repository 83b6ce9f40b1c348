//! The ctrl+alt chord: which input devices are watched and how key events
//! move the chord state.
//!
//! Keyboards are read directly from `/dev/input`, so a held chord works
//! even while a window has focus.
use vstd::prelude::*;
use crate::settings::{lex_le, sorted};

verus! {

/// `KEY_LEFTCTRL` / `KEY_RIGHTCTRL`.
pub open spec fn is_ctrl(code: u16) -> bool {
    code == 29 || code == 97
}

/// `KEY_LEFTALT` / `KEY_RIGHTALT`.
pub open spec fn is_alt(code: u16) -> bool {
    code == 56 || code == 100
}

/// Which halves of the chord are held.
#[derive(Debug)]
pub struct Chord {
    pub ctrl: bool,
    pub alt: bool,
}

impl Chord {
    /// Nothing held.
    pub fn new() -> (r: Chord)
        ensures
            !r.ctrl && !r.alt,
    {
        Chord { ctrl: false, alt: false }
    }

    /// A key event (`value` 0 = released, else pressed or repeating). Returns
    /// whether the chord is now held; other events (`is_key` false) change
    /// nothing and report nothing.
    pub fn on_event(&mut self, is_key: bool, code: u16, value: i32) -> (active: Option<bool>)
        ensures
            !is_key ==> active is None && final(self).ctrl == old(self).ctrl && final(self).alt == old(
                self,
            ).alt,
            is_key ==> {
                &&& final(self).ctrl == (if is_ctrl(code) {
                    value != 0
                } else {
                    old(self).ctrl
                })
                &&& final(self).alt == (if is_alt(code) {
                    value != 0
                } else {
                    old(self).alt
                })
                &&& active == Some(final(self).ctrl && final(self).alt)
            },
    {
        if !is_key {
            return None;
        }
        if code == 29 || code == 97 {
            self.ctrl = value != 0;
        }
        if code == 56 || code == 100 {
            self.alt = value != 0;
        }
        Some(self.ctrl && self.alt)
    }
}

/// An input device node (`/dev/input/eventN`).
pub open spec fn is_event_path(p: Seq<char>) -> bool {
    exists|i: int| crate::text::occurs_at(p, "/event"@, i)
}

/// The event devices among the entries of `/dev/input` (paths containing
/// `/event`), sorted.
pub fn event_devices(paths: &Vec<String>) -> (r: Vec<String>)
    ensures
        sorted(r.deep_view()),
        r.deep_view().to_multiset() == paths.deep_view().filter(|p: Seq<char>| is_event_path(p)).to_multiset(),
{
    let ghost pred = |p: Seq<char>| is_event_path(p);
    let ghost pv = paths.deep_view();
    let mut out: Vec<String> = Vec::new();
    let mut k: usize = 0;
    assert(out.deep_view() =~= Seq::<Seq<char>>::empty());
    assert(pv.take(0).filter(pred) =~= Seq::<Seq<char>>::empty()) by {
        reveal(Seq::filter);
    }
    while k < paths.len()
        invariant
            k <= paths.len(),
            pv == paths.deep_view(),
            pred == (|p: Seq<char>| is_event_path(p)),
            sorted(out.deep_view()),
            out.deep_view().to_multiset() == pv.take(k as int).filter(pred).to_multiset(),
        decreases paths.len() - k,
    {
        proof {
            reveal(Seq::filter);
            assert(pv.take(k + 1).drop_last() =~= pv.take(k as int));
            pv.take(k as int).filter(pred).to_multiset_ensures();
        }
        let ghost x = pv[k as int];
        assert(pv.take(k + 1).last() == x);
        assert(x == paths@[k as int]@);
        if crate::text::contains(paths[k].as_str(), "/event") {
            assert(pred(x));
            assert(pv.take(k + 1).filter(pred) == pv.take(k as int).filter(pred).push(x));
            crate::settings::insert_sorted(&mut out, paths[k].clone());
        } else {
            assert(!pred(x));
            assert(pv.take(k + 1).filter(pred) == pv.take(k as int).filter(pred));
        }
        k += 1;
    }
    assert(pv.take(paths.len() as int) =~= pv);
    out
}

} // verus!
