//! The loading screen: it waits for the loads that it queued and then
//! opens the menu.

use crate::loop_state::LoopState;
use vstd::prelude::*;

verus! {

/// How long the loading screen waits after its first update, so that one
/// frame of it is drawn: a quarter of a second, in nanoseconds.
pub const FIRST_WAIT: u64 = 250_000_000;

/// How long the loading screen waits between two looks at the loads: a
/// twentieth of a second, in nanoseconds.
pub const POLL_WAIT: u64 = 50_000_000;

/// What the loading screen asks for.
#[derive(Debug, Copy, Clone, PartialEq, Eq, Structural)]
pub enum LoadingTrans {
    /// Stay on the loading screen.
    Stay,
    /// Push the menu, made from the script that was read.
    PushMenu,
}

/// The loading screen.
#[derive(Debug, Copy, Clone, PartialEq, Eq, Structural)]
pub struct Loading {
    /// No update was made yet.
    pub fst: bool,
}

impl Default for Loading {
    fn default() -> (r: Loading)
        ensures
            r.fst,
    {
        Loading { fst: true }
    }
}

impl Loading {
    /// What one update comes to, at `now`, with `num_loading` loads under
    /// way: the first update never leaves the loading screen, it asks for
    /// a frame and a short wait. After that the menu is pushed as soon as
    /// no load is under way; until then the screen looks again after a
    /// shorter wait, without a frame.
    pub open spec fn updated(fst: bool, num_loading: u16, now: u64) -> (LoadingTrans, LoopState) {
        if fst {
            (LoadingTrans::Stay, LoopState::spec_wait_until(now, FIRST_WAIT, true))
        } else if num_loading == 0 {
            (LoadingTrans::PushMenu, LoopState::spec_wait())
        } else {
            (LoadingTrans::Stay, LoopState::spec_wait_until(now, POLL_WAIT, false))
        }
    }

    /// How long from now an update asks to be woken; nothing where it names
    /// no time.
    pub open spec fn wait_of(fst: bool, num_loading: u16) -> u64 {
        if fst {
            FIRST_WAIT
        } else if num_loading == 0 {
            0
        } else {
            POLL_WAIT
        }
    }

    /// Whether the clock can tell the time that an update at `now` would ask
    /// to be woken at.
    pub fn can_update(&self, num_loading: u16, now: u64) -> (r: bool)
        ensures
            r == (now + Loading::wait_of(self.fst, num_loading) <= u64::MAX),
    {
        if self.fst {
            now <= u64::MAX - FIRST_WAIT
        } else if num_loading == 0 {
            true
        } else {
            now <= u64::MAX - POLL_WAIT
        }
    }

    /// One update, at `now`, with `num_loading` loads under way. The time
    /// that it asks to be woken at must be one that the clock can tell.
    pub fn update(&mut self, num_loading: u16, now: u64) -> (r: (LoadingTrans, LoopState))
        requires
            now + Loading::wait_of(old(self).fst, num_loading) <= u64::MAX,
        ensures
            !final(self).fst,
            r == Loading::updated(old(self).fst, num_loading, now),
    {
        if self.fst {
            self.fst = false;
            (LoadingTrans::Stay, LoopState::wait_until(now, FIRST_WAIT, true))
        } else if num_loading == 0 {
            (LoadingTrans::PushMenu, LoopState::wait())
        } else {
            (LoadingTrans::Stay, LoopState::wait_until(now, POLL_WAIT, false))
        }
    }
}

/// The first update stays on the loading screen, however the loads stand;
/// a later one pushes the menu exactly when no load is under way.
pub proof fn lemma_loading_sequence(fst: bool, num_loading: u16, now: u64)
    ensures
        Loading::updated(true, num_loading, now).0 == LoadingTrans::Stay,
        Loading::updated(fst, num_loading, now).0 == LoadingTrans::PushMenu <==> !fst
            && num_loading == 0,
{
}

} // verus!
