//! What the application's main loop decides between two events: when a
//! logic tick is due, which key events go to the baked input, and when a
//! screenshot or a dump of the state is asked for.

use crate::input::BakedInputs;
use crate::keys;
use crate::loop_state::{ControlFlow, LoopState};
use std::collections::HashSet;
use vstd::prelude::*;
use vstd::std_specs::hash::group_hash_axioms;

verus! {

/// The time between two logic ticks, in nanoseconds: a sixtieth of a second.
pub const TICK_INTERVAL: u64 = 16_666_667;

/// When the last logic tick was, and how far apart ticks are.
#[derive(Debug, Copy, Clone, PartialEq, Eq, Structural)]
pub struct TickClock {
    pub last_tick_time: u64,
    pub tick_interval: u64,
}

impl TickClock {
    /// The time from the last tick to `now`; nothing if `now` lies before it.
    pub open spec fn elapsed(self, now: u64) -> int {
        if now >= self.last_tick_time {
            now - self.last_tick_time
        } else {
            0
        }
    }

    /// More than one interval has gone by since the last tick.
    pub open spec fn spec_tick_due(&self, now: u64) -> bool {
        self.elapsed(now) > self.tick_interval
    }

    /// More than two intervals have gone by since the last tick.
    pub open spec fn spec_late(&self, now: u64) -> bool {
        self.elapsed(now) > 2 * self.tick_interval
    }

    /// The clock once the tick that was due at `tick_now` is done, at
    /// `after`: the next tick is reckoned from `tick_now`, or from `after`
    /// where more than two intervals had gone by.
    pub open spec fn finished(self, tick_now: u64, after: u64) -> TickClock {
        TickClock {
            last_tick_time: if self.spec_late(tick_now) {
                after
            } else {
                tick_now
            },
            tick_interval: self.tick_interval,
        }
    }

    /// A clock whose last tick was at `now`.
    pub fn new(now: u64, tick_interval: u64) -> (r: TickClock)
        ensures
            r == (TickClock { last_tick_time: now, tick_interval }),
    {
        TickClock { last_tick_time: now, tick_interval }
    }

    /// Whether a logic tick is due at `now`.
    #[verifier::when_used_as_spec(spec_tick_due)]
    pub fn tick_due(&self, now: u64) -> (r: bool)
        ensures
            r == self.spec_tick_due(now),
    {
        now >= self.last_tick_time && now - self.last_tick_time > self.tick_interval
    }

    /// Whether the tick that is due at `now` comes so late that the ticks
    /// that were missed are not made up for.
    #[verifier::when_used_as_spec(spec_late)]
    pub fn late(&self, now: u64) -> (r: bool)
        ensures
            r == self.spec_late(now),
    {
        now >= self.last_tick_time && (now - self.last_tick_time) as u128 > 2 * (
        self.tick_interval as u128)
    }

    /// Notes that the tick that was due at `tick_now` is done, at `after`.
    /// The next tick is reckoned from `tick_now`; but where more than two
    /// intervals had gone by, it is reckoned from `after`, so that ticks
    /// that were missed are not made up for.
    pub fn finish_tick(&mut self, tick_now: u64, after: u64)
        ensures
            *final(self) == old(self).finished(tick_now, after),
    {
        if self.late(tick_now) {
            self.last_tick_time = after;
        } else {
            self.last_tick_time = tick_now;
        }
    }
}

/// The key events that came in since the baked input last took them.
pub struct KeyEvents {
    pub pressed: HashSet<u32>,
    pub released: HashSet<u32>,
}

impl KeyEvents {
    /// No event yet.
    pub fn new() -> (r: KeyEvents)
        ensures
            r.pressed@ == Set::<u32>::empty(),
            r.released@ == Set::<u32>::empty(),
    {
        KeyEvents { pressed: HashSet::new(), released: HashSet::new() }
    }

    /// Takes note of a keyboard event. Events that the window system made
    /// up, and events of keys without a code, are passed over.
    pub fn on_key(&mut self, code: Option<u32>, pressed: bool, synthetic: bool)
        ensures
            final(self).pressed@ == (if !synthetic && pressed && code is Some {
                old(self).pressed@.insert(code->Some_0)
            } else {
                old(self).pressed@
            }),
            final(self).released@ == (if !synthetic && !pressed && code is Some {
                old(self).released@.insert(code->Some_0)
            } else {
                old(self).released@
            }),
    {
        broadcast use group_hash_axioms;

        if !synthetic {
            if let Some(key) = code {
                if pressed {
                    self.pressed.insert(key);
                } else {
                    self.released.insert(key);
                }
            }
        }
    }

    /// Hands the events to the baked input, if there are any, and forgets
    /// them. Returns whether there were any.
    pub fn flush(&mut self, inputs: &mut BakedInputs) -> (r: bool)
        ensures
            r == !(old(self).pressed@.is_empty() && old(self).released@.is_empty()),
            final(self).pressed@ == Set::<u32>::empty(),
            final(self).released@ == Set::<u32>::empty(),
            !r ==> *final(inputs) == *old(inputs),
            r ==> {
                &&& final(inputs).cur_temp_input.pressing@ == old(
                    inputs,
                ).cur_temp_input.pressing@.union(old(self).pressed@).difference(
                    old(self).released@.intersect(old(inputs).cur_frame_input.pressing@),
                )
                &&& final(inputs).cur_temp_game_input.pressing@ == old(
                    inputs,
                ).cur_temp_game_input.pressing@.union(old(self).pressed@).difference(
                    old(self).released@.intersect(old(inputs).last_temp_game_input.pressing@),
                )
                &&& final(inputs).last_frame_input == old(inputs).last_frame_input
                &&& final(inputs).cur_frame_input == old(inputs).cur_frame_input
                &&& final(inputs).cur_frame_game_input == old(inputs).cur_frame_game_input
                &&& final(inputs).last_temp_game_input == old(inputs).last_temp_game_input
                &&& final(inputs).cur_game_input == old(inputs).cur_game_input
            },
    {
        if self.pressed.is_empty() && self.released.is_empty() {
            assert(self.pressed@ =~= Set::<u32>::empty());
            assert(self.released@ =~= Set::<u32>::empty());
            return false;
        }
        inputs.process(&self.pressed, &self.released);
        self.pressed.clear();
        self.released.clear();
        true
    }
}

/// Whether the window's new size is one to resize to: a window that is
/// minimized has no size.
pub fn should_resize(width: u32, height: u32) -> (r: bool)
    ensures
        r == (width != 0 && height != 0),
{
    width != 0 && height != 0
}

/// `key` was pressed with this frame: it is down, and was not in the last
/// frame.
pub open spec fn fresh(inputs: BakedInputs, key: u32) -> bool {
    inputs.cur_frame_input.pressing@.contains(key) && !inputs.last_frame_input.pressing@.contains(
        key,
    )
}

/// Whether `key` was pressed with this frame.
fn pressed_now(inputs: &BakedInputs, key: u32) -> (r: bool)
    ensures
        r == fresh(*inputs, key),
{
    let mut chord: Vec<u32> = Vec::new();
    chord.push(key);
    let r = inputs.is_pressed(chord.as_slice());
    assert(chord@[0] == key);
    r
}

/// Whether a screenshot is to be taken in a cycle of the loop that voted
/// `vote`: F11 was pressed with this frame, and no frame will be rendered,
/// after which it would be taken anyway.
pub fn screenshot_in_cycle(vote: &LoopState, inputs: &BakedInputs) -> (r: bool)
    ensures
        r == (!vote.render && fresh(*inputs, keys::F11)),
{
    !vote.render && pressed_now(inputs, keys::F11)
}

/// Whether a screenshot is to be taken after a frame was rendered: F11 was
/// pressed with this frame.
pub fn screenshot_after_render(inputs: &BakedInputs) -> (r: bool)
    ensures
        r == fresh(*inputs, keys::F11),
{
    pressed_now(inputs, keys::F11)
}

/// Whether the state is to be written to the log: F3 was pressed with this
/// frame.
pub fn dump_requested(inputs: &BakedInputs) -> (r: bool)
    ensures
        r == fresh(*inputs, keys::F3),
{
    pressed_now(inputs, keys::F3)
}

/// What the event loop does next.
#[derive(Debug, Copy, Clone, PartialEq, Eq, Structural)]
pub enum Wake {
    /// Go on as the logic loop voted.
    Continue(ControlFlow),
    /// Leave the event loop.
    Exit,
}

/// What the event loop does once the events of a round are dealt with: it
/// leaves if the logic loop has ended, and else goes on as the cycle voted,
/// with a redraw if the vote asks for one.
pub fn end_of_round(running: bool, vote: LoopState) -> (r: (Wake, bool))
    ensures
        r == (if running {
            (Wake::Continue(vote.control_flow), vote.render)
        } else {
            (Wake::Exit, false)
        }),
{
    if running {
        (Wake::Continue(vote.control_flow), vote.render)
    } else {
        (Wake::Exit, false)
    }
}

} // verus!
