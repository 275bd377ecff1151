//! One cycle of the main loop.
//!
//! A cycle starts a new frame of input, gives every state its shadow hooks,
//! updates the top state, and, where a logic tick is due, samples the input
//! for it and ticks the top state. What a state asks for is carried out
//! right after the hook that asked, before any other hook runs.

use crate::input::BakedInputs;
use crate::keys;
use crate::loop_state::LoopState;
use crate::shell::{dump_requested, fresh, screenshot_in_cycle, TickClock};
use crate::states::{
    shadow_updated, tally, top_ticked, top_updated, GameState, StackModel, StateStack, Trans,
};
use core::ops::BitOrAssign;
use vstd::prelude::*;

verus! {

/// What every hook of a state is handed: the baked input, and what the
/// application adds to it.
pub struct StateData<X> {
    pub inputs: BakedInputs,
    pub extra: X,
}

/// Where the loop reads the time from, in nanoseconds.
///
/// The relation says what a reading may be and what it may turn the source
/// into. A source that does not say holds its readings to nothing.
pub trait TimeSource: Sized {
    /// What `now` may answer, and turn the source into.
    open spec fn now_rel(pre: Self, post: Self, now: u64) -> bool {
        true
    }

    /// Reads the time.
    fn now(&mut self) -> (r: u64)
        ensures
            Self::now_rel(*old(self), *final(self), r),
    ;
}

/// What a cycle leaves to do.
#[derive(Debug, Copy, Clone, PartialEq, Eq, Structural)]
pub struct Cycle {
    /// The votes of all states as one.
    pub vote: LoopState,
    /// A screenshot is asked for, and no frame will be rendered after which
    /// it would be taken anyway.
    pub screenshot: bool,
    /// The state of the application is to be written to the log.
    pub dump: bool,
}

/// Why a cycle broke off.
pub enum CycleError<S> {
    /// A key was held for more samples than a counter can count.
    HeldTooLong,
    /// A state asked for a transition that the stack cannot take.
    Refused(Trans<S>),
}

/// Everything that a cycle works on, as mathematical values.
pub struct Stage<S, X> {
    pub stack: StackModel<S>,
    pub clock: TickClock,
    pub data: StateData<X>,
}

/// The first part of a cycle: a new frame of input was started, then every
/// state got its shadow tick and gave its vote; `vote` is the votes as one.
pub open spec fn frame_begun<S: GameState<StateData<X>>, X>(
    s0: Stage<S, X>,
    s1: Stage<S, X>,
    vote: LoopState,
) -> bool {
    &&& s0.data.inputs.frame_swapped(s1.data.inputs)
    &&& s1.data.extra == s0.data.extra
    &&& s1.clock == s0.clock
    &&& s1.stack.running == s0.stack.running
    &&& exists|votes: Seq<LoopState>| #[trigger]
        shadow_updated(s0.stack.states, s1.data, s1.stack.states, votes) && vote == tally(votes)
}

/// The second part of a cycle: the top state was updated.
pub open spec fn top_state_updated<S: GameState<StateData<X>>, X>(
    s1: Stage<S, X>,
    s2: Stage<S, X>,
    r: Result<Option<LoopState>, Trans<S>>,
) -> bool {
    top_updated(s1.stack, s1.data, s2.stack, s2.data, r) && s2.clock == s1.clock
}

/// The clock after a tick that was due at `now`. Where the tick came late,
/// the time was read once more and the next tick is reckoned from that
/// reading; else the source was left alone and the next tick is reckoned
/// from `now`.
pub open spec fn clock_set<T: TimeSource>(
    clock: TickClock,
    t2: T,
    now: u64,
    clock3: TickClock,
    t3: T,
) -> bool {
    if clock.spec_late(now) {
        exists|after: u64| #[trigger]
            T::now_rel(t2, t3, after) && clock3 == clock.finished(now, after)
    } else {
        t3 == t2 && clock3 == clock.finished(now, now)
    }
}

/// The third part of a cycle, at the time `now`: where a logic tick was due,
/// the input was sampled for it, the top state was ticked, and the clock
/// took note. `t2` is the source of time before and `t3` after.
pub open spec fn tick_taken<S: GameState<StateData<X>>, X, T: TimeSource>(
    s2: Stage<S, X>,
    t2: T,
    now: u64,
    s3: Stage<S, X>,
    t3: T,
    r: Result<(), CycleError<S>>,
) -> bool {
    if !s2.clock.spec_tick_due(now) {
        s3 == s2 && t3 == t2 && r is Ok
    } else if !s2.data.inputs.tick_can_count() {
        s3 == s2 && t3 == t2 && r == Err::<(), CycleError<S>>(CycleError::HeldTooLong)
    } else {
        exists|d: StateData<X>, ticked: Result<(), Trans<S>>|
            {
                &&& s2.data.inputs.ticked(d.inputs)
                &&& d.extra == s2.data.extra
                &&& #[trigger] top_ticked(s2.stack, d, s3.stack, s3.data, ticked)
                &&& match ticked {
                    Ok(_) => r is Ok && clock_set(s2.clock, t2, now, s3.clock, t3),
                    Err(t) => r == Err::<(), CycleError<S>>(CycleError::Refused(t)) && s3.clock
                        == s2.clock && t3 == t2,
                }
            }
    }
}

/// The time was read as `now`, which left the source as `t1`, and the third
/// part of the cycle was done at that time.
pub open spec fn tick_taken_at<S: GameState<StateData<X>>, X, T: TimeSource>(
    s2: Stage<S, X>,
    t0: T,
    t1: T,
    now: u64,
    s3: Stage<S, X>,
    t3: T,
    r: Result<(), CycleError<S>>,
) -> bool {
    T::now_rel(t0, t1, now) && tick_taken(s2, t1, now, s3, t3, r)
}

/// The votes of the shadow hooks and of the top state as one.
pub open spec fn votes_of(shadow: LoopState, top: Option<LoopState>) -> LoopState {
    match top {
        Some(vote) => shadow.combined(vote),
        None => shadow,
    }
}

/// What a cycle that came to its end leaves to do.
pub open spec fn cycle_of(vote: LoopState, inputs: BakedInputs) -> Cycle {
    Cycle {
        vote,
        screenshot: !vote.render && fresh(inputs, keys::F11),
        dump: fresh(inputs, keys::F3),
    }
}

/// One cycle took `s0` to `s3` and the source of time from `t0` to `t3`,
/// and ended with `r`.
pub open spec fn cycled<S: GameState<StateData<X>>, X, T: TimeSource>(
    s0: Stage<S, X>,
    t0: T,
    s3: Stage<S, X>,
    t3: T,
    r: Result<Cycle, CycleError<S>>,
) -> bool {
    if !s0.data.inputs.frame_can_count() {
        s3 == s0 && t3 == t0 && r == Err::<Cycle, CycleError<S>>(CycleError::HeldTooLong)
    } else {
        exists|
            s1: Stage<S, X>,
            shadow: LoopState,
            s2: Stage<S, X>,
            updated: Result<Option<LoopState>, Trans<S>>,
        |
            {
                &&& #[trigger] frame_begun(s0, s1, shadow)
                &&& #[trigger] top_state_updated(s1, s2, updated)
                &&& match updated {
                    Err(t) => s3 == s2 && t3 == t0 && r == Err::<Cycle, CycleError<S>>(
                        CycleError::Refused(t),
                    ),
                    Ok(top) => exists|t1: T, now: u64, ticked: Result<(), CycleError<S>>|
                        {
                            &&& #[trigger] tick_taken_at(s2, t0, t1, now, s3, t3, ticked)
                            &&& match ticked {
                                Err(e) => r == Err::<Cycle, CycleError<S>>(e),
                                Ok(_) => r == Ok::<Cycle, CycleError<S>>(
                                    cycle_of(votes_of(shadow, top), s3.data.inputs),
                                ),
                            }
                        },
                }
            }
    }
}

/// Does what is due at the time `now`: where a logic tick is due, samples
/// the input for it, ticks the top state and lets the clock take note. The
/// time is read once more only where the tick comes late.
pub fn take_tick<S, X, T>(
    stack: &mut StateStack<S>,
    clock: &mut TickClock,
    data: &mut StateData<X>,
    now: u64,
    time: &mut T,
) -> (r: Result<(), CycleError<S>>) where S: GameState<StateData<X>>, T: TimeSource
    ensures
        tick_taken(
            Stage { stack: old(stack)@, clock: *old(clock), data: *old(data) },
            *old(time),
            now,
            Stage { stack: final(stack)@, clock: *final(clock), data: *final(data) },
            *final(time),
            r,
        ),
{
    let ghost s2 = Stage { stack: stack@, clock: *clock, data: *data };
    let ghost t2 = *time;
    if !clock.tick_due(now) {
        return Ok(());
    }
    if !data.inputs.can_tick() {
        return Err(CycleError::HeldTooLong);
    }
    data.inputs.tick();
    let ghost d = *data;
    let ticked = stack.game_tick(data);
    match ticked {
        Err(t) => {
            let ghost s3 = Stage { stack: stack@, clock: *clock, data: *data };
            assert(top_ticked(s2.stack, d, s3.stack, s3.data, Err::<(), Trans<S>>(t)));
            Err(CycleError::Refused(t))
        },
        Ok(()) => {
            if clock.late(now) {
                let after = time.now();
                clock.finish_tick(now, after);
                assert(T::now_rel(t2, *time, after) && *clock == s2.clock.finished(now, after));
            } else {
                clock.finish_tick(now, now);
            }
            let ghost s3 = Stage { stack: stack@, clock: *clock, data: *data };
            assert(clock_set(s2.clock, t2, now, s3.clock, *time));
            assert(top_ticked(s2.stack, d, s3.stack, s3.data, Ok::<(), Trans<S>>(())));
            Ok(())
        },
    }
}

/// Runs one cycle of the main loop.
pub fn loop_once<S, X, T>(
    stack: &mut StateStack<S>,
    clock: &mut TickClock,
    data: &mut StateData<X>,
    time: &mut T,
) -> (r: Result<Cycle, CycleError<S>>) where S: GameState<StateData<X>>, T: TimeSource
    ensures
        cycled(
            Stage { stack: old(stack)@, clock: *old(clock), data: *old(data) },
            *old(time),
            Stage { stack: final(stack)@, clock: *final(clock), data: *final(data) },
            *final(time),
            r,
        ),
{
    let ghost s0 = Stage { stack: stack@, clock: *clock, data: *data };
    let ghost t0 = *time;
    if !data.inputs.can_swap_frame() {
        return Err(CycleError::HeldTooLong);
    }
    data.inputs.swap_frame();
    let mut vote = stack.shadow_update(&*data);
    let ghost s1 = Stage { stack: stack@, clock: *clock, data: *data };
    let ghost shadow = vote;
    assert(s0.data.inputs.frame_swapped(s1.data.inputs));
    assert(s1.data.extra == s0.data.extra);
    assert(s1.stack.running == s0.stack.running);
    assert(frame_begun(s0, s1, shadow));
    let updated = stack.update(data);
    let ghost s2 = Stage { stack: stack@, clock: *clock, data: *data };
    assert(top_state_updated(s1, s2, updated));
    let top = match updated {
        Err(t) => {
            return Err(CycleError::Refused(t));
        },
        Ok(top) => top,
    };
    if let Some(v) = top {
        vote.bitor_assign(v);
    }
    let now = time.now();
    let ghost t1 = *time;
    let ticked = take_tick(stack, clock, data, now, time);
    let ghost s3 = Stage { stack: stack@, clock: *clock, data: *data };
    assert(tick_taken_at(s2, t0, t1, now, s3, *time, ticked));
    match ticked {
        Err(e) => Err(e),
        Ok(()) => {
            let screenshot = screenshot_in_cycle(&vote, &data.inputs);
            let dump = dump_requested(&data.inputs);
            Ok(Cycle { vote, screenshot, dump })
        },
    }
}

} // verus!
