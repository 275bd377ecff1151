//! What the event loop does next: when it wakes again, and whether a frame
//! is due.
//!
//! Every state of the stack votes with a `LoopState`; the votes are
//! combined into one. Instants are counted in nanoseconds from a start that
//! the application picks.

use core::ops::BitOrAssign;
use vstd::prelude::*;

verus! {

/// When the event loop wakes again.
#[derive(Debug, Copy, Clone, PartialEq, Eq, Structural)]
pub enum ControlFlow {
    /// At once, again and again.
    Poll,
    /// With the next event.
    Wait,
    /// With the next event, or at the given instant.
    WaitUntil(u64),
}

impl ControlFlow {
    /// The more urgent of two modes: `Wait` yields to everything, of two
    /// deadlines the earlier stays, and everything yields to `Poll`.
    pub open spec fn merged(self, other: ControlFlow) -> ControlFlow {
        match (self, other) {
            (ControlFlow::Poll, _) => ControlFlow::Poll,
            (_, ControlFlow::Poll) => ControlFlow::Poll,
            (ControlFlow::Wait, _) => other,
            (_, ControlFlow::Wait) => self,
            (ControlFlow::WaitUntil(t1), ControlFlow::WaitUntil(t2)) => ControlFlow::WaitUntil(
                if t1 <= t2 {
                    t1
                } else {
                    t2
                },
            ),
        }
    }

    /// How long this mode lets the loop sleep at most, from the instant 0 on:
    /// nothing for `Poll`, up to the deadline for `WaitUntil`, and for `Wait`
    /// longer than any deadline.
    pub open spec fn patience(self) -> int {
        match self {
            ControlFlow::Poll => -1,
            ControlFlow::WaitUntil(t) => t as int,
            ControlFlow::Wait => u64::MAX + 1,
        }
    }
}

/// A vote on the event loop's next step.
#[derive(Debug, Copy, Clone, PartialEq, Eq, Structural)]
pub struct LoopState {
    pub control_flow: ControlFlow,
    pub render: bool,
}

impl LoopState {
    /// Wait for the next event, no frame due.
    pub open spec fn spec_wait_all() -> LoopState {
        LoopState { control_flow: ControlFlow::Wait, render: false }
    }

    /// Wait for the next event, a frame is due.
    pub open spec fn spec_wait() -> LoopState {
        LoopState { control_flow: ControlFlow::Wait, render: true }
    }

    /// Go on at once, a frame is due.
    pub open spec fn spec_poll() -> LoopState {
        LoopState { control_flow: ControlFlow::Poll, render: true }
    }

    /// Go on at once, no frame due.
    pub open spec fn spec_poll_without_render() -> LoopState {
        LoopState { control_flow: ControlFlow::Poll, render: false }
    }

    /// Wait for the next event, but no longer than `dur` from `now` on.
    pub open spec fn spec_wait_until(now: u64, dur: u64, render: bool) -> LoopState {
        LoopState { control_flow: ControlFlow::WaitUntil((now + dur) as u64), render }
    }

    /// The two votes as one: a frame is due if either asks for one, and the
    /// more urgent mode stays.
    pub open spec fn combined(self, other: LoopState) -> LoopState {
        LoopState {
            control_flow: self.control_flow.merged(other.control_flow),
            render: self.render || other.render,
        }
    }

    #[verifier::when_used_as_spec(spec_wait_all)]
    pub fn wait_all() -> (r: LoopState)
        ensures
            r == LoopState::spec_wait_all(),
    {
        LoopState { control_flow: ControlFlow::Wait, render: false }
    }

    #[verifier::when_used_as_spec(spec_wait)]
    pub fn wait() -> (r: LoopState)
        ensures
            r == LoopState::spec_wait(),
    {
        LoopState { control_flow: ControlFlow::Wait, render: true }
    }

    #[verifier::when_used_as_spec(spec_poll)]
    pub fn poll() -> (r: LoopState)
        ensures
            r == LoopState::spec_poll(),
    {
        LoopState { control_flow: ControlFlow::Poll, render: true }
    }

    #[verifier::when_used_as_spec(spec_poll_without_render)]
    pub fn poll_without_render() -> (r: LoopState)
        ensures
            r == LoopState::spec_poll_without_render(),
    {
        LoopState { control_flow: ControlFlow::Poll, render: false }
    }

    /// Wait for the next event, but no longer than `dur` from `now` on.
    #[verifier::when_used_as_spec(spec_wait_until)]
    pub fn wait_until(now: u64, dur: u64, render: bool) -> (r: LoopState)
        requires
            now + dur <= u64::MAX,
        ensures
            r == LoopState::spec_wait_until(now, dur, render),
    {
        LoopState { control_flow: ControlFlow::WaitUntil(now + dur), render }
    }
}

impl BitOrAssign for LoopState {
    /// Takes in another vote.
    fn bitor_assign(&mut self, rhs: LoopState)
        ensures
            *final(self) == old(self).combined(rhs),
    {
        self.render = self.render || rhs.render;
        match self.control_flow {
            ControlFlow::Wait => {
                self.control_flow = rhs.control_flow;
            },
            ControlFlow::WaitUntil(t1) => match rhs.control_flow {
                ControlFlow::Wait => {},
                ControlFlow::WaitUntil(t2) => {
                    self.control_flow = ControlFlow::WaitUntil(
                        if t1 <= t2 {
                            t1
                        } else {
                            t2
                        },
                    );
                },
                ControlFlow::Poll => {
                    self.control_flow = ControlFlow::Poll;
                },
            },
            ControlFlow::Poll => {},
        }
    }
}

/// The order in which votes come in does not matter.
pub proof fn lemma_combined_commutative(a: LoopState, b: LoopState)
    ensures
        a.combined(b) == b.combined(a),
{
}

/// Votes can be combined in any grouping.
pub proof fn lemma_combined_associative(a: LoopState, b: LoopState, c: LoopState)
    ensures
        a.combined(b).combined(c) == a.combined(b.combined(c)),
{
}

/// A vote that comes in twice counts once.
pub proof fn lemma_combined_idempotent(a: LoopState, b: LoopState)
    ensures
        a.combined(a) == a,
        a.combined(b).combined(b) == a.combined(b),
{
}

/// `wait_all` changes no vote.
pub proof fn lemma_wait_all_is_neutral(a: LoopState)
    ensures
        LoopState::spec_wait_all().combined(a) == a,
        a.combined(LoopState::spec_wait_all()) == a,
{
}

/// The combined mode is the one of the two that lets the loop sleep less:
/// `Wait` yields to a deadline, the later deadline to the earlier, and every
/// mode to `Poll`.
pub proof fn lemma_merged_is_more_urgent(a: ControlFlow, b: ControlFlow)
    ensures
        a.merged(b) == (if a.patience() <= b.patience() {
            a
        } else {
            b
        }),
{
}

} // verus!
