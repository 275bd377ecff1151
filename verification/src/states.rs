//! The stack of game states, and the transitions that reshape it.
//!
//! Only the top state is updated, ticked and rendered in full; every state
//! of the stack gets the shadow hooks, so that a state under an overlay
//! stays alive. What a hook does is the state's own business: each hook
//! comes with a relation between what it found and what it left, and the
//! stack's contracts say which hooks ran, on what, and in which order, in
//! terms of those relations.

use crate::loop_state::LoopState;
use core::ops::BitOrAssign;
use vstd::prelude::*;
use vstd::std_specs::vec::axiom_vec_index_decreases;

verus! {

/// What the window tells every state.
#[derive(Debug, Copy, Clone, PartialEq, Eq, Structural)]
pub enum StateEvent {
    Resize { width: u32, height: u32 },
    InputChar(char),
}

/// What a state asks the stack to do.
pub enum Trans<S> {
    /// Start the given state and put it on top.
    Push(S),
    /// Stop the top state and take it off.
    Pop,
    /// Stop the top state and put the given one in its place, unstarted.
    Switch(S),
    /// Stop every state, from the top down, and end the logic loop.
    Exit,
    /// Do the given transitions one after the other.
    Vec(Vec<Trans<S>>),
    /// Leave the stack as it is.
    Nothing,
}

/// A state of the game. `D` is what the application hands to the hooks.
///
/// Each hook has a relation that says what the hook may do. A state that
/// does not say holds its hooks to nothing.
pub trait GameState<D>: Sized {
    /// What `start` may turn a state and the data into.
    open spec fn start_rel(pre: Self, pre_data: D, post: Self, post_data: D) -> bool {
        true
    }

    /// What `stop` may turn a state and the data into.
    open spec fn stop_rel(pre: Self, pre_data: D, post: Self, post_data: D) -> bool {
        true
    }

    /// What `update` may turn a state and the data into, and answer.
    open spec fn update_rel(
        pre: Self,
        pre_data: D,
        post: Self,
        post_data: D,
        tran: Trans<Self>,
        vote: LoopState,
    ) -> bool {
        true
    }

    /// What `game_tick` may turn a state and the data into, and answer.
    open spec fn game_tick_rel(pre: Self, pre_data: D, post: Self, post_data: D, tran: Trans<Self>) -> bool {
        true
    }

    /// What `render` may turn a state and the data into, and answer.
    open spec fn render_rel(pre: Self, pre_data: D, post: Self, post_data: D, tran: Trans<Self>) -> bool {
        true
    }

    /// What `shadow_tick` may turn a state into.
    open spec fn shadow_tick_rel(pre: Self, data: D, post: Self) -> bool {
        true
    }

    /// What `shadow_update` may turn a state into, and answer.
    open spec fn shadow_update_rel(pre: Self, post: Self, vote: LoopState) -> bool {
        true
    }

    /// What `shadow_render` may turn a state into.
    open spec fn shadow_render_rel(pre: Self, data: D, post: Self) -> bool {
        true
    }

    /// What `on_event` may turn a state into.
    open spec fn on_event_rel(pre: Self, event: StateEvent, post: Self) -> bool {
        true
    }

    /// Called once, before the state goes on the stack.
    fn start(&mut self, data: &mut D)
        ensures
            Self::start_rel(*old(self), *old(data), *final(self), *final(data)),
    ;

    /// Called once, when the state leaves the stack.
    fn stop(&mut self, data: &mut D)
        ensures
            Self::stop_rel(*old(self), *old(data), *final(self), *final(data)),
    ;

    /// Called on the top state in every cycle of the loop.
    fn update(&mut self, data: &mut D) -> (r: (Trans<Self>, LoopState))
        ensures
            Self::update_rel(*old(self), *old(data), *final(self), *final(data), r.0, r.1),
    ;

    /// Called on the top state on every logic tick.
    fn game_tick(&mut self, data: &mut D) -> (r: Trans<Self>)
        ensures
            Self::game_tick_rel(*old(self), *old(data), *final(self), *final(data), r),
    ;

    /// Called on the top state for every frame.
    fn render(&mut self, data: &mut D) -> (r: Trans<Self>)
        ensures
            Self::render_rel(*old(self), *old(data), *final(self), *final(data), r),
    ;

    /// Called on every state of the stack in every cycle.
    fn shadow_tick(&mut self, data: &D)
        ensures
            Self::shadow_tick_rel(*old(self), *data, *final(self)),
    ;

    /// Called on every state of the stack in every cycle, for its vote.
    fn shadow_update(&mut self) -> (r: LoopState)
        ensures
            Self::shadow_update_rel(*old(self), *final(self), r),
    ;

    /// Called on every state of the stack for every frame.
    fn shadow_render(&mut self, data: &D)
        ensures
            Self::shadow_render_rel(*old(self), *data, *final(self)),
    ;

    /// Called on every state of the stack for every event.
    fn on_event(&mut self, event: &StateEvent)
        ensures
            Self::on_event_rel(*old(self), *event, *final(self)),
    ;
}

/// The stack as a mathematical value: the states from the bottom up, and
/// whether the logic loop goes on.
pub struct StackModel<S> {
    pub states: Seq<S>,
    pub running: bool,
}

/// `x` was started and put on top.
pub open spec fn pushed<S: GameState<D>, D>(
    m0: StackModel<S>,
    d0: D,
    x: S,
    m1: StackModel<S>,
    d1: D,
) -> bool {
    exists|y: S| #[trigger]
        S::start_rel(x, d0, y, d1) && m1 == (StackModel {
            states: m0.states.push(y),
            running: m0.running,
        })
}

/// The top state was stopped and taken off.
pub open spec fn popped<S: GameState<D>, D>(
    m0: StackModel<S>,
    d0: D,
    m1: StackModel<S>,
    d1: D,
) -> bool {
    &&& m0.states.len() > 0
    &&& exists|y: S| #[trigger] S::stop_rel(m0.states.last(), d0, y, d1)
    &&& m1 == (StackModel { states: m0.states.drop_last(), running: m0.running })
}

/// The top state was stopped and `x` put in its place as it is.
pub open spec fn switched<S: GameState<D>, D>(
    m0: StackModel<S>,
    d0: D,
    x: S,
    m1: StackModel<S>,
    d1: D,
) -> bool {
    &&& m0.states.len() > 0
    &&& exists|y: S| #[trigger] S::stop_rel(m0.states.last(), d0, y, d1)
    &&& m1 == (StackModel { states: m0.states.drop_last().push(x), running: m0.running })
}

/// Every state was stopped, the top one first, and the loop ended.
pub open spec fn exited<S: GameState<D>, D>(
    m0: StackModel<S>,
    d0: D,
    m1: StackModel<S>,
    d1: D,
) -> bool
    decreases m0.states.len(),
{
    if m0.states.len() == 0 {
        d1 == d0 && m1 == (StackModel { states: Seq::<S>::empty(), running: false })
    } else {
        exists|y: S, d: D| #[trigger]
            S::stop_rel(m0.states.last(), d0, y, d) && exited(
                StackModel { states: m0.states.drop_last(), running: m0.running },
                d,
                m1,
                d1,
            )
    }
}

/// Holds of every stack and data: the name by which `applied_all` speaks of
/// what one transition leaves for the next.
pub open spec fn between<S, D>(m: StackModel<S>, d: D) -> bool {
    true
}

/// `tran` was carried out.
pub open spec fn applied<S: GameState<D>, D>(
    m0: StackModel<S>,
    d0: D,
    tran: Trans<S>,
    m1: StackModel<S>,
    d1: D,
) -> bool
    decreases tran, 0nat, 0nat,
{
    match tran {
        Trans::Push(x) => pushed(m0, d0, x, m1, d1),
        Trans::Pop => popped(m0, d0, m1, d1),
        Trans::Switch(x) => switched(m0, d0, x, m1, d1),
        Trans::Exit => exited(m0, d0, m1, d1),
        Trans::Vec(ts) => applied_all(m0, d0, ts, 0, m1, d1),
        Trans::Nothing => m1 == m0 && d1 == d0,
    }
}

/// The transitions of `ts` from `from` on were carried out in their order,
/// each on what the one before it left.
pub open spec fn applied_all<S: GameState<D>, D>(
    m0: StackModel<S>,
    d0: D,
    ts: Vec<Trans<S>>,
    from: nat,
    m1: StackModel<S>,
    d1: D,
) -> bool
    decreases ts, 1nat, ts@.len() - from,
{
    if from >= ts@.len() {
        m1 == m0 && d1 == d0
    } else {
        exists|m: StackModel<S>, d: D| #[trigger]
            between(m, d) && applied(m0, d0, ts@[from as int], m, d) && applied_all(
                m,
                d,
                ts,
                from + 1,
                m1,
                d1,
            )
    }
}

/// One more step at the front of a run of transitions.
proof fn lemma_applied_all_step<S: GameState<D>, D>(
    m0: StackModel<S>,
    d0: D,
    ts: Vec<Trans<S>>,
    from: nat,
    m: StackModel<S>,
    d: D,
    m1: StackModel<S>,
    d1: D,
)
    requires
        from < ts@.len(),
        applied(m0, d0, ts@[from as int], m, d),
        applied_all(m, d, ts, from + 1, m1, d1),
    ensures
        applied_all(m0, d0, ts, from, m1, d1),
{
    assert(between(m, d));
}

/// One more state stopped before the rest.
proof fn lemma_exited_step<S: GameState<D>, D>(
    m0: StackModel<S>,
    d0: D,
    y: S,
    d: D,
    m1: StackModel<S>,
    d1: D,
)
    requires
        m0.states.len() > 0,
        S::stop_rel(m0.states.last(), d0, y, d),
        exited(StackModel { states: m0.states.drop_last(), running: m0.running }, d, m1, d1),
    ensures
        exited(m0, d0, m1, d1),
{
}

/// Where every state was stopped, no state is left and the loop has ended.
pub proof fn lemma_exited_empties<S: GameState<D>, D>(
    m0: StackModel<S>,
    d0: D,
    m1: StackModel<S>,
    d1: D,
)
    requires
        exited(m0, d0, m1, d1),
    ensures
        m1.states.len() == 0,
        !m1.running,
    decreases m0.states.len(),
{
    if m0.states.len() > 0 {
        let (y, d) = choose|y: S, d: D| #[trigger]
            S::stop_rel(m0.states.last(), d0, y, d) && exited(
                StackModel { states: m0.states.drop_last(), running: m0.running },
                d,
                m1,
                d1,
            );
        lemma_exited_empties(
            StackModel { states: m0.states.drop_last(), running: m0.running },
            d,
            m1,
            d1,
        );
    }
}

/// What the single transitions do to the stack: a push puts one state on
/// top of those that were there, the new state as its start hook left it; a
/// pop takes the top state off and leaves the others; a switch puts the
/// given state in the top one's place as it is; an exit leaves no state and
/// ends the loop; and nothing leaves everything.
pub proof fn lemma_single_transitions<S: GameState<D>, D>(
    m0: StackModel<S>,
    d0: D,
    tran: Trans<S>,
    m1: StackModel<S>,
    d1: D,
)
    requires
        applied(m0, d0, tran, m1, d1),
    ensures
        tran matches Trans::Push(x) ==> m1.states.len() == m0.states.len() + 1
            && m1.states.drop_last() == m0.states && S::start_rel(x, d0, m1.states.last(), d1)
            && m1.running == m0.running,
        tran is Pop ==> m0.states.len() > 0 && m1.states == m0.states.drop_last() && m1.running
            == m0.running,
        tran matches Trans::Switch(x) ==> m0.states.len() > 0 && m1.states
            == m0.states.drop_last().push(x) && m1.running == m0.running,
        tran is Exit ==> m1.states.len() == 0 && !m1.running,
        tran is Nothing ==> m1 == m0 && d1 == d0,
{
    match tran {
        Trans::Push(x) => {
            let y = choose|y: S| #[trigger]
                S::start_rel(x, d0, y, d1) && m1 == (StackModel {
                    states: m0.states.push(y),
                    running: m0.running,
                });
            assert(m0.states.push(y).drop_last() =~= m0.states);
        },
        Trans::Exit => {
            lemma_exited_empties(m0, d0, m1, d1);
        },
        _ => {},
    }
}

/// How deep a stack of `depth` states is after `tran`; nothing where `tran`
/// would pop or switch on an empty stack, or outgrow what a machine can
/// count.
pub open spec fn depth_after<S>(depth: nat, tran: Trans<S>) -> Option<nat>
    decreases tran, 0nat, 0nat,
{
    match tran {
        Trans::Push(_) => if depth < usize::MAX {
            Some(depth + 1)
        } else {
            None
        },
        Trans::Pop => if depth > 0 {
            Some((depth - 1) as nat)
        } else {
            None
        },
        Trans::Switch(_) => if depth > 0 {
            Some(depth)
        } else {
            None
        },
        Trans::Exit => Some(0),
        Trans::Vec(ts) => depth_after_all(depth, ts, 0),
        Trans::Nothing => Some(depth),
    }
}

/// `depth_after` for the transitions of `ts` from `from` on, in their order.
pub open spec fn depth_after_all<S>(depth: nat, ts: Vec<Trans<S>>, from: nat) -> Option<nat>
    decreases ts, 1nat, ts@.len() - from,
{
    if from >= ts@.len() {
        Some(depth)
    } else {
        match depth_after(depth, ts@[from as int]) {
            None => None,
            Some(d) => depth_after_all(d, ts, from + 1),
        }
    }
}

/// The depth that `tran` leaves, computed.
pub fn depth_after_exec<S>(depth: usize, tran: &Trans<S>) -> (r: Option<usize>)
    ensures
        match depth_after(depth as nat, *tran) {
            Some(d) => r == Some(d as usize) && d <= usize::MAX,
            None => r is None,
        },
    decreases tran,
{
    match tran {
        Trans::Push(_) => if depth < usize::MAX {
            Some(depth + 1)
        } else {
            None
        },
        Trans::Pop => if depth > 0 {
            Some(depth - 1)
        } else {
            None
        },
        Trans::Switch(_) => if depth > 0 {
            Some(depth)
        } else {
            None
        },
        Trans::Exit => Some(0),
        Trans::Vec(ts) => {
            let mut d: usize = depth;
            let mut i: usize = 0;
            while i < ts.len()
                invariant
                    i <= ts@.len(),
                    *tran == Trans::Vec(*ts),
                    depth_after_all(depth as nat, *ts, 0) == depth_after_all(d as nat, *ts, i as nat),
                decreases ts@.len() - i,
            {
                proof {
                    axiom_vec_index_decreases(*ts, i as int);
                    assert(tran->Vec_0 == *ts);
                    assert(decreases_to!(*tran => tran->Vec_0));
                }
                match depth_after_exec(d, &ts[i]) {
                    None => {
                        return None;
                    },
                    Some(next) => {
                        d = next;
                    },
                }
                i += 1;
            }
            Some(d)
        },
        Trans::Nothing => Some(depth),
    }
}

/// The states that run, the top one last.
pub struct StateStack<S> {
    states: Vec<S>,
    running: bool,
}

impl<S> View for StateStack<S> {
    type V = StackModel<S>;

    closed spec fn view(&self) -> StackModel<S> {
        StackModel { states: self.states@, running: self.running }
    }
}

/// The votes of the shadow hooks as one, taken in from the bottom state up.
pub open spec fn tally(votes: Seq<LoopState>) -> LoopState
    decreases votes.len(),
{
    if votes.len() == 0 {
        LoopState::spec_wait_all()
    } else {
        tally(votes.drop_last()).combined(votes.last())
    }
}

/// A state got its shadow tick and then gave its vote.
pub open spec fn shadow_updated_one<S: GameState<D>, D>(
    pre: S,
    data: D,
    post: S,
    vote: LoopState,
) -> bool {
    exists|mid: S| #[trigger]
        S::shadow_tick_rel(pre, data, mid) && S::shadow_update_rel(mid, post, vote)
}

/// Every state got its shadow tick and then gave its vote.
pub open spec fn shadow_updated<S: GameState<D>, D>(
    pre: Seq<S>,
    data: D,
    post: Seq<S>,
    votes: Seq<LoopState>,
) -> bool {
    &&& post.len() == pre.len()
    &&& votes.len() == pre.len()
    &&& forall|i: int|
        0 <= i < pre.len() ==> #[trigger] shadow_updated_one(pre[i], data, post[i], votes[i])
}

/// Every state got the hook that `rel` stands for.
pub open spec fn each<S>(pre: Seq<S>, post: Seq<S>, rel: spec_fn(S, S) -> bool) -> bool {
    &&& post.len() == pre.len()
    &&& forall|i: int| 0 <= i < pre.len() ==> #[trigger] rel(pre[i], post[i])
}

/// `m` with `top` in place of its top state.
pub open spec fn with_top<S>(m: StackModel<S>, top: S) -> StackModel<S> {
    StackModel { states: m.states.drop_last().push(top), running: m.running }
}

/// `tran`, which a hook of the top state answered, was carried out if the
/// stack can take it, and else handed back with the stack left alone.
pub open spec fn settled<S: GameState<D>, D>(
    mid: StackModel<S>,
    dm: D,
    tran: Trans<S>,
    m1: StackModel<S>,
    d1: D,
    refused: Option<Trans<S>>,
) -> bool {
    if depth_after(mid.states.len(), tran) is Some {
        refused is None && applied(mid, dm, tran, m1, d1)
    } else {
        refused == Some(tran) && m1 == mid && d1 == dm
    }
}

/// What a transition that came back is, and nothing where none came back.
pub open spec fn refused_by<S, T>(r: Result<T, Trans<S>>) -> Option<Trans<S>> {
    match r {
        Ok(_) => None,
        Err(t) => Some(t),
    }
}

/// The top state was updated and what it asked for was carried out; `r` is
/// its vote, or the transition that the stack could not take. An empty
/// stack stays as it is.
pub open spec fn top_updated<S: GameState<D>, D>(
    m0: StackModel<S>,
    d0: D,
    m1: StackModel<S>,
    d1: D,
    r: Result<Option<LoopState>, Trans<S>>,
) -> bool {
    if m0.states.len() == 0 {
        r == Ok::<Option<LoopState>, Trans<S>>(None) && m1 == m0 && d1 == d0
    } else {
        exists|top: S, dm: D, tran: Trans<S>, vote: LoopState|
            {
                &&& #[trigger] S::update_rel(m0.states.last(), d0, top, dm, tran, vote)
                &&& settled(with_top(m0, top), dm, tran, m1, d1, refused_by(r))
                &&& r is Ok ==> r == Ok::<Option<LoopState>, Trans<S>>(Some(vote))
            }
    }
}

/// The top state was ticked and what it asked for was carried out; `r` is
/// the transition that the stack could not take, if there was one. With no
/// state left the loop has ended.
pub open spec fn top_ticked<S: GameState<D>, D>(
    m0: StackModel<S>,
    d0: D,
    m1: StackModel<S>,
    d1: D,
    r: Result<(), Trans<S>>,
) -> bool {
    if m0.states.len() == 0 {
        r is Ok && m1 == (StackModel { states: m0.states, running: false }) && d1 == d0
    } else {
        exists|top: S, dm: D, tran: Trans<S>|
            {
                &&& #[trigger] S::game_tick_rel(m0.states.last(), d0, top, dm, tran)
                &&& settled(with_top(m0, top), dm, tran, m1, d1, refused_by(r))
            }
    }
}

/// The top state was rendered and what it asked for was carried out; `r` is
/// the transition that the stack could not take, if there was one. An empty
/// stack stays as it is.
pub open spec fn top_rendered<S: GameState<D>, D>(
    m0: StackModel<S>,
    d0: D,
    m1: StackModel<S>,
    d1: D,
    r: Result<(), Trans<S>>,
) -> bool {
    if m0.states.len() == 0 {
        r is Ok && m1 == m0 && d1 == d0
    } else {
        exists|top: S, dm: D, tran: Trans<S>|
            {
                &&& #[trigger] S::render_rel(m0.states.last(), d0, top, dm, tran)
                &&& settled(with_top(m0, top), dm, tran, m1, d1, refused_by(r))
            }
    }
}

impl<S> StateStack<S> {
    /// A running stack that holds `initial`, not yet started.
    pub fn new(initial: S) -> (r: Self)
        ensures
            r@ == (StackModel { states: seq![initial], running: true }),
    {
        let mut states: Vec<S> = Vec::new();
        states.push(initial);
        assert(states@ =~= seq![initial]);
        StateStack { states, running: true }
    }

    /// The number of states.
    pub fn len(&self) -> (r: usize)
        ensures
            r == self@.states.len(),
    {
        self.states.len()
    }

    /// Whether the logic loop goes on.
    pub fn is_running(&self) -> (r: bool)
        ensures
            r == self@.running,
    {
        self.running
    }

    /// The states, the top one last.
    pub fn states(&self) -> (r: &Vec<S>)
        ensures
            r@ == self@.states,
    {
        &self.states
    }

    /// Whether the stack can take `tran`: it never pops or switches on an
    /// empty stack.
    pub fn accepts(&self, tran: &Trans<S>) -> (r: bool)
        ensures
            r == (depth_after(self@.states.len(), *tran) is Some),
    {
        depth_after_exec(self.states.len(), tran).is_some()
    }

    /// Starts the state that the stack was made with.
    pub fn start_init<D>(&mut self, data: &mut D) where S: GameState<D>
        requires
            old(self)@.states.len() > 0,
        ensures
            final(self)@.states.len() == old(self)@.states.len(),
            S::start_rel(
                old(self)@.states.last(),
                *old(data),
                final(self)@.states.last(),
                *final(data),
            ),
            final(self)@ == with_top(old(self)@, final(self)@.states.last()),
    {
        let top = self.states.len() - 1;
        self.states[top].start(data);
        assert(self.states@ =~= old(self).states@.drop_last().push(self.states@[top as int]));
    }

    /// Carries out `tran`.
    pub fn process_tran<D>(&mut self, tran: Trans<S>, data: &mut D) where S: GameState<D>
        requires
            depth_after(old(self)@.states.len(), tran) is Some,
        ensures
            applied(old(self)@, *old(data), tran, final(self)@, *final(data)),
            depth_after(old(self)@.states.len(), tran) == Some(final(self)@.states.len()),
        decreases tran,
    {
        match tran {
            Trans::Push(mut x) => {
                x.start(data);
                self.states.push(x);
            },
            Trans::Pop => {
                let mut top = self.states.pop().unwrap();
                let ghost top_before = top;
                top.stop(data);
                assert(self.states@ =~= old(self).states@.drop_last());
                assert(S::stop_rel(old(self)@.states.last(), *old(data), top, *data));
            },
            Trans::Switch(x) => {
                let mut top = self.states.pop().unwrap();
                let ghost top_before = top;
                top.stop(data);
                self.states.push(x);
                assert(self.states@ =~= old(self).states@.drop_last().push(x));
                assert(S::stop_rel(old(self)@.states.last(), *old(data), top, *data));
            },
            Trans::Exit => {
                let ghost m_start = self@;
                let ghost d_start = *data;
                while self.states.len() > 0
                    invariant
                        self.running == m_start.running,
                        forall|m1: StackModel<S>, d1: D| #[trigger]
                            exited(self@, *data, m1, d1) ==> exited(m_start, d_start, m1, d1),
                    decreases self.states@.len(),
                {
                    let ghost m_before = self@;
                    let ghost d_before = *data;
                    let mut top = self.states.pop().unwrap();
                    let ghost top_before = top;
                    top.stop(data);
                    assert(self.states@ =~= m_before.states.drop_last());
                    assert forall|m1: StackModel<S>, d1: D| #[trigger]
                        exited(self@, *data, m1, d1) implies exited(m_start, d_start, m1, d1) by {
                        lemma_exited_step(m_before, d_before, top, *data, m1, d1);
                    }
                }
                let ghost m_end = self@;
                self.running = false;
                assert(self.states@ =~= Seq::<S>::empty());
                assert(exited(m_end, *data, self@, *data));
            },
            Trans::Vec(ts) => {
                let ghost all = ts;
                let ghost m_start = self@;
                let ghost d_start = *data;
                for t in it: ts.into_iter()
                    invariant
                        it.seq() == all@,
                        tran == Trans::Vec(all),
                        depth_after_all(m_start.states.len(), all, 0) is Some,
                        depth_after_all(m_start.states.len(), all, 0) == depth_after_all(
                            self@.states.len(),
                            all,
                            it.index() as nat,
                        ),
                        forall|m1: StackModel<S>, d1: D| #[trigger]
                            applied_all(self@, *data, all, it.index() as nat, m1, d1)
                                ==> applied_all(m_start, d_start, all, 0, m1, d1),
                {
                    let ghost m_before = self@;
                    let ghost d_before = *data;
                    proof {
                        axiom_vec_index_decreases(all, it.index());
                        assert(t == all@[it.index()]);
                        assert(tran->Vec_0 == all);
                        assert(decreases_to!(tran => tran->Vec_0));
                    }
                    self.process_tran(t, data);
                    assert forall|m1: StackModel<S>, d1: D| #[trigger]
                        applied_all(self@, *data, all, (it.index() + 1) as nat, m1, d1)
                        implies applied_all(m_start, d_start, all, 0, m1, d1) by {
                        let from = it.index() as nat;
                        assert(all@[from as int] == t);
                        lemma_applied_all_step(m_before, d_before, all, from, self@, *data, m1, d1);
                    }
                }
                assert(applied_all(self@, *data, all, all@.len(), self@, *data));
            },
            Trans::Nothing => {},
        }
    }

    /// Carries out what a hook of the top state answered, if the stack can
    /// take it, and hands it back if not.
    fn settle<D>(&mut self, tran: Trans<S>, data: &mut D) -> (refused: Option<Trans<S>>) where
        S: GameState<D>,

        ensures
            settled(old(self)@, *old(data), tran, final(self)@, *final(data), refused),
    {
        if self.accepts(&tran) {
            self.process_tran(tran, data);
            None
        } else {
            Some(tran)
        }
    }

    /// One round of the shadow hooks: every state, from the bottom up, gets
    /// its shadow tick and gives its vote. Returns the votes as one.
    pub fn shadow_update<D>(&mut self, data: &D) -> (r: LoopState) where S: GameState<D>
        ensures
            final(self)@.running == old(self)@.running,
            exists|votes: Seq<LoopState>| #[trigger]
                shadow_updated(old(self)@.states, *data, final(self)@.states, votes) && r == tally(
                    votes,
                ),
    {
        let mut vote = LoopState::wait_all();
        let ghost mut votes: Seq<LoopState> = Seq::empty();
        let mut i: usize = 0;
        while i < self.states.len()
            invariant
                i <= self.states@.len(),
                self.states@.len() == old(self).states@.len(),
                self.running == old(self).running,
                votes.len() == i,
                vote == tally(votes),
                forall|j: int|
                    0 <= j < i ==> #[trigger] shadow_updated_one(
                        old(self).states@[j],
                        *data,
                        self.states@[j],
                        votes[j],
                    ),
                forall|j: int| i <= j < self.states@.len() ==> self.states@[j] == old(self).states@[j],
            decreases self.states@.len() - i,
        {
            self.states[i].shadow_tick(data);
            let ghost mid = self.states@[i as int];
            let v = self.states[i].shadow_update();
            let ghost before = votes;
            proof {
                votes = votes.push(v);
                assert(votes.drop_last() =~= before);
                assert(S::shadow_tick_rel(old(self).states@[i as int], *data, mid)
                    && S::shadow_update_rel(mid, self.states@[i as int], votes[i as int]));
                assert(shadow_updated_one(
                    old(self).states@[i as int],
                    *data,
                    self.states@[i as int],
                    votes[i as int],
                ));
            }
            vote.bitor_assign(v);
            i += 1;
        }
        assert(shadow_updated(old(self)@.states, *data, self@.states, votes));
        vote
    }

    /// Updates the top state and carries out what it asks for. Returns the
    /// top state's vote, or nothing where the stack is empty. A transition
    /// that the stack cannot take comes back as the error, not carried out.
    pub fn update<D>(&mut self, data: &mut D) -> (r: Result<Option<LoopState>, Trans<S>>) where
        S: GameState<D>,

        ensures
            top_updated(old(self)@, *old(data), final(self)@, *final(data), r),
    {
        if self.states.len() == 0 {
            return Ok(None);
        }
        let top = self.states.len() - 1;
        let (tran, vote) = self.states[top].update(data);
        assert(self@ == with_top(old(self)@, self.states@[top as int])) by {
            assert(self.states@ =~= old(self).states@.drop_last().push(self.states@[top as int]));
        }
        let ghost top_after = self.states@[top as int];
        let ghost dm = *data;
        let refused = self.settle(tran, data);
        proof {
            assert(S::update_rel(old(self)@.states.last(), *old(data), top_after, dm, tran, vote));
        }
        match refused {
            None => Ok(Some(vote)),
            Some(t) => Err(t),
        }
    }

    /// Ticks the top state and carries out what it asks for; with no state
    /// left, ends the logic loop. A transition that the stack cannot take
    /// comes back as the error, not carried out.
    pub fn game_tick<D>(&mut self, data: &mut D) -> (r: Result<(), Trans<S>>) where S: GameState<D>
        ensures
            top_ticked(old(self)@, *old(data), final(self)@, *final(data), r),
    {
        if self.states.len() == 0 {
            self.running = false;
            return Ok(());
        }
        let top = self.states.len() - 1;
        let tran = self.states[top].game_tick(data);
        assert(self@ == with_top(old(self)@, self.states@[top as int])) by {
            assert(self.states@ =~= old(self).states@.drop_last().push(self.states@[top as int]));
        }
        let ghost top_after = self.states@[top as int];
        let ghost dm = *data;
        let refused = self.settle(tran, data);
        proof {
            assert(S::game_tick_rel(old(self)@.states.last(), *old(data), top_after, dm, tran));
        }
        match refused {
            None => Ok(()),
            Some(t) => Err(t),
        }
    }

    /// Gives every state, from the bottom up, its shadow render.
    pub fn shadow_render<D>(&mut self, data: &D) where S: GameState<D>
        ensures
            final(self)@.running == old(self)@.running,
            each(
                old(self)@.states,
                final(self)@.states,
                |pre: S, post: S| S::shadow_render_rel(pre, *data, post),
            ),
    {
        let mut i: usize = 0;
        while i < self.states.len()
            invariant
                i <= self.states@.len(),
                self.states@.len() == old(self).states@.len(),
                self.running == old(self).running,
                forall|j: int|
                    0 <= j < i ==> #[trigger] S::shadow_render_rel(
                        old(self).states@[j],
                        *data,
                        self.states@[j],
                    ),
                forall|j: int| i <= j < self.states@.len() ==> self.states@[j] == old(self).states@[j],
            decreases self.states@.len() - i,
        {
            self.states[i].shadow_render(data);
            i += 1;
        }
    }

    /// Renders the top state and carries out what it asks for. A transition
    /// that the stack cannot take comes back as the error, not carried out.
    pub fn render<D>(&mut self, data: &mut D) -> (r: Result<(), Trans<S>>) where S: GameState<D>
        ensures
            top_rendered(old(self)@, *old(data), final(self)@, *final(data), r),
    {
        if self.states.len() == 0 {
            return Ok(());
        }
        let top = self.states.len() - 1;
        let tran = self.states[top].render(data);
        assert(self@ == with_top(old(self)@, self.states@[top as int])) by {
            assert(self.states@ =~= old(self).states@.drop_last().push(self.states@[top as int]));
        }
        let ghost top_after = self.states@[top as int];
        let ghost dm = *data;
        let refused = self.settle(tran, data);
        proof {
            assert(S::render_rel(old(self)@.states.last(), *old(data), top_after, dm, tran));
        }
        match refused {
            None => Ok(()),
            Some(t) => Err(t),
        }
    }

    /// Tells every state of the stack, from the bottom up, of `event`.
    pub fn on_event<D>(&mut self, event: &StateEvent) where S: GameState<D>
        ensures
            final(self)@.running == old(self)@.running,
            each(
                old(self)@.states,
                final(self)@.states,
                |pre: S, post: S| S::on_event_rel(pre, *event, post),
            ),
    {
        let mut i: usize = 0;
        while i < self.states.len()
            invariant
                i <= self.states@.len(),
                self.states@.len() == old(self).states@.len(),
                self.running == old(self).running,
                forall|j: int|
                    0 <= j < i ==> #[trigger] S::on_event_rel(
                        old(self).states@[j],
                        *event,
                        self.states@[j],
                    ),
                forall|j: int| i <= j < self.states@.len() ==> self.states@[j] == old(self).states@[j],
            decreases self.states@.len() - i,
        {
            self.states[i].on_event(event);
            i += 1;
        }
    }
}

} // verus!
