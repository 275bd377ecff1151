//! Held keys, and the game input baked from them.
//!
//! Key events arrive in bursts between two samples. Two timelines sample
//! them independently: one on every rendered frame, one on every logic
//! tick. Each keeps, for every action, how many samples in a row the
//! action's key has been held.

use crate::keys;
use std::collections::HashSet;
use vstd::prelude::*;
use vstd::std_specs::hash::group_hash_axioms;

verus! {

/// The processed view of the controls: for each action the number of
/// samples it has been held without a break (0: not held), and the
/// direction of movement.
#[derive(Debug, Copy, Clone, PartialEq, Eq)]
pub struct GameInputData {
    pub shoot: u32,
    pub slow: u32,
    pub bomb: u32,
    pub sp: u32,
    pub up: u32,
    pub down: u32,
    pub left: u32,
    pub right: u32,
    pub direction: (i32, i32),
    pub enter: u32,
    pub esc: u32,
}

/// Which of the actions are held.
pub struct HeldActions {
    pub shoot: bool,
    pub slow: bool,
    pub bomb: bool,
    pub sp: bool,
    pub up: bool,
    pub down: bool,
    pub left: bool,
    pub right: bool,
    pub enter: bool,
    pub esc: bool,
}

/// The actions that a set of held keys holds.
pub open spec fn held_actions(pressing: Set<u32>) -> HeldActions {
    HeldActions {
        shoot: pressing.contains(keys::Z),
        slow: pressing.contains(keys::LSHIFT),
        bomb: pressing.contains(keys::X),
        sp: pressing.contains(keys::C),
        up: pressing.contains(keys::UP),
        down: pressing.contains(keys::DOWN),
        left: pressing.contains(keys::LEFT),
        right: pressing.contains(keys::RIGHT),
        enter: pressing.contains(keys::RETURN) || pressing.contains(keys::NUMPAD_ENTER),
        esc: pressing.contains(keys::ESCAPE),
    }
}

/// A counter after one more sample: one more while held, zero once
/// released, whatever it was.
pub open spec fn next_count(previous: u32, held: bool) -> int {
    if held {
        previous + 1
    } else {
        0
    }
}

/// The sign of one axis, from how long the key towards the negative side
/// and the key towards the positive side have been held: the key pressed
/// last wins; equal counts, and so two released keys, give 0.
pub open spec fn axis(negative: u32, positive: u32) -> int {
    if negative == positive {
        0
    } else if negative == 0 {
        1
    } else if positive == 0 || negative < positive {
        -1
    } else {
        1
    }
}

/// The direction of movement that four held-counters give. The horizontal
/// axis is positive to the right, the vertical axis positive upwards.
pub open spec fn spec_direction(up: u32, down: u32, left: u32, right: u32) -> (i32, i32) {
    (axis(left, right) as i32, axis(down, up) as i32)
}

/// The direction of movement that four held-counters give.
pub fn get_direction(up: u32, down: u32, left: u32, right: u32) -> (r: (i32, i32))
    ensures
        r == spec_direction(up, down, left, right),
{
    let x: i32 = if left == right {
        0
    } else if left == 0 {
        1
    } else if right == 0 || left < right {
        -1
    } else {
        1
    };
    let y: i32 = if up == down {
        0
    } else if up == 0 {
        -1
    } else if down == 0 || up < down {
        1
    } else {
        -1
    };
    (x, y)
}

/// What an axis says, read off the two counters: it is 0 exactly for equal
/// counts; otherwise a single held key decides, and of two held keys the one
/// held for fewer samples.
pub proof fn lemma_axis(negative: u32, positive: u32)
    ensures
        -1 <= axis(negative, positive) <= 1,
        axis(negative, positive) == 0 <==> negative == positive,
        negative > 0 && positive == 0 ==> axis(negative, positive) == -1,
        negative == 0 && positive > 0 ==> axis(negative, positive) == 1,
        0 < negative < positive ==> axis(negative, positive) == -1,
        0 < positive < negative ==> axis(negative, positive) == 1,
        axis(positive, negative) == -axis(negative, positive),
{
}

/// What the counting rule asks of one counter: one more than before while
/// its action is held, as long as there is a number for that, and zero
/// once it is released, whatever the counter was.
pub open spec fn counted_on(previous: u32, held: bool, next: u32) -> bool {
    &&& held && previous < u32::MAX ==> next == previous + 1
    &&& !held ==> next == 0
}

/// A sample follows the counting rule in each of its counters, whatever
/// the other counters hold.
pub proof fn lemma_each_counter_counts(g: GameInputData, held: HeldActions)
    ensures
        counted_on(g.shoot, held.shoot, g.sampled(held).shoot),
        counted_on(g.slow, held.slow, g.sampled(held).slow),
        counted_on(g.bomb, held.bomb, g.sampled(held).bomb),
        counted_on(g.sp, held.sp, g.sampled(held).sp),
        counted_on(g.up, held.up, g.sampled(held).up),
        counted_on(g.down, held.down, g.sampled(held).down),
        counted_on(g.left, held.left, g.sampled(held).left),
        counted_on(g.right, held.right, g.sampled(held).right),
        counted_on(g.enter, held.enter, g.sampled(held).enter),
        counted_on(g.esc, held.esc, g.sampled(held).esc),
{
}

impl GameInputData {
    /// Nothing held, no direction.
    pub open spec fn zero() -> GameInputData {
        GameInputData {
            shoot: 0,
            slow: 0,
            bomb: 0,
            sp: 0,
            up: 0,
            down: 0,
            left: 0,
            right: 0,
            direction: (0, 0),
            enter: 0,
            esc: 0,
        }
    }

    /// No counter of a held action is at its limit.
    pub open spec fn can_count(self, held: HeldActions) -> bool {
        &&& held.shoot ==> self.shoot < u32::MAX
        &&& held.slow ==> self.slow < u32::MAX
        &&& held.bomb ==> self.bomb < u32::MAX
        &&& held.sp ==> self.sp < u32::MAX
        &&& held.up ==> self.up < u32::MAX
        &&& held.down ==> self.down < u32::MAX
        &&& held.left ==> self.left < u32::MAX
        &&& held.right ==> self.right < u32::MAX
        &&& held.enter ==> self.enter < u32::MAX
        &&& held.esc ==> self.esc < u32::MAX
    }

    /// The input after one more sample in which `held` is held.
    pub open spec fn sampled(self, held: HeldActions) -> GameInputData {
        let up = next_count(self.up, held.up) as u32;
        let down = next_count(self.down, held.down) as u32;
        let left = next_count(self.left, held.left) as u32;
        let right = next_count(self.right, held.right) as u32;
        GameInputData {
            shoot: next_count(self.shoot, held.shoot) as u32,
            slow: next_count(self.slow, held.slow) as u32,
            bomb: next_count(self.bomb, held.bomb) as u32,
            sp: next_count(self.sp, held.sp) as u32,
            up,
            down,
            left,
            right,
            direction: spec_direction(up, down, left, right),
            enter: next_count(self.enter, held.enter) as u32,
            esc: next_count(self.esc, held.esc) as u32,
        }
    }

    /// Back to the state in which nothing is held.
    pub fn clear(&mut self)
        ensures
            *final(self) == GameInputData::zero(),
    {
        *self = GameInputData::default();
    }

    /// The input of a first sample: 1 for each held action.
    pub fn from(r: &RawInputData) -> (g: GameInputData)
        ensures
            g == GameInputData::zero().sampled(held_actions(r.pressing@)),
    {
        let mut g = GameInputData::default();
        tick_mut(&mut g, r);
        g
    }
}

impl Default for GameInputData {
    fn default() -> (r: GameInputData)
        ensures
            r == GameInputData::zero(),
    {
        GameInputData {
            shoot: 0,
            slow: 0,
            bomb: 0,
            sp: 0,
            up: 0,
            down: 0,
            left: 0,
            right: 0,
            direction: (0, 0),
            enter: 0,
            esc: 0,
        }
    }
}

/// The keys that are down, and where the pointer is.
#[derive(Debug)]
pub struct RawInputData {
    /// The bits of the pointer's horizontal position, a 32-bit float.
    pub x: u32,
    /// The bits of the pointer's vertical position, a 32-bit float.
    pub y: u32,
    /// The codes of the keys that are down.
    pub pressing: HashSet<u32>,
}

/// Whether `key` is among `pressing`.
fn is_down(pressing: &HashSet<u32>, key: u32) -> (r: bool)
    ensures
        r == pressing@.contains(key),
{
    broadcast use group_hash_axioms;

    pressing.contains(&key)
}

/// Adds every key of `keys` to `pressing`.
fn press_all(pressing: &mut HashSet<u32>, keys: &HashSet<u32>)
    ensures
        final(pressing)@ == old(pressing)@.union(keys@),
{
    broadcast use group_hash_axioms;

    let ghost start = pressing@;
    for key in it: keys.iter()
        invariant
            it.seq().unref().to_set() == keys@,
            forall|k: u32| #[trigger]
                pressing@.contains(k) <==> start.contains(k) || exists|j: int|
                    0 <= j < it.index() && #[trigger] it.seq().unref()[j] == k,
    {
        pressing.insert(*key);
        assert(it.seq().unref()[it.index()] == *key);
    }
    assert(pressing@ =~= start.union(keys@));
}

/// Takes from `pressing` every key of `keys` that `seen` holds.
fn release_seen(pressing: &mut HashSet<u32>, keys: &HashSet<u32>, seen: &HashSet<u32>)
    ensures
        final(pressing)@ == old(pressing)@.difference(keys@.intersect(seen@)),
{
    broadcast use group_hash_axioms;

    let ghost start = pressing@;
    for key in it: keys.iter()
        invariant
            it.seq().unref().to_set() == keys@,
            forall|k: u32| #[trigger]
                pressing@.contains(k) <==> start.contains(k) && !(seen@.contains(k) && exists|
                    j: int,
                | 0 <= j < it.index() && #[trigger] it.seq().unref()[j] == k),
    {
        if seen.contains(key) {
            pressing.remove(key);
        }
        assert(it.seq().unref()[it.index()] == *key);
    }
    assert(pressing@ =~= start.difference(keys@.intersect(seen@)));
}

impl RawInputData {
    /// No key down, the pointer at the origin.
    pub fn empty() -> (r: RawInputData)
        ensures
            r.pressing@ == Set::<u32>::empty(),
            r.x == 0,
            r.y == 0,
    {
        RawInputData { x: 0, y: 0, pressing: HashSet::new() }
    }
}

impl Default for RawInputData {
    fn default() -> (r: RawInputData)
        ensures
            r.pressing@ == Set::<u32>::empty(),
            r.x == 0,
            r.y == 0,
    {
        RawInputData::empty()
    }
}

impl Clone for RawInputData {
    fn clone(&self) -> (r: RawInputData)
        ensures
            r.pressing@ == self.pressing@,
            r.x == self.x,
            r.y == self.y,
    {
        let mut pressing: HashSet<u32> = HashSet::new();
        press_all(&mut pressing, &self.pressing);
        assert(pressing@ =~= self.pressing@);
        RawInputData { x: self.x, y: self.y, pressing }
    }
}

/// One counter, one sample on: one more while its action is held, zero
/// once it is released. A counter at its limit cannot count a held action.
pub fn inc_or_zero(count: &mut u32, held: bool)
    requires
        held ==> *old(count) < u32::MAX,
    ensures
        *final(count) == next_count(*old(count), held),
{
    if held {
        *count += 1;
    } else {
        *count = 0;
    }
}

/// Whether a counter can go one up, should its action be held.
fn can_inc(count: u32, held: bool) -> (r: bool)
    ensures
        r == (held ==> count < u32::MAX),
{
    !held || count < u32::MAX
}

/// Whether `gin` can take one more sample of `r`: no counter of an action
/// that is held is at its limit.
pub fn can_sample(gin: &GameInputData, r: &RawInputData) -> (ok: bool)
    ensures
        ok == gin.can_count(held_actions(r.pressing@)),
{
    can_inc(gin.shoot, is_down(&r.pressing, keys::Z)) && can_inc(
        gin.slow,
        is_down(&r.pressing, keys::LSHIFT),
    ) && can_inc(gin.bomb, is_down(&r.pressing, keys::X)) && can_inc(
        gin.sp,
        is_down(&r.pressing, keys::C),
    ) && can_inc(gin.up, is_down(&r.pressing, keys::UP)) && can_inc(
        gin.down,
        is_down(&r.pressing, keys::DOWN),
    ) && can_inc(gin.left, is_down(&r.pressing, keys::LEFT)) && can_inc(
        gin.right,
        is_down(&r.pressing, keys::RIGHT),
    ) && can_inc(
        gin.enter,
        is_down(&r.pressing, keys::RETURN) || is_down(&r.pressing, keys::NUMPAD_ENTER),
    ) && can_inc(gin.esc, is_down(&r.pressing, keys::ESCAPE))
}

/// Takes one sample: every counter of `gin` goes one up while its action is
/// held in `r` and back to zero otherwise, and the direction follows the
/// new counters.
pub fn tick_mut(gin: &mut GameInputData, r: &RawInputData)
    requires
        old(gin).can_count(held_actions(r.pressing@)),
    ensures
        *final(gin) == old(gin).sampled(held_actions(r.pressing@)),
{
    inc_or_zero(&mut gin.shoot, is_down(&r.pressing, keys::Z));
    inc_or_zero(&mut gin.slow, is_down(&r.pressing, keys::LSHIFT));
    inc_or_zero(&mut gin.bomb, is_down(&r.pressing, keys::X));
    inc_or_zero(&mut gin.sp, is_down(&r.pressing, keys::C));
    inc_or_zero(&mut gin.up, is_down(&r.pressing, keys::UP));
    inc_or_zero(&mut gin.down, is_down(&r.pressing, keys::DOWN));
    inc_or_zero(&mut gin.left, is_down(&r.pressing, keys::LEFT));
    inc_or_zero(&mut gin.right, is_down(&r.pressing, keys::RIGHT));
    inc_or_zero(
        &mut gin.enter,
        is_down(&r.pressing, keys::RETURN) || is_down(&r.pressing, keys::NUMPAD_ENTER),
    );
    inc_or_zero(&mut gin.esc, is_down(&r.pressing, keys::ESCAPE));
    gin.direction = get_direction(gin.up, gin.down, gin.left, gin.right);
}

/// The two timelines of baked input.
pub struct BakedInputs {
    /// The keys held since the last frame, as far as events have told.
    pub cur_temp_input: RawInputData,
    pub last_frame_input: RawInputData,
    pub cur_frame_input: RawInputData,
    pub cur_frame_game_input: GameInputData,
    /// The keys held since the last tick, as far as events have told.
    pub cur_temp_game_input: RawInputData,
    /// What `cur_temp_game_input` was at the last tick.
    pub last_temp_game_input: RawInputData,
    /// Sampled on ticks only.
    pub cur_game_input: GameInputData,
}

impl Default for BakedInputs {
    fn default() -> (r: BakedInputs)
        ensures
            r.is_fresh(),
    {
        BakedInputs {
            cur_temp_input: RawInputData::empty(),
            last_frame_input: RawInputData::empty(),
            cur_frame_input: RawInputData::empty(),
            cur_frame_game_input: GameInputData::default(),
            cur_temp_game_input: RawInputData::empty(),
            last_temp_game_input: RawInputData::empty(),
            cur_game_input: GameInputData::default(),
        }
    }
}

impl BakedInputs {
    /// No key was ever down.
    pub open spec fn is_fresh(self) -> bool {
        &&& self.cur_temp_input.pressing@ == Set::<u32>::empty()
        &&& self.last_frame_input.pressing@ == Set::<u32>::empty()
        &&& self.cur_frame_input.pressing@ == Set::<u32>::empty()
        &&& self.cur_temp_game_input.pressing@ == Set::<u32>::empty()
        &&& self.last_temp_game_input.pressing@ == Set::<u32>::empty()
        &&& self.cur_frame_game_input == GameInputData::zero()
        &&& self.cur_game_input == GameInputData::zero()
    }

    /// No counter of the frame timeline is at its limit for a key that is
    /// held.
    pub open spec fn frame_can_count(self) -> bool {
        self.cur_frame_game_input.can_count(held_actions(self.cur_temp_input.pressing@))
    }

    /// No counter of the tick timeline is at its limit for a key that is
    /// held.
    pub open spec fn tick_can_count(self) -> bool {
        self.cur_game_input.can_count(held_actions(self.cur_temp_game_input.pressing@))
    }

    /// `post` is what a new frame makes of these inputs: the current
    /// frame's keys have become the last frame's, the keys held since have
    /// become the current frame's, and the frame timeline has taken one
    /// sample of them.
    pub open spec fn frame_swapped(self, post: BakedInputs) -> bool {
        &&& post.last_frame_input == self.cur_frame_input
        &&& post.cur_frame_input.pressing@ == self.cur_temp_input.pressing@
        &&& post.cur_frame_input.x == self.cur_temp_input.x
        &&& post.cur_frame_input.y == self.cur_temp_input.y
        &&& post.cur_frame_game_input == self.cur_frame_game_input.sampled(
            held_actions(self.cur_temp_input.pressing@),
        )
        &&& post.cur_temp_input == self.cur_temp_input
        &&& post.cur_temp_game_input == self.cur_temp_game_input
        &&& post.last_temp_game_input == self.last_temp_game_input
        &&& post.cur_game_input == self.cur_game_input
    }

    /// `post` is what a logic tick makes of these inputs: the tick timeline
    /// has taken one sample of the keys held since the last tick, and
    /// remembers them as the last tick's.
    pub open spec fn ticked(self, post: BakedInputs) -> bool {
        &&& post.cur_game_input == self.cur_game_input.sampled(
            held_actions(self.cur_temp_game_input.pressing@),
        )
        &&& post.last_temp_game_input.pressing@ == self.cur_temp_game_input.pressing@
        &&& post.last_temp_game_input.x == self.cur_temp_game_input.x
        &&& post.last_temp_game_input.y == self.cur_temp_game_input.y
        &&& post.cur_temp_game_input == self.cur_temp_game_input
        &&& post.cur_temp_input == self.cur_temp_input
        &&& post.last_frame_input == self.last_frame_input
        &&& post.cur_frame_input == self.cur_frame_input
        &&& post.cur_frame_game_input == self.cur_frame_game_input
    }

    /// Whether a new frame can be started.
    pub fn can_swap_frame(&self) -> (r: bool)
        ensures
            r == self.frame_can_count(),
    {
        can_sample(&self.cur_frame_game_input, &self.cur_temp_input)
    }

    /// Whether a logic tick can be taken.
    pub fn can_tick(&self) -> (r: bool)
        ensures
            r == self.tick_can_count(),
    {
        can_sample(&self.cur_game_input, &self.cur_temp_game_input)
    }

    /// Takes in the keys pressed and released since the last call. A
    /// pressed key is held on both timelines. A released key leaves a
    /// timeline only if the timeline's last sample saw it held: a key
    /// pressed and released between two samples still shows in the next.
    pub fn process(&mut self, pressed: &HashSet<u32>, released: &HashSet<u32>)
        ensures
            final(self).cur_temp_input.pressing@ == old(self).cur_temp_input.pressing@.union(
                pressed@,
            ).difference(released@.intersect(old(self).cur_frame_input.pressing@)),
            final(self).cur_temp_game_input.pressing@
                == old(self).cur_temp_game_input.pressing@.union(pressed@).difference(
                released@.intersect(old(self).last_temp_game_input.pressing@),
            ),
            final(self).cur_temp_input.x == old(self).cur_temp_input.x,
            final(self).cur_temp_input.y == old(self).cur_temp_input.y,
            final(self).cur_temp_game_input.x == old(self).cur_temp_game_input.x,
            final(self).cur_temp_game_input.y == old(self).cur_temp_game_input.y,
            final(self).last_frame_input == old(self).last_frame_input,
            final(self).cur_frame_input == old(self).cur_frame_input,
            final(self).cur_frame_game_input == old(self).cur_frame_game_input,
            final(self).last_temp_game_input == old(self).last_temp_game_input,
            final(self).cur_game_input == old(self).cur_game_input,
    {
        press_all(&mut self.cur_temp_input.pressing, pressed);
        press_all(&mut self.cur_temp_game_input.pressing, pressed);
        release_seen(
            &mut self.cur_temp_game_input.pressing,
            released,
            &self.last_temp_game_input.pressing,
        );
        release_seen(&mut self.cur_temp_input.pressing, released, &self.cur_frame_input.pressing);
    }

    /// Starts a frame: the current frame's keys become the last frame's,
    /// the keys held since become the current frame's, and the frame
    /// timeline takes one sample of them.
    pub fn swap_frame(&mut self)
        requires
            old(self).frame_can_count(),
        ensures
            old(self).frame_swapped(*final(self)),
    {
        std::mem::swap(&mut self.cur_frame_input, &mut self.last_frame_input);
        self.cur_frame_input = self.cur_temp_input.clone();
        tick_mut(&mut self.cur_frame_game_input, &self.cur_frame_input);
    }

    /// A logic tick: the tick timeline takes one sample of the keys held
    /// since the last tick, and remembers them as the last tick's.
    pub fn tick(&mut self)
        requires
            old(self).tick_can_count(),
        ensures
            old(self).ticked(*final(self)),
    {
        tick_mut(&mut self.cur_game_input, &self.cur_temp_game_input);
        self.last_temp_game_input = self.cur_temp_game_input.clone();
    }

    /// Whether the chord `keys` was pressed with this frame: every key of
    /// it is down in the current frame, and one of them was not in the last.
    pub fn is_pressed(&self, keys: &[u32]) -> (r: bool)
        ensures
            r == ((exists|i: int|
                0 <= i < keys@.len() && !self.last_frame_input.pressing@.contains(
                    #[trigger] keys@[i],
                )) && (forall|i: int|
                0 <= i < keys@.len() ==> self.cur_frame_input.pressing@.contains(
                    #[trigger] keys@[i],
                ))),
    {
        let mut fresh: bool = false;
        let mut i: usize = 0;
        while i < keys.len()
            invariant
                i <= keys@.len(),
                fresh == (exists|j: int|
                    0 <= j < i && !self.last_frame_input.pressing@.contains(#[trigger] keys@[j])),
                forall|j: int|
                    0 <= j < i ==> self.cur_frame_input.pressing@.contains(#[trigger] keys@[j]),
            decreases keys@.len() - i,
        {
            if !is_down(&self.cur_frame_input.pressing, keys[i]) {
                return false;
            }
            if !is_down(&self.last_frame_input.pressing, keys[i]) {
                fresh = true;
            }
            i += 1;
        }
        fresh
    }
}

} // verus!
