//! Counting the loads that are under way, done and failed.
//!
//! A progress holds three counters. Every load gets a tracker when it is
//! queued. The tracker counts the load as finished exactly once: when it is
//! told so, when the load reports an error, or when it is discarded. The
//! counters are plain numbers here; sharing them between threads is the
//! caller's business. Like the atomic counters they stand for, they wrap
//! around at their limit.

use vstd::prelude::*;

verus! {

/// The three counters as mathematical values.
pub struct Counts {
    pub loading: u16,
    pub finished: u16,
    pub errors: u16,
}

/// One more, wrapping around at the limit.
pub open spec fn wrapping_inc(n: u16) -> u16 {
    if n == u16::MAX {
        0
    } else {
        (n + 1) as u16
    }
}

/// One less, wrapping around at zero.
pub open spec fn wrapping_dec(n: u16) -> u16 {
    if n == 0 {
        u16::MAX
    } else {
        (n - 1) as u16
    }
}

impl Counts {
    /// No load was ever queued.
    pub open spec fn zero() -> Counts {
        Counts { loading: 0, finished: 0, errors: 0 }
    }

    /// After one more load was queued.
    pub open spec fn created(self) -> Counts {
        Counts { loading: wrapping_inc(self.loading), ..self }
    }

    /// After one load went from under way to finished.
    pub open spec fn completed(self) -> Counts {
        Counts {
            loading: wrapping_dec(self.loading),
            finished: wrapping_inc(self.finished),
            ..self
        }
    }

    /// After one more error was reported.
    pub open spec fn failed(self) -> Counts {
        Counts { errors: wrapping_inc(self.errors), ..self }
    }

    /// After a tracker that is `loaded` or not was told that its load
    /// ended: only the first time counts.
    pub open spec fn ended(self, loaded: bool) -> Counts {
        if loaded {
            self
        } else {
            self.completed()
        }
    }
}

/// Something that counts loads.
pub trait Progress: Sized {
    type Tracker: ProgressTracker<Self>;

    /// How many loads are under way.
    fn num_loading(&self) -> u16;

    /// How many loads have ended.
    fn num_finished(&self) -> u16;

    /// How many errors were reported.
    fn error_nums(&self) -> u16;

    /// Counts one more load as under way and hands out its tracker.
    fn create_tracker(&mut self) -> Self::Tracker;
}

/// The handle of one load on a progress of type `P`.
pub trait ProgressTracker<P> {
    /// The load has ended.
    fn end_loading(&mut self, progress: &mut P) {
    }

    /// The load has met an error.
    fn new_error_num(&mut self, progress: &mut P) {
    }
}

/// The progress that counts nothing.
impl Progress for () {
    type Tracker = ();

    fn num_loading(&self) -> (r: u16)
        ensures
            r == 0,
    {
        0
    }

    fn num_finished(&self) -> (r: u16)
        ensures
            r == 0,
    {
        0
    }

    fn error_nums(&self) -> (r: u16)
        ensures
            r == 0,
    {
        0
    }

    fn create_tracker(&mut self) -> Self::Tracker {
        ()
    }
}

impl<P> ProgressTracker<P> for () {

}

/// The counters of a group of loads.
pub struct CounterProgress {
    loading: u16,
    finished: u16,
    errors: u16,
}

impl View for CounterProgress {
    type V = Counts;

    closed spec fn view(&self) -> Counts {
        Counts { loading: self.loading, finished: self.finished, errors: self.errors }
    }
}

/// The tracker of one load on a `CounterProgress`.
pub struct CounterProgressTracker {
    loaded: bool,
}

impl View for CounterProgressTracker {
    type V = bool;

    /// Whether the load was counted as finished.
    closed spec fn view(&self) -> bool {
        self.loaded
    }
}

impl Default for CounterProgress {
    fn default() -> (r: CounterProgress)
        ensures
            r@ == Counts::zero(),
    {
        CounterProgress { loading: 0, finished: 0, errors: 0 }
    }
}

impl Progress for CounterProgress {
    type Tracker = CounterProgressTracker;

    fn num_loading(&self) -> (r: u16)
        ensures
            r == self@.loading,
    {
        self.loading
    }

    fn num_finished(&self) -> (r: u16)
        ensures
            r == self@.finished,
    {
        self.finished
    }

    fn error_nums(&self) -> (r: u16)
        ensures
            r == self@.errors,
    {
        self.errors
    }

    fn create_tracker(&mut self) -> (r: CounterProgressTracker)
        ensures
            final(self)@ == old(self)@.created(),
            !r@,
    {
        self.loading = self.loading.wrapping_add(1);
        CounterProgressTracker { loaded: false }
    }
}

impl ProgressTracker<CounterProgress> for CounterProgressTracker {
    /// Counts the load as finished, unless it was counted before.
    fn end_loading(&mut self, progress: &mut CounterProgress)
        ensures
            final(self)@,
            final(progress)@ == old(progress)@.ended(old(self)@),
    {
        if !self.loaded {
            self.loaded = true;
            progress.loading = progress.loading.wrapping_sub(1);
            progress.finished = progress.finished.wrapping_add(1);
        }
    }

    /// Counts one more error, and the load as finished unless it was
    /// counted before.
    fn new_error_num(&mut self, progress: &mut CounterProgress)
        ensures
            final(self)@,
            final(progress)@ == old(progress)@.ended(old(self)@).failed(),
    {
        self.end_loading(progress);
        progress.errors = progress.errors.wrapping_add(1);
    }
}

impl CounterProgressTracker {
    /// Gives the tracker up: the load counts as finished, unless it was
    /// counted before.
    pub fn discard(self, progress: &mut CounterProgress)
        ensures
            final(progress)@ == old(progress)@.ended(self@),
    {
        let mut tracker = self;
        tracker.end_loading(progress);
    }

    /// Whether the load was counted as finished.
    pub fn is_loaded(&self) -> (r: bool)
        ensures
            r == self@,
    {
        self.loaded
    }
}

/// One thing that happens to a progress and its trackers. Trackers are
/// numbered in the order in which they were handed out.
pub enum Step {
    Create,
    EndLoading(nat),
    NewError(nat),
    Discard(nat),
}

/// A progress together with all the trackers it ever handed out.
pub struct Ledger {
    pub counts: Counts,
    /// For each tracker, whether its load was counted as finished.
    pub loaded: Seq<bool>,
    /// For each tracker, whether its load reported an error.
    pub failed: Seq<bool>,
}

impl Ledger {
    /// A fresh progress.
    pub open spec fn start() -> Ledger {
        Ledger { counts: Counts::zero(), loaded: Seq::empty(), failed: Seq::empty() }
    }

    /// The ledger after `step`, as the operations on the counters and the
    /// trackers leave it. A step on a tracker that was never handed out
    /// changes nothing.
    pub open spec fn after(self, step: Step) -> Ledger {
        match step {
            Step::Create => Ledger {
                counts: self.counts.created(),
                loaded: self.loaded.push(false),
                failed: self.failed.push(false),
            },
            Step::EndLoading(i) | Step::Discard(i) => if i < self.loaded.len() {
                Ledger {
                    counts: self.counts.ended(self.loaded[i as int]),
                    loaded: self.loaded.update(i as int, true),
                    ..self
                }
            } else {
                self
            },
            Step::NewError(i) => if i < self.loaded.len() {
                Ledger {
                    counts: self.counts.ended(self.loaded[i as int]).failed(),
                    loaded: self.loaded.update(i as int, true),
                    failed: self.failed.update(i as int, true),
                }
            } else {
                self
            },
        }
    }

    /// The ledger after all of `steps`, taken from a fresh progress.
    pub open spec fn run(steps: Seq<Step>) -> Ledger
        decreases steps.len(),
    {
        if steps.len() == 0 {
            Ledger::start()
        } else {
            Ledger::run(steps.drop_last()).after(steps.last())
        }
    }

    /// `step` reports an error of a tracker that has reported one before.
    pub open spec fn fails_again(self, step: Step) -> bool {
        step matches Step::NewError(i) && i < self.failed.len() && self.failed[i as int]
    }
}

/// No more trackers are handed out in `steps` than a counter can count.
pub open spec fn within_limit(steps: Seq<Step>) -> bool {
    Ledger::run(steps).loaded.len() <= u16::MAX
}

/// No tracker reports more than one error in `steps`.
pub open spec fn fails_once(steps: Seq<Step>) -> bool
    decreases steps.len(),
{
    steps.len() > 0 ==> fails_once(steps.drop_last()) && !Ledger::run(
        steps.drop_last(),
    ).fails_again(steps.last())
}

/// How many entries of `s` are `v`.
pub open spec fn count(s: Seq<bool>, v: bool) -> nat
    decreases s.len(),
{
    if s.len() == 0 {
        0
    } else {
        count(s.drop_last(), v) + if s.last() == v {
            1nat
        } else {
            0nat
        }
    }
}

proof fn lemma_count_total(s: Seq<bool>)
    ensures
        count(s, true) + count(s, false) == s.len(),
    decreases s.len(),
{
    if s.len() > 0 {
        lemma_count_total(s.drop_last());
    }
}

proof fn lemma_count_update(s: Seq<bool>, i: int, v: bool)
    requires
        0 <= i < s.len(),
    ensures
        count(s.update(i, v), true) == count(s, true) + (if v {
            1int
        } else {
            0int
        }) - (if s[i] {
            1int
        } else {
            0int
        }),
    decreases s.len(),
{
    if i == s.len() - 1 {
        assert(s.update(i, v).drop_last() =~= s.drop_last());
    } else {
        assert(s.update(i, v).drop_last() =~= s.drop_last().update(i, v));
        lemma_count_update(s.drop_last(), i, v);
    }
}

proof fn lemma_count_push(s: Seq<bool>, v: bool)
    ensures
        count(s.push(v), true) == count(s, true) + (if v {
            1int
        } else {
            0int
        }),
{
    assert(s.push(v).drop_last() =~= s);
}

/// What holds of every ledger that `run` yields within the limit: the
/// counters count the trackers.
spec fn counted(l: Ledger) -> bool {
    &&& l.failed.len() == l.loaded.len()
    &&& l.loaded.len() <= u16::MAX
    &&& l.counts.finished == count(l.loaded, true)
    &&& l.counts.loading == count(l.loaded, false)
    &&& forall|i: int| 0 <= i < l.failed.len() && l.failed[i] ==> l.loaded[i]
}

proof fn lemma_run_len_grows(steps: Seq<Step>)
    ensures
        steps.len() > 0 ==> Ledger::run(steps.drop_last()).loaded.len() <= Ledger::run(
            steps,
        ).loaded.len(),
{
}

proof fn lemma_after_counted(l: Ledger, step: Step)
    requires
        counted(l),
        l.after(step).loaded.len() <= u16::MAX,
    ensures
        counted(l.after(step)),
{
    lemma_count_total(l.loaded);
    lemma_count_total(l.after(step).loaded);
    match step {
        Step::Create => {
            lemma_count_push(l.loaded, false);
        },
        Step::EndLoading(i) | Step::Discard(i) => {
            if i < l.loaded.len() {
                lemma_count_update(l.loaded, i as int, true);
            }
        },
        Step::NewError(i) => {
            if i < l.loaded.len() {
                lemma_count_update(l.loaded, i as int, true);
            }
        },
    }
}

proof fn lemma_run_counted(steps: Seq<Step>)
    requires
        within_limit(steps),
    ensures
        counted(Ledger::run(steps)),
    decreases steps.len(),
{
    if steps.len() > 0 {
        lemma_run_len_grows(steps);
        lemma_run_counted(steps.drop_last());
        lemma_after_counted(Ledger::run(steps.drop_last()), steps.last());
    }
}

/// Every load is counted once: whatever happens to the trackers, in
/// whatever order, the loads under way and the loads finished add up to the
/// trackers handed out.
pub proof fn lemma_loads_are_conserved(steps: Seq<Step>)
    requires
        within_limit(steps),
    ensures
        Ledger::run(steps).counts.loading + Ledger::run(steps).counts.finished == Ledger::run(
            steps,
        ).loaded.len(),
        Ledger::run(steps).counts.finished == count(Ledger::run(steps).loaded, true),
{
    lemma_run_counted(steps);
    lemma_count_total(Ledger::run(steps).loaded);
}

/// A tracker whose load is not yet counted as finished stands for a load
/// under way, and leaves room among the finished.
proof fn lemma_count_open(l: Ledger, i: int)
    requires
        counted(l),
        0 <= i < l.loaded.len(),
        !l.loaded[i],
    ensures
        l.counts.loading > 0,
        l.counts.finished < u16::MAX,
{
    lemma_count_total(l.loaded);
    lemma_count_update(l.loaded, i, true);
    lemma_count_total(l.loaded.update(i, true));
}

/// What one step does to the counters, in plain numbers. Within the limit
/// no counter wraps around: handing out a tracker adds one load under way;
/// the first end of a load, told or by discarding, moves one load from
/// under way to finished, and a later one changes nothing; an error adds
/// one to the errors, and ends the load if nothing had ended it.
pub proof fn lemma_step_counts(steps: Seq<Step>, step: Step)
    requires
        within_limit(steps.push(step)),
        fails_once(steps.push(step)),
    ensures
        ({
            let before = Ledger::run(steps);
            let after = Ledger::run(steps.push(step));
            match step {
                Step::Create => {
                    &&& after.counts.loading == before.counts.loading + 1
                    &&& after.counts.finished == before.counts.finished
                    &&& after.counts.errors == before.counts.errors
                },
                Step::EndLoading(i) | Step::Discard(i) => i < before.loaded.len() ==> {
                    &&& after.loaded[i as int]
                    &&& after.counts.errors == before.counts.errors
                    &&& if before.loaded[i as int] {
                        &&& after.counts.loading == before.counts.loading
                        &&& after.counts.finished == before.counts.finished
                    } else {
                        &&& after.counts.loading == before.counts.loading - 1
                        &&& after.counts.finished == before.counts.finished + 1
                    }
                },
                Step::NewError(i) => i < before.loaded.len() ==> {
                    &&& after.loaded[i as int]
                    &&& after.counts.errors == before.counts.errors + 1
                    &&& after.counts.errors <= after.counts.finished
                    &&& if before.loaded[i as int] {
                        &&& after.counts.loading == before.counts.loading
                        &&& after.counts.finished == before.counts.finished
                    } else {
                        &&& after.counts.loading == before.counts.loading - 1
                        &&& after.counts.finished == before.counts.finished + 1
                    }
                },
            }
        }),
{
    let all = steps.push(step);
    assert(all.drop_last() =~= steps);
    assert(all.last() == step);
    let before = Ledger::run(steps);
    let after = Ledger::run(all);
    lemma_run_len_grows(all);
    lemma_run_counted(steps);
    lemma_run_counted(all);
    lemma_run_errors(steps);
    lemma_run_errors(all);
    lemma_errors_are_finished(all);
    lemma_count_total(before.loaded);
    lemma_count_total(after.loaded);
    match step {
        Step::Create => {
            lemma_count_push(before.loaded, false);
        },
        Step::EndLoading(i) | Step::Discard(i) => {
            if i < before.loaded.len() && !before.loaded[i as int] {
                lemma_count_open(before, i as int);
            }
        },
        Step::NewError(i) => {
            if i < before.loaded.len() {
                if !before.loaded[i as int] {
                    lemma_count_open(before, i as int);
                }
                lemma_count_update(before.failed, i as int, true);
            }
        },
    }
}

proof fn lemma_count_implies(a: Seq<bool>, b: Seq<bool>)
    requires
        a.len() == b.len(),
        forall|i: int| 0 <= i < a.len() && a[i] ==> b[i],
    ensures
        count(a, true) <= count(b, true),
    decreases a.len(),
{
    if a.len() > 0 {
        lemma_count_implies(a.drop_last(), b.drop_last());
    }
}

proof fn lemma_run_errors(steps: Seq<Step>)
    requires
        within_limit(steps),
        fails_once(steps),
    ensures
        Ledger::run(steps).counts.errors == count(Ledger::run(steps).failed, true),
    decreases steps.len(),
{
    if steps.len() > 0 {
        let before = Ledger::run(steps.drop_last());
        let l = Ledger::run(steps);
        lemma_run_len_grows(steps);
        lemma_run_errors(steps.drop_last());
        lemma_run_counted(steps.drop_last());
        lemma_run_counted(steps);
        lemma_count_total(l.failed);
        match steps.last() {
            Step::Create => {
                lemma_count_push(before.failed, false);
            },
            Step::EndLoading(i) | Step::Discard(i) => {},
            Step::NewError(i) => {
                if i < before.loaded.len() {
                    lemma_count_update(before.failed, i as int, true);
                }
            },
        }
    }
}

/// Where no tracker reports more than one error, no more errors are counted
/// than loads have finished.
pub proof fn lemma_errors_are_finished(steps: Seq<Step>)
    requires
        within_limit(steps),
        fails_once(steps),
    ensures
        Ledger::run(steps).counts.errors <= Ledger::run(steps).counts.finished,
{
    lemma_run_errors(steps);
    lemma_run_counted(steps);
    lemma_count_implies(Ledger::run(steps).failed, Ledger::run(steps).loaded);
}

} // verus!
