//! The main menu: a stack of scripts, of which the top one runs.

use crate::loop_state::LoopState;
use crate::states::Trans;
use vstd::prelude::*;

verus! {

/// The code with which a script's update asks to leave the game.
pub const EXIT_CODE: i8 = -1;

/// The main menu. `F` is what the application keeps for a function of a
/// script.
pub struct MainMenu<F> {
    /// The scripts: name, render function, update function.
    scripts: Vec<(String, F, F)>,
}

impl<F> View for MainMenu<F> {
    type V = Seq<(String, F, F)>;

    closed spec fn view(&self) -> Seq<(String, F, F)> {
        self.scripts@
    }
}

/// What an update of the menu comes to, where `outcome` is what the top
/// script's update function answered, or its failure: the transition, and
/// the vote.
pub open spec fn settled_update<S>(scripts: nat, outcome: Result<(i8, LoopState), ()>) -> (
    Trans<S>,
    LoopState,
) {
    if scripts == 0 {
        (Trans::Pop, LoopState::spec_wait())
    } else {
        match outcome {
            Ok((code, vote)) => if code == EXIT_CODE {
                (Trans::Exit, vote)
            } else {
                (Trans::Nothing, vote)
            },
            Err(_) => (Trans::Nothing, LoopState::spec_wait()),
        }
    }
}

impl<F> MainMenu<F> {
    /// The menu that runs the script `main` with the given functions.
    pub fn new(name: String, render: F, update: F) -> (r: Self)
        ensures
            r@ == seq![(name, render, update)],
    {
        let mut scripts: Vec<(String, F, F)> = Vec::new();
        scripts.push((name, render, update));
        assert(scripts@ =~= seq![(name, render, update)]);
        MainMenu { scripts }
    }

    /// The script that runs: the last one.
    pub fn current(&self) -> (r: Option<&(String, F, F)>)
        ensures
            match r {
                Some(script) => self@.len() > 0 && *script == self@.last(),
                None => self@.len() == 0,
            },
    {
        if self.scripts.len() == 0 {
            None
        } else {
            Some(&self.scripts[self.scripts.len() - 1])
        }
    }

    /// Settles an update. `outcome` is what the update function of the
    /// current script answered, or its failure; with no script left it is
    /// not looked at, and the menu asks to be popped. A script that failed
    /// is dropped, and the one below it runs from then on.
    pub fn update<S>(&mut self, outcome: Result<(i8, LoopState), ()>) -> (r: (Trans<S>, LoopState))
        ensures
            r == settled_update::<S>(old(self)@.len(), outcome),
            final(self)@ == (if old(self)@.len() > 0 && outcome is Err {
                old(self)@.drop_last()
            } else {
                old(self)@
            }),
    {
        if self.scripts.len() == 0 {
            return (Trans::Pop, LoopState::wait());
        }
        match outcome {
            Ok((code, vote)) => {
                if code == EXIT_CODE {
                    (Trans::Exit, vote)
                } else {
                    (Trans::Nothing, vote)
                }
            },
            Err(_) => {
                self.scripts.pop();
                assert(self.scripts@ =~= old(self).scripts@.drop_last());
                (Trans::Nothing, LoopState::wait())
            },
        }
    }
}

/// The index before `cur_idx` in a list of `max_len` entries; before the
/// first comes the last.
pub fn get_previous(cur_idx: u8, max_len: u8) -> (r: u8)
    requires
        cur_idx == 0 ==> max_len > 0,
    ensures
        r == (if cur_idx == 0 {
            max_len - 1
        } else {
            cur_idx - 1
        }),
{
    if cur_idx == 0 {
        max_len - 1
    } else {
        cur_idx - 1
    }
}

/// The index after `cur_idx` in a list of `max_len` entries; after the last
/// comes the first.
pub fn get_next(cur_idx: u8, max_len: u8) -> (r: u8)
    requires
        cur_idx < u8::MAX,
    ensures
        r == (if cur_idx + 1 == max_len {
            0
        } else {
            cur_idx + 1
        }),
{
    let cur_idx = cur_idx + 1;
    if cur_idx == max_len {
        0
    } else {
        cur_idx
    }
}

} // verus!
