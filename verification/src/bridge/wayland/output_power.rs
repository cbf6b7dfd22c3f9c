//! Waking outputs that the compositor put to sleep, for `-pwrmgr`.
//!
//! An output the compositor (usually its idle daemon) has powered off is disabled as far
//! as capture is concerned: wlroots fails every screencopy on it, so a client connecting
//! to a machine whose monitor went to sleep sees a frozen screen until someone moves the
//! local mouse. Holding a power control per output tells us when that is the case, and
//! lets us turn the output back on when an X client starts watching the screen, or when
//! it goes off while one is watching.
//!
//! Nothing is ever turned off again: the idle daemon will do that on its own schedule,
//! and turning it off ourselves when the client leaves could black out a local user who
//! has since sat down.

use crate::config::PwrMgrType;
use vstd::prelude::*;

verus! {

/// One output's power control.
#[derive(Clone, Copy, PartialEq, Eq, Structural, Debug)]
pub struct OutputPower {
    /// Not once the compositor sent `failed` (another client holds it, or the output
    /// cannot be controlled), so it is not asked again.
    pub held: bool,
    /// The last `mode` from the compositor; `None` until the first.
    pub on: Option<bool>,
}

/// What is said when the manager is missing.
#[derive(Clone, Copy, PartialEq, Eq, Structural, Debug)]
pub enum Missing {
    /// A warning: it was asked for.
    Warning,
    /// A detail: it would have been used.
    Detail,
}

impl Default for OutputPower {
    fn default() -> (p: Self)
        ensures
            p == (OutputPower { held: true, on: None }),
    {
        OutputPower { held: true, on: None }
    }
}

impl OutputPower {
    /// Whether the output is to be turned on: the compositor last said it was off.
    pub open spec fn asleep(self) -> bool {
        self.held && self.on == Some(false)
    }

    /// Whether the output is to be turned on.
    pub fn is_asleep(&self) -> (b: bool)
        ensures
            b == self.asleep(),
    {
        self.held && match self.on {
            Some(on) => !on,
            None => false,
        }
    }

    /// With what the compositor said.
    pub open spec fn told(self, on: bool) -> OutputPower {
        OutputPower { on: Some(on), ..self }
    }

    /// Whether what the compositor says is a reason to turn the output on.
    pub open spec fn wakes(self, on: bool, capture_active: bool) -> bool {
        self.held && self.on != Some(on) && !on && capture_active
    }

    /// The compositor said that the output is on or off. Returns whether to turn it on:
    /// it went to sleep under a watching client (its idle daemon does not count remote
    /// viewing as activity). Only on the transition: sway repeats `off` on every commit,
    /// and a compositor refusing to wake would otherwise be asked forever.
    pub fn mode(&mut self, on: bool, capture_active: bool) -> (wake: bool)
        ensures
            *final(self) == old(self).told(on),
            wake == old(self).wakes(on, capture_active),
    {
        let changed = match self.on {
            Some(before) => before != on,
            None => true,
        };
        self.on = Some(on);
        changed && !on && capture_active && self.held
    }

    /// The compositor gives no control over the output. Returns whether there is one to
    /// be given back.
    pub fn failed(&mut self) -> (there: bool)
        ensures
            there == old(self).held,
            *final(self) == (OutputPower { held: false, ..*old(self) }),
    {
        let there = self.held;
        self.held = false;
        there
    }
}

/// Once the initial globals have all arrived: what is said if the manager is missing.
pub fn settled(choice: PwrMgrType, has_manager: bool) -> (m: Option<Missing>)
    ensures
        m == (if has_manager || choice is Off {
            None
        } else if choice is Wlr {
            Some(Missing::Warning)
        } else {
            Some(Missing::Detail)
        }),
{
    if has_manager || !choice.wants_wlr() {
        return None;
    }
    match choice {
        PwrMgrType::Wlr => Some(Missing::Warning),
        _ => Some(Missing::Detail),
    }
}

/// A compositor that keeps saying that an output is off is asked to turn it on at most
/// once: after the first time none of the repeats is a reason to, until it says that the
/// output is on.
pub proof fn law_repeated_off_wakes_once(p: OutputPower, repeats: nat, capture_active: bool)
    ensures
        !repeated_off(p, repeats).wakes(false, capture_active),
        p.held && capture_active ==> repeated_off(p, repeats).told(true).wakes(false, capture_active),
    decreases repeats,
{
    if repeats > 0 {
        law_repeated_off_wakes_once(p, (repeats - 1) as nat, capture_active);
    }
}

/// After the compositor said that the output is off, and so many times again.
pub open spec fn repeated_off(p: OutputPower, repeats: nat) -> OutputPower
    decreases repeats,
{
    if repeats == 0 {
        p.told(false)
    } else {
        repeated_off(p, (repeats - 1) as nat).told(false)
    }
}

/// An output that is said to be off is asleep, one that is said to be on is not; it is
/// woken where it goes to sleep under a client that watches, and not otherwise.
pub proof fn law_outputs_are_woken_when_they_go_to_sleep(p: OutputPower, on: bool, capture_active: bool)
    requires
        p.held,
    ensures
        p.told(on).asleep() == !on,
        p.wakes(on, capture_active) ==> !on && capture_active && !p.asleep(),
        !on && capture_active && !p.asleep() ==> p.wakes(on, capture_active),
{
}

} // verus!
