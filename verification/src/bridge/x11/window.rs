//! Per-connection window tracking: only the event masks, since the clipboard needs
//! `PropertyNotify`.

use std::collections::HashMap;
use vstd::prelude::*;

verus! {

broadcast use vstd::std_specs::hash::group_hash_axioms;

pub const STRUCTURE_NOTIFY: u32 = 0x2_0000;

pub const PROPERTY_CHANGE: u32 = 0x40_0000;

/// The mask bits of events that are delivered.
pub const SUPPORTED: u32 = 0x42_0000;

/// The event masks that a connection has selected.
pub struct Windows {
    masks: HashMap<u32, u32>,
    warned: u32,
}

#[verifier::ext_equal]
pub struct WindowsView {
    pub masks: Map<u32, u32>,
    /// The bits that have been warned about.
    pub warned: u32,
}

impl View for Windows {
    type V = WindowsView;

    closed spec fn view(&self) -> WindowsView {
        WindowsView { masks: self.masks@, warned: self.warned }
    }
}

impl WindowsView {
    /// Whether the window selected `PropertyChange`.
    pub open spec fn wants_property_change(self, window: u32) -> bool {
        self.masks.dom().contains(window) && self.masks[window] & PROPERTY_CHANGE == PROPERTY_CHANGE
    }

    /// The bits of a mask that are not delivered and not warned about yet.
    pub open spec fn new_unsupported(self, mask: u32) -> u32 {
        mask & !SUPPORTED & !self.warned
    }
}

impl Default for Windows {
    fn default() -> (w: Self)
        ensures
            w@ == (WindowsView { masks: Map::empty(), warned: 0 }),
    {
        Windows { masks: HashMap::new(), warned: 0 }
    }
}

impl Windows {
    pub fn set_mask(&mut self, window: u32, mask: u32)
        ensures
            final(self)@ == (WindowsView { masks: old(self)@.masks.insert(window, mask), ..old(self)@ }),
    {
        self.masks.insert(window, mask);
    }

    pub fn remove(&mut self, window: u32)
        ensures
            final(self)@ == (WindowsView { masks: old(self)@.masks.remove(window), ..old(self)@ }),
    {
        self.masks.remove(&window);
    }

    pub fn wants_property_change(&self, window: u32) -> (b: bool)
        ensures
            b == self@.wants_property_change(window),
    {
        match self.masks.get(&window) {
            Some(m) => *m & PROPERTY_CHANGE == PROPERTY_CHANGE,
            None => false,
        }
    }

    /// The event-mask bits to warn about (once per bit, per client) when a client
    /// selects events that are never delivered, like unhandled requests.
    ///
    /// This only covers maskable core events (those a client subscribes to via
    /// an event mask) since clients don't explicitly request unmaskable events.
    pub fn warn_unsupported(&mut self, mask: u32) -> (unsupported: u32)
        ensures
            unsupported == old(self)@.new_unsupported(mask),
            final(self)@ == (WindowsView { warned: old(self)@.warned | unsupported, ..old(self)@ }),
    {
        let unsupported: u32 = mask & !SUPPORTED & !self.warned;
        self.warned = self.warned | unsupported;
        unsupported
    }
}

/// Each bit is warned about once: the same mask again gives nothing.
pub proof fn law_bits_are_warned_about_once(w: WindowsView, mask: u32)
    ensures
        ({
            let after = WindowsView { warned: w.warned | w.new_unsupported(mask), ..w };
            after.new_unsupported(mask) == 0
        }),
{
    let u = w.warned;
    let s = SUPPORTED;
    assert(mask & !s & !(u | (mask & !s & !u)) == 0) by (bit_vector);
}

/// A window that selected PropertyChange (bit 22) hears of its properties, and no other
/// bit of the mask has to do with it.
pub proof fn law_property_changes_go_by_their_bit(w: WindowsView, window: u32, mask: u32)
    ensures
        ({
            let after = WindowsView { masks: w.masks.insert(window, mask), ..w };
            after.wants_property_change(window) <==> (mask >> 22u32) & 1 == 1
        }),
        !w.masks.dom().contains(window) ==> !w.wants_property_change(window),
{
    assert(mask & 0x40_0000 == 0x40_0000 <==> (mask >> 22u32) & 1 == 1) by (bit_vector);
}

/// Nothing is warned about that is delivered (PropertyChange and StructureNotify), and of
/// the rest each bit that was not.
pub proof fn law_only_undelivered_bits_are_warned_about(w: WindowsView, mask: u32, bit: u32)
    requires
        bit < 32,
    ensures
        (w.new_unsupported(mask) >> bit) & 1 == 1 <==> bit != 22 && bit != 17 && (mask >> bit) & 1 == 1 && (w.warned
            >> bit) & 1 == 0,
{
    let u = w.warned;
    assert(((mask & !0x42_0000u32 & !u) >> bit) & 1 == 1 <==> bit != 22 && bit != 17 && (mask >> bit) & 1 == 1 && (u >> bit)
        & 1 == 0) by (bit_vector)
        requires
            bit < 32,
    ;
}

} // verus!
