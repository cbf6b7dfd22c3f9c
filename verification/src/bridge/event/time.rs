//! The server's clock. X timestamps are milliseconds in 32 bits that wrap, so they
//! are compared by which way round is the shorter.

use std::cmp::Ordering;
use vstd::prelude::*;

verus! {

/// How far `a` is ahead of `b` on the wrapping clock.
pub open spec fn ahead(a: u32, b: u32) -> int {
    (a - b) % 0x1_0000_0000
}

/// `a` is after `b`.
pub open spec fn is_after(a: u32, b: u32) -> bool {
    0 < ahead(a, b) < 0x8000_0000
}

/// `a` is before `b`.
pub open spec fn is_before(a: u32, b: u32) -> bool {
    0x8000_0000 <= ahead(a, b)
}

/// The two-sided comparison X uses for timestamps, so that a wrap of the
/// millisecond clock does not make the newest time look like the oldest.
pub fn time_cmp(a: u32, b: u32) -> (o: Ordering)
    ensures
        o == Ordering::Greater <==> is_after(a, b),
        o == Ordering::Less <==> is_before(a, b),
        o == Ordering::Equal <==> a == b,
{
    let d: u32 = a.wrapping_sub(b);
    if d == 0 {
        Ordering::Equal
    } else if d < 0x8000_0000 {
        Ordering::Greater
    } else {
        Ordering::Less
    }
}

/// Whether `a` is after `b`.
pub fn after(a: u32, b: u32) -> (r: bool)
    ensures
        r == is_after(a, b),
{
    let d: u32 = a.wrapping_sub(b);
    0 < d && d < 0x8000_0000
}

/// Whether `a` is before `b`.
pub fn before(a: u32, b: u32) -> (r: bool)
    ensures
        r == is_before(a, b),
{
    a.wrapping_sub(b) >= 0x8000_0000
}

/// A reading of the clock, and what it has been told never to drop below.
#[derive(Clone, Copy, PartialEq, Eq, Structural, Debug)]
pub struct Clock {
    /// Milliseconds since the server started.
    pub elapsed_ms: u64,
    /// The latest timestamp handed out for a selection change, 0 if none. Two
    /// changes inside one millisecond are pushed apart, so this can run a step
    /// ahead of the clock; without the floor a `PropertyNotify` in that step would
    /// carry a time *earlier* than the last change, and the `SetSelectionOwner` a
    /// client builds from it would be stale on arrival.
    pub floor: u32,
}

impl Clock {
    /// The reading in 32 bits, never 0.
    pub open spec fn reading(self) -> u32 {
        if self.elapsed_ms % 0x1_0000_0000 == 0 {
            1
        } else {
            (self.elapsed_ms % 0x1_0000_0000) as u32
        }
    }

    /// The server's time.
    pub open spec fn now(self) -> u32 {
        if self.floor != 0 && is_before(self.reading(), self.floor) {
            self.floor
        } else {
            self.reading()
        }
    }

    /// Once `ts` has been handed out for a selection change.
    pub open spec fn noting(self, ts: u32) -> Clock {
        if self.floor == 0 || is_after(ts, self.floor) {
            Clock { floor: ts, ..self }
        } else {
            self
        }
    }
}

/// A server timestamp in milliseconds, never 0 (X reserves that for `CurrentTime`).
/// One clock for every server-generated event.
pub fn server_time_ms(clock: &Clock) -> (t: u32)
    ensures
        t == clock.now(),
        t != 0,
{
    let wrapped: u32 = (clock.elapsed_ms % 0x1_0000_0000) as u32;
    let now: u32 = if wrapped == 0 { 1 } else { wrapped };
    if clock.floor != 0 && before(now, clock.floor) {
        clock.floor
    } else {
        now
    }
}

/// Records `ts` as handed out for a selection change; see [`Clock::floor`].
pub fn note_selection_time(clock: &mut Clock, ts: u32)
    ensures
        *final(clock) == old(clock).noting(ts),
{
    if clock.floor == 0 || after(ts, clock.floor) {
        clock.floor = ts;
    }
}

/// Of two different times that are not half the clock apart, one is after the other
/// and that one before it.
pub proof fn law_times_are_ordered(a: u32, b: u32)
    requires
        ahead(a, b) != 0x8000_0000,
    ensures
        is_after(a, b) <==> is_before(b, a),
        a != b ==> is_after(a, b) || is_after(b, a),
        !(is_after(a, b) && is_after(b, a)),
{
}

/// The clock never drops below a selection time that it was told of.
pub proof fn law_clock_keeps_its_floor(c: Clock, ts: u32, elapsed_ms: u64)
    requires
        ts != 0,
    ensures
        ({
            let told = Clock { elapsed_ms, ..c.noting(ts) };
            !is_before(told.now(), told.floor)
        }),
{
}

/// An earlier selection time does not pull the floor back.
pub proof fn law_floor_only_rises(c: Clock, ts: u32)
    requires
        c.floor != 0,
    ensures
        !is_before(c.noting(ts).floor, c.floor),
{
}

/// A time that is some way on, round the clock or not, is after; one that is some way back
/// is before.
pub proof fn law_later_is_after(t: u32, later: u32, d: int)
    requires
        0 < d < 0x8000_0000,
        later == (t + d) % 0x1_0000_0000,
    ensures
        is_after(later, t),
        is_before(t, later),
        !is_after(t, later),
        !is_after(t, t) && !is_before(t, t),
{
}

/// The server's time is that of the clock in milliseconds, or the last one handed out
/// where that is later; it is never 0.
pub proof fn law_time_is_never_nothing(c: Clock)
    ensures
        c.now() != 0,
        c.floor == 0 && c.elapsed_ms % 0x1_0000_0000 != 0 ==> c.now() == c.elapsed_ms % 0x1_0000_0000,
        c.floor != 0 ==> !is_before(c.now(), c.floor),
{
}

} // verus!
