//! Lightweight runtime profiling, enabled by `-profile`.
//!
//! Every hook does nothing while disabled. What is counted stands in a window that the
//! reporter takes once a second.

use vstd::prelude::*;

verus! {

/// What was counted since the last report. Times are nanoseconds.
#[derive(Clone, Copy, PartialEq, Eq, Structural, Debug)]
pub struct Stats {
    pub frames: u32,
    pub blit_copy_sum_ns: u64,
    pub blit_copy_max_ns: u64,
    pub blit_wait_sum_ns: u64,
    pub blit_wait_max_ns: u64,
    pub frame_gap_max_ns: u64,
    pub req_lat_sum_ns: u64,
    pub req_lat_max_ns: u64,
    pub reads: u32,
    pub read_bytes: u64,
    pub read_wait_sum_ns: u64,
    pub read_wait_max_ns: u64,
    pub read_hold_sum_ns: u64,
    pub read_hold_max_ns: u64,
    pub dmg_notify: u32,
    pub dmg_subtract: u32,
    pub dmg_create: u32,
}

impl Stats {
    /// Nothing counted.
    pub open spec fn zero() -> Stats {
        Stats {
            frames: 0,
            blit_copy_sum_ns: 0,
            blit_copy_max_ns: 0,
            blit_wait_sum_ns: 0,
            blit_wait_max_ns: 0,
            frame_gap_max_ns: 0,
            req_lat_sum_ns: 0,
            req_lat_max_ns: 0,
            reads: 0,
            read_bytes: 0,
            read_wait_sum_ns: 0,
            read_wait_max_ns: 0,
            read_hold_sum_ns: 0,
            read_hold_max_ns: 0,
            dmg_notify: 0,
            dmg_subtract: 0,
            dmg_create: 0,
        }
    }

    pub fn new() -> (s: Self)
        ensures
            s == Stats::zero(),
    {
        Stats {
            frames: 0,
            blit_copy_sum_ns: 0,
            blit_copy_max_ns: 0,
            blit_wait_sum_ns: 0,
            blit_wait_max_ns: 0,
            frame_gap_max_ns: 0,
            req_lat_sum_ns: 0,
            req_lat_max_ns: 0,
            reads: 0,
            read_bytes: 0,
            read_wait_sum_ns: 0,
            read_wait_max_ns: 0,
            read_hold_sum_ns: 0,
            read_hold_max_ns: 0,
            dmg_notify: 0,
            dmg_subtract: 0,
            dmg_create: 0,
        }
    }
}

/// The profile: whether it is kept, the window that is counted into, and when the last
/// frame was ready, which outlives the window so that gaps are continuous.
#[derive(Clone, Copy, PartialEq, Eq, Structural, Debug)]
pub struct Profile {
    pub enabled: bool,
    pub stats: Stats,
    pub last_ready_ns: Option<u64>,
}

/// The larger of two.
pub open spec fn larger(a: u64, b: u64) -> u64 {
    if a > b {
        a
    } else {
        b
    }
}

fn max_of(a: u64, b: u64) -> (m: u64)
    ensures
        m == larger(a, b),
{
    if a > b {
        a
    } else {
        b
    }
}

/// A count that stops at its largest value.
pub open spec fn counted(a: u32, n: u32) -> u32 {
    if a + n > u32::MAX {
        u32::MAX
    } else {
        (a + n) as u32
    }
}

/// A sum that stops at its largest value.
pub open spec fn summed(a: u64, n: u64) -> u64 {
    if a + n > u64::MAX {
        u64::MAX
    } else {
        (a + n) as u64
    }
}

impl Default for Profile {
    fn default() -> (p: Self)
        ensures
            p == (Profile { enabled: false, stats: Stats::zero(), last_ready_ns: None }),
    {
        Profile { enabled: false, stats: Stats::new(), last_ready_ns: None }
    }
}

impl Profile {
    /// With one more damage object counted.
    pub open spec fn counting_create(self) -> Profile {
        if !self.enabled {
            self
        } else {
            Profile { stats: Stats { dmg_create: counted(self.stats.dmg_create, 1), ..self.stats }, ..self }
        }
    }

    /// With one more subtraction counted.
    pub open spec fn counting_subtract(self) -> Profile {
        if !self.enabled {
            self
        } else {
            Profile { stats: Stats { dmg_subtract: counted(self.stats.dmg_subtract, 1), ..self.stats }, ..self }
        }
    }

    /// With more damage events counted.
    pub open spec fn counting_notices(self, n: u32) -> Profile {
        if !self.enabled {
            self
        } else {
            Profile { stats: Stats { dmg_notify: counted(self.stats.dmg_notify, n), ..self.stats }, ..self }
        }
    }

    /// With a read of so many bytes counted, the waiting and the holding.
    pub open spec fn counting_read(self, bytes: usize, wait_ns: u64, hold_ns: u64) -> Profile {
        if !self.enabled {
            self
        } else {
            Profile {
                stats: Stats {
                    reads: counted(self.stats.reads, 1),
                    read_bytes: summed(self.stats.read_bytes, bytes as u64),
                    read_wait_sum_ns: summed(self.stats.read_wait_sum_ns, wait_ns),
                    read_wait_max_ns: larger(self.stats.read_wait_max_ns, wait_ns),
                    read_hold_sum_ns: summed(self.stats.read_hold_sum_ns, hold_ns),
                    read_hold_max_ns: larger(self.stats.read_hold_max_ns, hold_ns),
                    ..self.stats
                },
                ..self
            }
        }
    }

    /// How long it has been since the last frame was ready, at `now_ns`.
    pub open spec fn gap(self, now_ns: u64) -> u64 {
        match self.last_ready_ns {
            Some(t) if t <= now_ns => (now_ns - t) as u64,
            _ => 0,
        }
    }
}

pub fn enabled(p: &Profile) -> (b: bool)
    ensures
        b == p.enabled,
{
    p.enabled
}

/// Starts counting.
pub fn start(p: &mut Profile, enabled: bool)
    ensures
        *final(p) == (Profile { enabled: old(p).enabled || enabled, ..*old(p) }),
{
    if enabled {
        p.enabled = true;
    }
}

/// Records one completed capture: framebuffer lock wait, copy time, and the latency
/// from capture request to `ready`.
pub fn frame(p: &mut Profile, blit_wait_ns: u64, blit_copy_ns: u64, req_latency_ns: u64, now_ns: u64)
    ensures
        *final(p) == (if !old(p).enabled {
            *old(p)
        } else {
            Profile {
                last_ready_ns: Some(now_ns),
                stats: Stats {
                    frames: counted(old(p).stats.frames, 1),
                    blit_wait_sum_ns: summed(old(p).stats.blit_wait_sum_ns, blit_wait_ns),
                    blit_wait_max_ns: larger(old(p).stats.blit_wait_max_ns, blit_wait_ns),
                    blit_copy_sum_ns: summed(old(p).stats.blit_copy_sum_ns, blit_copy_ns),
                    blit_copy_max_ns: larger(old(p).stats.blit_copy_max_ns, blit_copy_ns),
                    frame_gap_max_ns: larger(old(p).stats.frame_gap_max_ns, old(p).gap(now_ns)),
                    req_lat_sum_ns: summed(old(p).stats.req_lat_sum_ns, req_latency_ns),
                    req_lat_max_ns: larger(old(p).stats.req_lat_max_ns, req_latency_ns),
                    ..old(p).stats
                },
                ..*old(p)
            }
        }),
{
    if !p.enabled {
        return ;
    }
    let gap: u64 = match p.last_ready_ns {
        Some(t) => now_ns.saturating_sub(t),
        None => 0,
    };
    p.last_ready_ns = Some(now_ns);
    let s = p.stats;
    p.stats =
    Stats {
        frames: s.frames.saturating_add(1),
        blit_wait_sum_ns: s.blit_wait_sum_ns.saturating_add(blit_wait_ns),
        blit_wait_max_ns: max_of(s.blit_wait_max_ns, blit_wait_ns),
        blit_copy_sum_ns: s.blit_copy_sum_ns.saturating_add(blit_copy_ns),
        blit_copy_max_ns: max_of(s.blit_copy_max_ns, blit_copy_ns),
        frame_gap_max_ns: max_of(s.frame_gap_max_ns, gap),
        req_lat_sum_ns: s.req_lat_sum_ns.saturating_add(req_latency_ns),
        req_lat_max_ns: max_of(s.req_lat_max_ns, req_latency_ns),
        ..s
    };
}

/// Records one framebuffer read (`GetImage`/`ShmGetImage`).
pub fn read(p: &mut Profile, bytes: usize, wait_ns: u64, hold_ns: u64)
    ensures
        *final(p) == old(p).counting_read(bytes, wait_ns, hold_ns),
{
    if !p.enabled {
        return ;
    }
    let s = p.stats;
    p.stats =
    Stats {
        reads: s.reads.saturating_add(1),
        read_bytes: s.read_bytes.saturating_add(bytes as u64),
        read_wait_sum_ns: s.read_wait_sum_ns.saturating_add(wait_ns),
        read_wait_max_ns: max_of(s.read_wait_max_ns, wait_ns),
        read_hold_sum_ns: s.read_hold_sum_ns.saturating_add(hold_ns),
        read_hold_max_ns: max_of(s.read_hold_max_ns, hold_ns),
        ..s
    };
}

pub fn damage_notify(p: &mut Profile, n: u32)
    ensures
        *final(p) == old(p).counting_notices(n),
{
    if p.enabled {
        p.stats.dmg_notify = p.stats.dmg_notify.saturating_add(n);
    }
}

pub fn damage_subtract(p: &mut Profile)
    ensures
        *final(p) == old(p).counting_subtract(),
{
    if p.enabled {
        p.stats.dmg_subtract = p.stats.dmg_subtract.saturating_add(1);
    }
}

pub fn damage_create(p: &mut Profile)
    ensures
        *final(p) == old(p).counting_create(),
{
    if p.enabled {
        p.stats.dmg_create = p.stats.dmg_create.saturating_add(1);
    }
}

/// Takes the window that was counted, and starts another.
pub fn take(p: &mut Profile) -> (s: Stats)
    ensures
        s == old(p).stats,
        *final(p) == (Profile { stats: Stats::zero(), ..*old(p) }),
{
    let s = p.stats;
    p.stats = Stats::new();
    s
}

/// A read is counted once, its bytes and its times are added, and the longest of the times
/// is kept, each in its own place.
pub proof fn law_reads_are_counted(p: Profile, bytes: usize, wait_ns: u64, hold_ns: u64)
    requires
        p.enabled,
        p.stats.reads < u32::MAX,
        p.stats.read_bytes + bytes <= u64::MAX,
        p.stats.read_wait_sum_ns + wait_ns <= u64::MAX,
        p.stats.read_hold_sum_ns + hold_ns <= u64::MAX,
    ensures
        ({
            let s = p.counting_read(bytes, wait_ns, hold_ns).stats;
            &&& s.reads == p.stats.reads + 1
            &&& s.read_bytes == p.stats.read_bytes + bytes
            &&& s.read_wait_sum_ns == p.stats.read_wait_sum_ns + wait_ns
            &&& s.read_hold_sum_ns == p.stats.read_hold_sum_ns + hold_ns
            &&& s.read_wait_max_ns >= wait_ns && s.read_wait_max_ns >= p.stats.read_wait_max_ns
            &&& s.read_wait_max_ns == wait_ns || s.read_wait_max_ns == p.stats.read_wait_max_ns
            &&& s.read_hold_max_ns >= hold_ns && s.read_hold_max_ns >= p.stats.read_hold_max_ns
            &&& s.read_hold_max_ns == hold_ns || s.read_hold_max_ns == p.stats.read_hold_max_ns
            &&& s.frames == p.stats.frames && s.dmg_notify == p.stats.dmg_notify
        }),
{
}

/// Damage objects, subtractions and events are counted apart, and nothing is while
/// profiling is off.
pub proof fn law_damage_is_counted_apart(p: Profile, n: u32)
    requires
        p.stats.dmg_create < u32::MAX,
        p.stats.dmg_subtract < u32::MAX,
        p.stats.dmg_notify + n <= u32::MAX,
    ensures
        !p.enabled ==> p.counting_create() == p && p.counting_subtract() == p && p.counting_notices(n) == p,
        p.enabled ==> p.counting_create().stats == (Stats { dmg_create: (p.stats.dmg_create + 1) as u32, ..p.stats }),
        p.enabled ==> p.counting_subtract().stats == (Stats {
            dmg_subtract: (p.stats.dmg_subtract + 1) as u32,
            ..p.stats
        }),
        p.enabled ==> p.counting_notices(n).stats == (Stats { dmg_notify: (p.stats.dmg_notify + n) as u32, ..p.stats }),
{
}

/// The gap between frames is the time since the last one.
pub proof fn law_gap_is_since_the_last_frame(p: Profile, last: u64, now: u64)
    requires
        p.last_ready_ns == Some(last),
        last <= now,
    ensures
        p.gap(now) == now - last,
{
}

} // verus!
