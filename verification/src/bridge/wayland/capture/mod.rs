//! Screen and cursor capture, over whichever of the two protocols the compositor
//! offers.
//!
//! Both feed frames into the shared framebuffer and report changes to DAMAGE, differing
//! only in how a frame is asked for and how damage is learned. Capture is self-paced:
//! what is due is asked for, and how long to wait before looking again comes with it.
//!
//! Each output's interval tracks its actual change rate: a changed frame resets it to
//! the fast one, an unchanged one grows geometrically toward the slow one. Continuous
//! content therefore runs at the fast cap, sparse change (a blinking caret, a clock)
//! backs off to a few frames per second, and a still screen reaches the slow rate.
//! Since every capture costs a full-frame diff, not capturing faster than the screen
//! changes is the whole point.
//!
//! Times and intervals are in nanoseconds.

use crate::bridge::capture::Framebuffer;
use crate::bridge::damage;
use crate::bridge::damage::DamageView;
use crate::bridge::event::client::ClientView;
use crate::bridge::event::sink;
use crate::bridge::profile;
use crate::bridge::server::{Server, ServerView};
use crate::bridge::wayland::shm::BufferSpec;
use crate::bridge::x11::randr;
use crate::bridge::x11::randr::ScreenView;
use crate::util::geometry;
use crate::util::geometry::Rectangle;
use crate::util::list;
use vstd::prelude::*;

pub mod cursor;
pub mod imagecopy;
pub mod screencopy;

verus! {

/// About 30 frames a second when active. Deliberate: vncagent only consumes about 20
/// reads a second, so anything faster is work the client never sees.
pub const FAST_INTERVAL: u64 = 33_000_000;

/// About 4 frames a second when still.
pub const SLOW_INTERVAL: u64 = 250_000_000;

/// How often to look whether a client is watching.
pub const DISABLED_INTERVAL: u64 = 100_000_000;

/// A client is watching if it read pixels within this window, in milliseconds.
pub const READ_GATE_MS: u64 = 1000;

/// The negotiated screen-capture backend (only one is ever active).
#[derive(Clone, Copy, PartialEq, Eq, Structural, Debug)]
pub enum Backend {
    Off,
    Screencopy,
    ImageCopy,
}

/// What of the compositor's globals capture needs.
#[derive(Clone, Copy, PartialEq, Eq, Structural, Debug)]
pub struct Globals {
    pub settled: bool,
    pub shm: bool,
    pub screencopy: bool,
    pub ext_source: bool,
    pub ext_capture: bool,
}

impl Globals {
    pub open spec fn has_wlr(self) -> bool {
        self.shm && self.screencopy
    }

    pub open spec fn has_ext(self) -> bool {
        self.shm && self.ext_source && self.ext_capture
    }

    /// The backend to have, where one was chosen before: ext once it can be had, else
    /// screencopy, and a screencopy backend is replaced if the ext managers turn up
    /// later. Nothing is chosen until the initial globals have all arrived, so the usual
    /// case picks once with every global known.
    pub open spec fn backend(self, before: Backend) -> Backend {
        if !self.settled || before == Backend::ImageCopy {
            before
        } else if self.has_ext() {
            Backend::ImageCopy
        } else if before == Backend::Off && self.has_wlr() {
            Backend::Screencopy
        } else {
            before
        }
    }

    /// The backend to have.
    pub fn maybe_start_captures(self, before: Backend) -> (b: Backend)
        ensures
            b == self.backend(before),
    {
        if !self.settled {
            return before;
        }
        let has_wlr = self.shm && self.screencopy;
        let has_ext = self.shm && self.ext_source && self.ext_capture;
        if !has_wlr && !has_ext {
            return before;
        }
        let upgrade = has_ext && before == Backend::Screencopy;
        if before == Backend::Off || upgrade {
            if has_ext {
                Backend::ImageCopy
            } else {
                Backend::Screencopy
            }
        } else {
            before
        }
    }
}

/// Some time from now.
pub open spec fn later(now: u64, by: u64) -> u64 {
    if now + by > u64::MAX {
        u64::MAX
    } else {
        (now + by) as u64
    }
}

pub fn after(now: u64, by: u64) -> (t: u64)
    ensures
        t == later(now, by),
{
    if by > u64::MAX - now {
        u64::MAX
    } else {
        now + by
    }
}

/// The fast-cap interval, honouring `-fps`.
pub open spec fn fastest(fps: Option<u32>) -> u64 {
    match fps {
        Some(f) => if f == 0 {
            1_000_000_000
        } else {
            (1000int / f as int * 1_000_000) as u64
        },
        None => FAST_INTERVAL,
    }
}

/// The fast-cap interval, honouring `-fps`.
pub fn fast_interval(fps: Option<u32>) -> (ns: u64)
    ensures
        ns == fastest(fps),
        ns <= 1_000_000_000,
{
    match fps {
        Some(f) => {
            if f == 0 {
                1_000_000_000
            } else {
                assert(0 <= 1000int / f as int <= 1000) by (nonlinear_arith)
                    requires
                        f > 0,
                ;
                1000 / f as u64 * 1_000_000
            }
        },
        None => FAST_INTERVAL,
    }
}

/// The interval after a frame: the fast one if it was worth having, else half as much
/// again, up to the slow one.
pub open spec fn paced(interval: u64, keep_fast: bool, fast: u64) -> u64 {
    if keep_fast {
        fast
    } else if interval as int * 3 / 2 < SLOW_INTERVAL {
        (interval as int * 3 / 2) as u64
    } else {
        SLOW_INTERVAL
    }
}

pub fn pace(interval: u64, keep_fast: bool, fast: u64) -> (ns: u64)
    ensures
        ns == paced(interval, keep_fast, fast),
{
    if keep_fast {
        fast
    } else if interval < SLOW_INTERVAL && interval * 3 / 2 < SLOW_INTERVAL {
        interval * 3 / 2
    } else {
        SLOW_INTERVAL
    }
}

/// How long to wait, given what was to be waited before and when a capture is due.
pub open spec fn sooner(wait: u64, now: u64, at: u64) -> u64 {
    if at > now && at - now < wait {
        (at - now) as u64
    } else {
        wait
    }
}

/// Where an output is on the screen.
pub open spec fn place_of(screen: ScreenView, wl_name: u32) -> (i32, i32) {
    match screen.find(randr::mirrors(wl_name)) {
        Some(o) => (o.x as i32, o.y as i32),
        None => (0, 0),
    }
}

impl BufferSpec {
    /// A buffer that can be made, and whose numbers the framebuffer takes at any place of
    /// the screen.
    pub open spec fn usable(self) -> bool {
        &&& self.bytes() > 0
        &&& self.width <= 0x1fff_ffff
        &&& self.height <= 0x1fff_ffff
    }

    pub fn is_usable(&self) -> (b: bool)
        ensures
            b == self.usable(),
    {
        self.size().is_some() && self.width <= 0x1fff_ffff && self.height <= 0x1fff_ffff
    }
}

/// A buffer, if there is one, can be made.
pub open spec fn buffer_ok(b: Option<BufferSpec>) -> bool {
    b matches Some(s) ==> s.usable()
}

impl Framebuffer {
    /// A client has read pixels recently.
    pub open spec fn recently_read(self, now_ms: u64) -> bool {
        self.last_read() matches Some(last) && geometry::max_of(now_ms - last, 0) < READ_GATE_MS
    }
}

impl ServerView {
    /// A client holds a DAMAGE object.
    pub open spec fn tracks_damage(self) -> bool {
        list::only(self.damage, damage::watched(self.events)).len() > 0
    }

    /// With new screen damage, in root coordinates.
    pub open spec fn with_damage(self, rects: Seq<Rectangle>) -> ServerView {
        let fresh = list::only(rects, damage::has_pixels());
        let objs = list::only(self.damage, damage::watched(self.events));
        if fresh.len() == 0 {
            self
        } else {
            let (damage, events) = damage::damaged(
                objs,
                self.events,
                fresh,
                objs.len() as int,
                (self.screen.width, self.screen.height),
                self.clock.now(),
            );
            let told = damage::capped(
                damage::notices(objs, fresh, objs.len() as int, (self.screen.width, self.screen.height)),
            );
            ServerView { damage, events, profile: self.profile.counting_notices(told), ..self }
        }
    }
}

impl Server {
    /// Whether a client is watching the screen, by holding a DAMAGE object or having read
    /// pixels recently. Nothing is captured otherwise.
    pub fn capture_enabled(&self, now_ms: u64) -> (b: bool)
        ensures
            b == (self@.tracks_damage() || self.framebuffer.recently_read(now_ms)),
    {
        self.damage.active(&self.events) || self.framebuffer.read_within(READ_GATE_MS, now_ms)
    }

    /// Reports new screen damage to the clients that watch for it.
    pub fn add_damage(&mut self, rects: &Vec<Rectangle>)
        requires
            old(self).wf(),
        ensures
            final(self).wf(),
            final(self)@ == old(self)@.with_damage(rects@),
            final(self).framebuffer == old(self).framebuffer,
    {
        let geom = (self.screen.width, self.screen.height);
        let told: u32 = self.damage.add_damage(rects, geom, &mut self.events, &self.clock);
        profile::damage_notify(&mut self.profile, told);
    }

    /// Where an output is on the screen: the corner, until it has synced.
    pub fn output_place(&self, wl_name: u32) -> (p: (i32, i32))
        ensures
            p == place_of(self@.screen, wl_name),
            -0x8000 <= p.0 <= 0xffff && -0x8000 <= p.1 <= 0xffff,
    {
        match self.screen.physical_pos(wl_name) {
            Some(p) => p,
            None => (0, 0),
        }
    }
}

/// What to do on a pass of the event loop.
#[derive(Clone, Copy, PartialEq, Eq, Structural, Debug)]
pub struct Pass {
    /// Captures are to be looked at.
    pub capture: bool,
    /// A client started watching.
    pub started: bool,
    /// The last one stopped.
    pub stopped: bool,
}

/// Whether captures run: while there is a backend and a client is watching.
pub fn tick_captures(active: &mut bool, backend: Backend, watching: bool) -> (p: Pass)
    ensures
        *final(active) == (backend != Backend::Off && watching),
        p == (Pass {
            capture: *final(active),
            started: *final(active) && !*old(active),
            stopped: !*final(active) && *old(active),
        }),
{
    let enabled = backend != Backend::Off && watching;
    let before = *active;
    *active = enabled;
    Pass { capture: enabled, started: enabled && !before, stopped: !enabled && before }
}

/// Once the ext backend is chosen it stays.
pub proof fn law_ext_stays(g: Globals)
    ensures
        g.backend(Backend::ImageCopy) == Backend::ImageCopy,
{
}

/// Managers that turn up in any order lead to the same backend.
pub proof fn law_backend_does_not_depend_on_the_order(a: Globals, b: Globals)
    requires
        b.settled,
        a.shm ==> b.shm,
        a.screencopy ==> b.screencopy,
        a.ext_source ==> b.ext_source,
        a.ext_capture ==> b.ext_capture,
    ensures
        b.backend(a.backend(Backend::Off)) == b.backend(Backend::Off),
{
}

/// A still screen reaches the slow rate and stays there, and never waits longer.
pub proof fn law_still_screens_slow_down(interval: u64, fast: u64)
    requires
        2 <= interval <= SLOW_INTERVAL,
    ensures
        paced(interval, false, fast) <= SLOW_INTERVAL,
        interval < SLOW_INTERVAL ==> paced(interval, false, fast) > interval,
        paced(SLOW_INTERVAL, false, fast) == SLOW_INTERVAL,
{
}

/// With `-fps` a frame takes no less than its share of a second, in whole milliseconds.
pub proof fn law_frames_keep_to_the_rate(f: u32)
    requires
        f > 0,
    ensures
        fastest(Some(f)) % 1_000_000 == 0,
        (fastest(Some(f)) as int / 1_000_000) * f <= 1000,
        1000 < (fastest(Some(f)) as int / 1_000_000 + 1) * f,
{
    let q = 1000int / f as int;
    assert(q * f <= 1000 && 1000 < (q + 1) * f && 0 <= q <= 1000) by (nonlinear_arith)
        requires
            f > 0,
            q == 1000int / f as int,
    ;
    assert((q * 1_000_000) / 1_000_000 == q && (q * 1_000_000) % 1_000_000 == 0);
}

/// A screen that changes is captured at the fast rate, and one that does not ever more
/// slowly, by half again each time, down to four times a second.
pub proof fn law_pace_follows_the_screen(interval: u64, fast: u64)
    ensures
        paced(interval, true, fast) == fast,
        interval < 160_000_000 ==> 2 * paced(interval, false, fast) <= 3 * interval < 2 * paced(interval, false, fast) + 2,
        interval >= 250_000_000 ==> paced(interval, false, fast) == 250_000_000,
        paced(interval, false, fast) <= 250_000_000,
{
}

/// Once all globals are known the ext protocol is used where it can be, and the wlr one
/// where that is all there is; nothing is chosen before.
pub proof fn law_ext_is_preferred(g: Globals, before: Backend)
    ensures
        !g.settled ==> g.backend(before) == before,
        g.settled && g.shm && g.ext_source && g.ext_capture ==> g.backend(before) == Backend::ImageCopy,
        g.settled && g.shm && g.screencopy && !(g.ext_source && g.ext_capture) && before == Backend::Off ==> g.backend(before)
            == Backend::Screencopy,
        !g.shm ==> g.backend(before) == before,
{
}

/// An output's pixels go where the screen has it.
pub proof fn law_outputs_are_captured_to_their_place(screen: ScreenView, i: int)
    requires
        0 <= i < screen.outputs.len(),
        forall|k: int| 0 <= k < i ==> (#[trigger] screen.outputs[k]).wl_name != screen.outputs[i].wl_name,
    ensures
        place_of(screen, screen.outputs[i].wl_name) == (screen.outputs[i].x as i32, screen.outputs[i].y as i32),
{
    let n = screen.outputs[i].wl_name;
    assert forall|k: int| 0 <= k < i implies !randr::mirrors(n)(#[trigger] screen.outputs[k]) by {
        assert(screen.outputs[k].wl_name != n);
    }
    list::lemma_first_index_is(screen.outputs, randr::mirrors(n), i);
}

/// A wait ends at whichever comes first.
pub proof fn law_waits_end_at_the_first_deadline(wait: u64, now: u64, at: u64)
    requires
        at > now,
    ensures
        sooner(wait, now, at) <= wait,
        sooner(wait, now, at) <= at - now,
        sooner(wait, now, at) == wait || sooner(wait, now, at) == at - now,
{
}

/// A screen counts as read for a second after a client read it.
pub proof fn law_screens_are_watched_for_a_second(fb: Framebuffer, last: u64, now: u64)
    requires
        fb.last_read() == Some(last),
        last <= now,
    ensures
        fb.recently_read(now) <==> now - last < 1000,
{
}

/// New damage that has pixels is added to what every object of a client that is there
/// already has; damage without pixels is none.
pub proof fn law_damage_is_added_to_every_object(s: ServerView, rects: Seq<Rectangle>, i: int)
    requires
        0 <= i < s.damage.len(),
        forall|k: int| 0 <= k < s.damage.len() ==> !sink::gone(s.events, (#[trigger] s.damage[k]).client),
    ensures
        (forall|k: int| 0 <= k < rects.len() ==> (#[trigger] rects[k]).width == 0 || rects[k].height == 0) ==> s.with_damage(
            rects,
        ) == s,
        (forall|k: int| 0 <= k < rects.len() ==> (#[trigger] rects[k]).width > 0 && rects[k].height > 0) && rects.len() > 0
            ==> s.with_damage(rects).damage.len() == s.damage.len() && s.with_damage(rects).damage[i].region
            == s.damage[i].region + rects,
{
    let fresh = list::only(rects, damage::has_pixels());
    list::lemma_only_elements(rects, damage::has_pixels());
    if forall|k: int| 0 <= k < rects.len() ==> (#[trigger] rects[k]).width == 0 || rects[k].height == 0 {
        if fresh.len() > 0 {
            assert(damage::has_pixels()(fresh[0]));
            let k = rects.index_of(fresh[0]);
            assert(rects[k] == fresh[0]);
        }
    }
    if (forall|k: int| 0 <= k < rects.len() ==> (#[trigger] rects[k]).width > 0 && rects[k].height > 0) && rects.len() > 0 {
        assert forall|k: int| 0 <= k < rects.len() implies damage::has_pixels()(#[trigger] rects[k]) by {
            assert(rects[k].width > 0);
        }
        lemma_only_all(rects, damage::has_pixels());
        assert forall|k: int| 0 <= k < s.damage.len() implies damage::watched(s.events)(#[trigger] s.damage[k]) by {
            assert(!sink::gone(s.events, s.damage[k].client));
        }
        lemma_only_all(s.damage, damage::watched(s.events));
        lemma_damaged(
            s.damage,
            s.events,
            rects,
            s.damage.len() as int,
            (s.screen.width, s.screen.height),
            s.clock.now(),
            i,
        );
    }
}

proof fn lemma_only_all<T>(s: Seq<T>, p: spec_fn(T) -> bool)
    requires
        forall|k: int| 0 <= k < s.len() ==> p(#[trigger] s[k]),
    ensures
        list::only(s, p) == s,
    decreases s.len(),
{
    if s.len() > 0 {
        let r = s.drop_last();
        assert forall|k: int| 0 <= k < r.len() implies p(#[trigger] r[k]) by {
            assert(r[k] == s[k]);
        }
        lemma_only_all(r, p);
        assert(p(s[s.len() - 1]));
        assert(list::only(s, p) =~= s);
    } else {
        assert(list::only(s, p) =~= s);
    }
}

proof fn lemma_damaged(
    objs: Seq<DamageView>,
    clients: Seq<ClientView>,
    new: Seq<Rectangle>,
    k: int,
    geom: (u16, u16),
    timestamp: u32,
    i: int,
)
    requires
        0 <= k <= objs.len(),
        0 <= i < objs.len(),
    ensures
        damage::damaged(objs, clients, new, k, geom, timestamp).0.len() == objs.len(),
        damage::damaged(objs, clients, new, k, geom, timestamp).0[i].region == (if i < k {
            objs[i].region + new
        } else {
            objs[i].region
        }),
    decreases k,
{
    if k > 0 {
        lemma_damaged(objs, clients, new, k - 1, geom, timestamp, i);
    }
}

} // verus!
