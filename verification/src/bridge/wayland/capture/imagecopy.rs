//! The `ext-image-copy-capture-v1` capture backend.
//!
//! Each output gets a session that negotiates buffer size and format, then delivers
//! damage-tracking frames. The compositor says what changed, so unlike the other backend
//! there is nothing to diff. The protocol also offers a per-output cursor session, for
//! capturing the cursor separately and reporting it over XFixes, unless `-cursor none`
//! bakes it into the screen frames instead.

use crate::bridge::capture;
use crate::bridge::server::{Server, ServerView};
use crate::bridge::wayland::capture as pacing;
use crate::bridge::wayland::capture::cursor;
use crate::bridge::wayland::capture::cursor::{CursorCap, Shot};
use crate::bridge::wayland::capture::SLOW_INTERVAL;
use crate::bridge::wayland::shm;
use crate::bridge::wayland::shm::{BufferSpec, Format};
use crate::util::geometry;
use crate::util::geometry::Rectangle;
use crate::util::list;
use crate::util::transform;
use crate::util::transform::Transform;
use vstd::prelude::*;

verus! {

/// A rectangle of a buffer.
#[derive(Clone, Copy, PartialEq, Eq, Structural, Debug)]
pub struct BufferRect {
    pub x: i32,
    pub y: i32,
    pub width: i32,
    pub height: i32,
}

/// What the compositor says of a session: buffer size and format negotiation.
#[derive(Clone, Copy, PartialEq, Eq, Structural, Debug)]
pub enum SessionEvent {
    BufferSize { width: u32, height: u32 },
    ShmFormat(Format),
    Done,
    Stopped,
}

/// What the compositor says of a frame.
#[derive(Clone, Copy, PartialEq, Eq, Structural, Debug)]
pub enum FrameEvent {
    Damage(BufferRect),
    Transform(Transform),
    Ready,
    /// Because the buffer does not meet the constraints, or for another reason.
    Failed { constraints: bool },
}

/// One output's capture state, screen session and cursor session both.
pub struct Ctx {
    pub wl_name: u32,
    /// The output's transform, the fallback for frames that carry none.
    pub transform: Transform,
    /// From the frame's `transform` event; wins over `transform`.
    pub frame_transform: Option<Transform>,
    pub buffer: Option<BufferSpec>,
    /// The frame awaiting `ready` or `failed`. A session may only have one at a time (a
    /// second one is a protocol error), so this doubles as the guard against that and
    /// tells our own frame's events from a stray one's.
    pub frame: Option<u32>,
    /// Earliest the next capture may be requested.
    pub next_at: u64,
    /// When the capture that is out was requested, for latency profiling.
    pub req_at: Option<u64>,
    /// Whether there is a source, and a session on it.
    pub source: bool,
    pub session: bool,
    /// Set once the session's `done` closes constraint negotiation.
    pub session_ready: bool,
    pub session_size: Option<(u32, u32)>,
    pub session_format: Option<Format>,
    /// From this frame's `damage` events, in buffer coordinates.
    pub frame_damage: Vec<BufferRect>,
    /// `None` when `-cursor none` bakes the cursor into the screen frames, or while a
    /// stopped cursor session waits to be reopened.
    pub cursor_cap: Option<CursorCap>,
    /// When to reopen the cursor session after the compositor stopped it.
    pub cursor_reopen_at: Option<u64>,
}

#[verifier::ext_equal]
pub struct CtxView {
    pub wl_name: u32,
    pub transform: Transform,
    pub frame_transform: Option<Transform>,
    pub buffer: Option<BufferSpec>,
    pub frame: Option<u32>,
    pub next_at: u64,
    pub req_at: Option<u64>,
    pub source: bool,
    pub session: bool,
    pub session_ready: bool,
    pub session_size: Option<(u32, u32)>,
    pub session_format: Option<Format>,
    pub frame_damage: Seq<BufferRect>,
    pub cursor_cap: Option<CursorCap>,
    pub cursor_reopen_at: Option<u64>,
}

impl View for Ctx {
    type V = CtxView;

    open spec fn view(&self) -> CtxView {
        CtxView {
            wl_name: self.wl_name,
            transform: self.transform,
            frame_transform: self.frame_transform,
            buffer: self.buffer,
            frame: self.frame,
            next_at: self.next_at,
            req_at: self.req_at,
            source: self.source,
            session: self.session,
            session_ready: self.session_ready,
            session_size: self.session_size,
            session_format: self.session_format,
            frame_damage: self.frame_damage@,
            cursor_cap: self.cursor_cap,
            cursor_reopen_at: self.cursor_reopen_at,
        }
    }
}

/// What is to be done for an output.
#[derive(Clone, Copy, PartialEq, Eq, Structural, Debug)]
pub enum Step {
    Nothing,
    /// Open a session, with the cursor painted into its frames or not, and a cursor
    /// session beside it or not. They take the place of the ones there were.
    Open { paint_cursors: bool, cursor: bool },
    /// Capture a frame.
    Capture(Shot),
    /// The frame is over.
    Destroy,
    /// The frame is there: show it, and then it is over.
    Show,
    /// The session is over, and any frame on it.
    Stopped,
    /// The session offered no format that can be had.
    NoFormat,
}

/// A format is better than the one there is: Xrgb8888, which needs no conversion, then
/// anything byte-permutable, and only then a packed or float format.
pub open spec fn better(fmt: Format, cur: Option<Format>) -> bool {
    match cur {
        None => true,
        Some(Format::Xrgb8888) => false,
        Some(c) => fmt == Format::Xrgb8888 || (shm::layout(fmt) is Some && shm::layout(c) is None),
    }
}

fn is_better(fmt: Format, cur: Option<Format>) -> (b: bool)
    ensures
        b == better(fmt, cur),
{
    match cur {
        None => true,
        Some(Format::Xrgb8888) => false,
        Some(c) => fmt == Format::Xrgb8888 || (shm::channel_map(fmt).is_some() && shm::channel_map(c).is_none()),
    }
}

/// Buffer damage on the screen: it goes through the same transform as the pixels, then
/// shifts to the output's place.
pub open spec fn on_screen(r: BufferRect, t: Transform, w: u32, h: u32, at: (i32, i32)) -> Rectangle {
    let (x, y) = t.origin_of(r.x as int, r.y as int, r.width as int, r.height as int, w as int, h as int);
    let (rw, rh) = t.size_of(r.width as int, r.height as int);
    Rectangle {
        x: geometry::wrap_i16(at.0 + x) as i16,
        y: geometry::wrap_i16(at.1 + y) as i16,
        width: geometry::wrap_u16(geometry::max_of(rw, 0)) as u16,
        height: geometry::wrap_u16(geometry::max_of(rh, 0)) as u16,
    }
}

/// How often 16 bits wrap.
#[verifier::opaque]
spec fn wraps(v: int) -> int {
    v / 0x1_0000 + if v % 0x1_0000 < 0x8000 {
        0int
    } else {
        1int
    }
}

/// Only the low 16 bits matter.
fn low(v: i32) -> (r: i32)
    ensures
        v == r + 0x1_0000 * wraps(v as int),
        -0x8000 <= r <= 0x7fff,
{
    proof {
        reveal(wraps);
    }
    geometry::to_i16(v) as i32
}

proof fn lemma_low_sum(at: int, x: int, y: int, k: int)
    requires
        x == y + 0x1_0000 * k,
    ensures
        geometry::wrap_i16(at + x) == geometry::wrap_i16(at + y),
{
}

fn low_u32(v: u32) -> (r: i32)
    ensures
        v == r + 0x1_0000 * (v as int / 0x1_0000),
        0 <= r < 0x1_0000,
{
    (v % 0x1_0000) as i32
}

fn place_damage(r: BufferRect, t: Transform, w: u32, h: u32, at: (i32, i32)) -> (s: Rectangle)
    requires
        -0x8000 <= at.0 <= 0xffff,
        -0x8000 <= at.1 <= 0xffff,
    ensures
        s == on_screen(r, t, w, h, at),
{
    let (x, y, _, _) = t.rect((low(r.x), low(r.y), low(r.width), low(r.height)), low_u32(w), low_u32(h));
    let (rw, rh) = if t.swaps_axes() {
        (r.height, r.width)
    } else {
        (r.width, r.height)
    };
    proof {
        let (fx, fy) = t.origin_of(r.x as int, r.y as int, r.width as int, r.height as int, w as int, h as int);
        let kx = if t.reverses_x() {
            w as int / 0x1_0000 - wraps(r.x as int) - wraps(r.width as int)
        } else {
            wraps(r.x as int)
        };
        let ky = if t.reverses_y() {
            h as int / 0x1_0000 - wraps(r.y as int) - wraps(r.height as int)
        } else {
            wraps(r.y as int)
        };
        if t.is_quarter_turn() {
            lemma_low_sum(at.0 as int, fx, x as int, ky);
            lemma_low_sum(at.1 as int, fy, y as int, kx);
        } else {
            lemma_low_sum(at.0 as int, fx, x as int, kx);
            lemma_low_sum(at.1 as int, fy, y as int, ky);
        }
    }
    Rectangle {
        x: geometry::to_i16(at.0 + x),
        y: geometry::to_i16(at.1 + y),
        width: geometry::to_u16(if rw > 0 { rw } else { 0 }),
        height: geometry::to_u16(if rh > 0 { rh } else { 0 }),
    }
}

/// Rectangles of damage on the screen.
pub open spec fn all_on_screen(s: Seq<BufferRect>, t: Transform, w: u32, h: u32, at: (i32, i32)) -> Seq<Rectangle> {
    Seq::new(s.len(), |i: int| on_screen(s[i], t, w, h, at))
}

impl CtxView {
    pub open spec fn wf(self) -> bool {
        &&& pacing::buffer_ok(self.buffer)
        &&& self.cursor_cap matches Some(c) ==> c.wf()
    }

    /// A context without a session, due at once.
    pub open spec fn fresh(wl_name: u32, transform: Transform, now: u64) -> CtxView {
        CtxView {
            wl_name,
            transform,
            frame_transform: None,
            buffer: None,
            frame: None,
            next_at: now,
            req_at: None,
            source: false,
            session: false,
            session_ready: false,
            session_size: None,
            session_format: None,
            frame_damage: Seq::empty(),
            cursor_cap: None,
            cursor_reopen_at: None,
        }
    }

    /// The transform of this output's capture buffer.
    pub open spec fn turned(self) -> Transform {
        match self.frame_transform {
            Some(t) => t,
            None => self.transform,
        }
    }

    /// With a session opened, and a cursor session beside it unless the cursor is baked
    /// or there is no pointer. It waits for the constraints.
    pub open spec fn opening(self, bake: bool, pointer: bool, now: u64) -> (CtxView, Step) {
        (
            CtxView {
                source: true,
                session: true,
                session_ready: false,
                session_size: None,
                session_format: None,
                frame_transform: None,
                cursor_cap: if pointer && !bake {
                    Some(CursorCap::opened())
                } else {
                    None
                },
                cursor_reopen_at: None,
                next_at: pacing::later(now, SLOW_INTERVAL),
                ..self
            },
            Step::Open { paint_cursors: bake, cursor: pointer && !bake },
        )
    }

    /// The next capture is asked for, or what it needs first.
    pub open spec fn starting(self, bake: bool, pointer: bool, now: u64) -> (CtxView, Step) {
        if self.frame is Some {
            (self, Step::Nothing)
        } else if !self.session {
            self.opening(bake, pointer, now)
        } else if !self.session_ready {
            (CtxView { next_at: pacing::later(now, SLOW_INTERVAL), ..self }, Step::Nothing)
        } else {
            match (self.session_size, self.session_format) {
                (Some(size), Some(format)) => {
                    let (buffer, shot) = cursor::shot_of(self.buffer, size, format);
                    (
                        CtxView { buffer, ..self },
                        match shot {
                            Some(s) => Step::Capture(s),
                            None => Step::Nothing,
                        },
                    )
                },
                _ => (self, Step::Nothing),
            }
        }
    }

    /// With what the compositor said of the session.
    pub open spec fn session_told(self, event: SessionEvent, bake: bool, pointer: bool, now: u64) -> (CtxView, Step) {
        match event {
            SessionEvent::BufferSize { width, height } => (
                CtxView { session_size: Some((width, height)), ..self },
                Step::Nothing,
            ),
            SessionEvent::ShmFormat(fmt) => (
                if better(fmt, self.session_format) {
                    CtxView { session_format: Some(fmt), ..self }
                } else {
                    self
                },
                Step::Nothing,
            ),
            SessionEvent::Done => if self.session_format is None {
                (self, Step::NoFormat)
            } else {
                CtxView { session_ready: true, ..self }.starting(bake, pointer, now)
            },
            // a stopped session is dead; a later pass opens another one
            SessionEvent::Stopped => (
                CtxView {
                    frame: None,
                    session: false,
                    session_ready: false,
                    session_size: None,
                    session_format: None,
                    next_at: pacing::later(now, SLOW_INTERVAL),
                    ..self
                },
                Step::Stopped,
            ),
        }
    }

    /// With what the compositor said of a frame. Only our own frame that is out drives
    /// the state. Anything else is one that was rejected as a duplicate, or a leftover
    /// from a session already replaced; acting on it would clear the frame and make us
    /// ask for another duplicate, forever.
    pub open spec fn frame_told(self, frame: u32, event: FrameEvent, now: u64) -> (CtxView, Step) {
        if self.frame != Some(frame) {
            (
                self,
                if event is Ready || event is Failed {
                    Step::Destroy
                } else {
                    Step::Nothing
                },
            )
        } else {
            match event {
                FrameEvent::Damage(r) => (
                    CtxView { frame_damage: self.frame_damage.push(r), ..self },
                    Step::Nothing,
                ),
                FrameEvent::Transform(t) => (CtxView { frame_transform: Some(t), ..self }, Step::Nothing),
                FrameEvent::Ready => (self, Step::Show),
                // on unmet constraints (the output resized, say) the session sends them
                // again in its own `done`, and all that is needed is a buffer matching
                // them; that `done` may already have been delivered, so readiness stays
                FrameEvent::Failed { constraints } => (
                    CtxView {
                        frame: None,
                        req_at: None,
                        next_at: pacing::later(now, SLOW_INTERVAL),
                        buffer: if constraints {
                            None
                        } else {
                            self.buffer
                        },
                        ..self
                    },
                    Step::Destroy,
                ),
            }
        }
    }

    /// The damage that a frame reports.
    pub open spec fn damage_on(self, server: ServerView) -> Seq<Rectangle> {
        match self.buffer {
            Some(b) if server.tracks_damage() => all_on_screen(
                self.frame_damage,
                self.turned(),
                b.width,
                b.height,
                pacing::place_of(server.screen, self.wl_name),
            ),
            _ => Seq::empty(),
        }
    }

    /// The blit of a frame: nothing is compared, the compositor hands over the damage.
    pub open spec fn blit(self, server: ServerView, b: BufferSpec, pixels: Seq<u8>, chan: capture::ChannelMap) -> capture::Blit {
        let (x, y) = pacing::place_of(server.screen, self.wl_name);
        capture::blit_of(x, y, b.width, b.height, b.stride, pixels, false, self.turned(), false, chan)
    }
}

impl Ctx {
    pub open spec fn wf(self) -> bool {
        self@.wf()
    }

    pub fn new(wl_name: u32, transform: Transform, now: u64) -> (c: Ctx)
        ensures
            c.wf(),
            c@ == CtxView::fresh(wl_name, transform, now),
    {
        Ctx {
            wl_name,
            transform,
            frame_transform: None,
            buffer: None,
            frame: None,
            next_at: now,
            req_at: None,
            source: false,
            session: false,
            session_ready: false,
            session_size: None,
            session_format: None,
            frame_damage: Vec::new(),
            cursor_cap: None,
            cursor_reopen_at: None,
        }
    }

    /// Opens a session, and a cursor session beside it.
    pub fn create_ext_session(&mut self, bake: bool, pointer: bool, now: u64) -> (s: Step)
        requires
            old(self).wf(),
        ensures
            final(self).wf(),
            (final(self)@, s) == old(self)@.opening(bake, pointer, now),
    {
        self.source = true;
        self.session = true;
        self.session_ready = false;
        self.session_size = None;
        self.session_format = None;
        self.frame_transform = None;
        let cursor = pointer && !bake;
        self.cursor_cap = if cursor {
            Some(CursorCap::open())
        } else {
            None
        };
        self.cursor_reopen_at = None;
        self.next_at = pacing::after(now, SLOW_INTERVAL);
        Step::Open { paint_cursors: bake, cursor }
    }

    /// Asks for the next capture, or for what it needs first.
    pub fn start_capture_ext(&mut self, bake: bool, pointer: bool, now: u64) -> (s: Step)
        requires
            old(self).wf(),
        ensures
            final(self).wf(),
            (final(self)@, s) == old(self)@.starting(bake, pointer, now),
            s matches Step::Capture(shot) ==> shot.buffer.usable(),
    {
        if self.frame.is_some() {
            return Step::Nothing;
        }
        if !self.session {
            return self.create_ext_session(bake, pointer, now);
        }
        if !self.session_ready {
            self.next_at = pacing::after(now, SLOW_INTERVAL);
            return Step::Nothing;
        }
        match (self.session_size, self.session_format) {
            (Some(size), Some(format)) => {
                let (buffer, shot) = cursor::shoot(self.buffer, size, format);
                self.buffer = buffer;
                match shot {
                    Some(s) => Step::Capture(s),
                    None => Step::Nothing,
                }
            },
            _ => Step::Nothing,
        }
    }

    /// The buffer that was asked for has been made.
    pub fn buffer_made(&mut self, spec: BufferSpec)
        requires
            old(self).wf(),
            spec.usable(),
        ensures
            final(self).wf(),
            final(self)@ == (CtxView { buffer: Some(spec), ..old(self)@ }),
    {
        self.buffer = Some(spec);
    }

    /// A capture was asked for.
    pub fn started(&mut self, frame: u32, now: u64)
        requires
            old(self).wf(),
        ensures
            final(self).wf(),
            final(self)@ == (CtxView {
                frame: Some(frame),
                req_at: Some(now),
                frame_damage: Seq::empty(),
                ..old(self)@
            }),
    {
        self.frame = Some(frame);
        self.req_at = Some(now);
        self.frame_damage = Vec::new();
    }

    /// Handles a screen session event.
    pub fn screen_session_event(&mut self, event: SessionEvent, bake: bool, pointer: bool, now: u64) -> (s: Step)
        requires
            old(self).wf(),
        ensures
            final(self).wf(),
            (final(self)@, s) == old(self)@.session_told(event, bake, pointer, now),
            s matches Step::Capture(shot) ==> shot.buffer.usable(),
    {
        match event {
            SessionEvent::BufferSize { width, height } => {
                self.session_size = Some((width, height));
                Step::Nothing
            },
            SessionEvent::ShmFormat(fmt) => {
                if is_better(fmt, self.session_format) {
                    self.session_format = Some(fmt);
                }
                Step::Nothing
            },
            SessionEvent::Done => {
                if self.session_format.is_none() {
                    return Step::NoFormat;
                }
                self.session_ready = true;
                // constraints are known, so kick off the first frame
                self.start_capture_ext(bake, pointer, now)
            },
            SessionEvent::Stopped => {
                self.frame = None;
                self.session = false;
                self.session_ready = false;
                self.session_size = None;
                self.session_format = None;
                self.next_at = pacing::after(now, SLOW_INTERVAL);
                Step::Stopped
            },
        }
    }

    /// Handles a screen frame event.
    pub fn screen_frame_event(&mut self, frame: u32, event: FrameEvent, now: u64) -> (s: Step)
        requires
            old(self).wf(),
        ensures
            final(self).wf(),
            (final(self)@, s) == old(self)@.frame_told(frame, event, now),
    {
        let current = match self.frame {
            Some(f) => f == frame,
            None => false,
        };
        if !current {
            return match event {
                FrameEvent::Ready | FrameEvent::Failed { .. } => Step::Destroy,
                _ => Step::Nothing,
            };
        }
        match event {
            FrameEvent::Damage(r) => {
                self.frame_damage.push(r);
                Step::Nothing
            },
            FrameEvent::Transform(t) => {
                self.frame_transform = Some(t);
                Step::Nothing
            },
            FrameEvent::Ready => Step::Show,
            FrameEvent::Failed { constraints } => {
                self.frame = None;
                self.req_at = None;
                self.next_at = pacing::after(now, SLOW_INTERVAL);
                if constraints {
                    self.buffer = None;
                }
                Step::Destroy
            },
        }
    }

    fn damage(&self, b: BufferSpec, at: (i32, i32)) -> (v: Vec<Rectangle>)
        requires
            -0x8000 <= at.0 <= 0xffff,
            -0x8000 <= at.1 <= 0xffff,
        ensures
            v@ == all_on_screen(self@.frame_damage, self@.turned(), b.width, b.height, at),
    {
        let t = self.turn();
        let mut v: Vec<Rectangle> = Vec::new();
        let mut i: usize = 0;
        let ghost all = all_on_screen(self.frame_damage@, t, b.width, b.height, at);
        while i < self.frame_damage.len()
            invariant
                i <= self.frame_damage.len(),
                -0x8000 <= at.0 <= 0xffff,
                -0x8000 <= at.1 <= 0xffff,
                all == all_on_screen(self.frame_damage@, t, b.width, b.height, at),
                v@ == all.take(i as int),
            decreases self.frame_damage.len() - i,
        {
            v.push(place_damage(self.frame_damage[i], t, b.width, b.height, at));
            assert(all.take(i as int + 1) =~= all.take(i as int).push(all[i as int]));
            i += 1;
        }
        assert(all.take(i as int) =~= all);
        v
    }

    /// The transform to apply to this output's capture buffer.
    pub fn turn(&self) -> (t: Transform)
        ensures
            t == self@.turned(),
    {
        match self.frame_transform {
            Some(t) => t,
            None => self.transform,
        }
    }

    /// Shows a completed capture and reports the compositor's damage. The next capture is
    /// due at once, so that the compositor can hold the request until content changes.
    pub fn frame_ready(&mut self, server: &mut Server, pixels: &[u8], now: u64)
        requires
            old(self).wf(),
            old(server).wf(),
        ensures
            final(self).wf(),
            final(server).wf(),
            final(self)@ == (CtxView {
                frame: None,
                frame_damage: Seq::empty(),
                req_at: None,
                next_at: now,
                ..old(self)@
            }),
            final(server)@ == old(server)@.with_damage(old(self)@.damage_on(old(server)@)),
            match old(self)@.buffer {
                Some(b) => exists|chan: capture::ChannelMap| {
                    let blit = #[trigger] old(self)@.blit(old(server)@, b, pixels@, chan);
                    &&& shm::offsets(chan) == shm::blit_offsets(b.format)
                    &&& blit.applied(old(server).framebuffer, final(server).framebuffer)
                },
                None => final(server).framebuffer == old(server).framebuffer,
            },
    {
        let by_damage = server.damage.active(&server.events);
        let mut rects: Vec<Rectangle> = Vec::new();
        if let Some(b) = self.buffer {
            let at = server.output_place(self.wl_name);
            let (chan, _) = shm::blit_channels(b.format);
            let _ = server.framebuffer.blit_diff(
                at.0,
                at.1,
                b.width,
                b.height,
                b.stride,
                pixels,
                false,
                self.turn(),
                false,
                chan,
            );
            assert(old(self)@.blit(old(server)@, b, pixels@, chan).applied(
                old(server).framebuffer,
                server.framebuffer,
            ));
            if by_damage {
                rects = self.damage(b, at);
            }
        }
        self.frame = None;
        self.frame_damage = Vec::new();
        self.req_at = None;
        self.next_at = now;
        assert(server@ =~= old(server)@);
        assert(rects@ =~= old(self)@.damage_on(old(server)@));
        server.add_damage(&rects);
    }

    /// The cursor session was stopped. It is dead, and there is only one image session to
    /// a cursor session, so the whole of it goes; another is opened after a pause.
    pub fn cursor_stopped(&mut self, now: u64)
        requires
            old(self).wf(),
        ensures
            final(self).wf(),
            final(self)@ == (CtxView {
                cursor_cap: None,
                cursor_reopen_at: Some(pacing::later(now, SLOW_INTERVAL)),
                ..old(self)@
            }),
    {
        self.cursor_cap = None;
        self.cursor_reopen_at = Some(pacing::after(now, SLOW_INTERVAL));
    }

    /// Opens a cursor session, if there is none and there is a source for it; returns
    /// whether it did.
    pub fn open_cursor(&mut self) -> (opened: bool)
        requires
            old(self).wf(),
        ensures
            final(self).wf(),
            opened == (old(self)@.cursor_cap is None && old(self)@.source),
            final(self)@ == (if opened {
                CtxView { cursor_cap: Some(CursorCap::opened()), cursor_reopen_at: None, ..old(self)@ }
            } else {
                old(self)@
            }),
    {
        if self.cursor_cap.is_none() && self.source {
            self.cursor_cap = Some(CursorCap::open());
            self.cursor_reopen_at = None;
            true
        } else {
            false
        }
    }

    /// Whether a stopped cursor session is to be opened again.
    pub fn reopens(&self, now: u64) -> (b: bool)
        ensures
            b == (self@.cursor_cap is None && self@.source && (self@.cursor_reopen_at matches Some(t) && t <= now)),
    {
        self.cursor_cap.is_none() && self.source && match self.cursor_reopen_at {
            Some(t) => t <= now,
            None => false,
        }
    }
}

/// The backend: one context for each output.
pub struct ImageCopyCapture {
    pub ctxs: Vec<Ctx>,
}

/// Contexts as they are seen.
pub open spec fn ctx_views(s: Seq<Ctx>) -> Seq<CtxView> {
    Seq::new(s.len(), |i: int| s[i]@)
}

pub open spec fn ctx_is(wl_name: u32) -> spec_fn(CtxView) -> bool {
    |c: CtxView| c.wl_name == wl_name
}

impl View for ImageCopyCapture {
    type V = Seq<CtxView>;

    open spec fn view(&self) -> Seq<CtxView> {
        ctx_views(self.ctxs@)
    }
}

/// The contexts with those for outputs that had none.
pub open spec fn with_outputs(ctxs: Seq<CtxView>, outputs: Seq<(u32, Transform)>, now: u64) -> Seq<CtxView>
    decreases outputs.len(),
{
    if outputs.len() == 0 {
        ctxs
    } else {
        let before = with_outputs(ctxs, outputs.drop_last(), now);
        let (name, transform) = outputs.last();
        if list::first_index(before, ctx_is(name)) is Some {
            before
        } else {
            before.push(CtxView::fresh(name, transform, now))
        }
    }
}

/// The outputs whose capture is due.
pub open spec fn due(ctxs: Seq<CtxView>, now: u64) -> Seq<u32>
    decreases ctxs.len(),
{
    if ctxs.len() == 0 {
        Seq::empty()
    } else {
        let c = ctxs.last();
        if c.frame is None && c.next_at <= now {
            due(ctxs.drop_last(), now).push(c.wl_name)
        } else {
            due(ctxs.drop_last(), now)
        }
    }
}

/// How long to wait before looking again.
pub open spec fn wait(ctxs: Seq<CtxView>, now: u64) -> u64
    decreases ctxs.len(),
{
    if ctxs.len() == 0 {
        SLOW_INTERVAL
    } else if ctxs.last().frame is None {
        pacing::sooner(wait(ctxs.drop_last(), now), now, ctxs.last().next_at)
    } else {
        wait(ctxs.drop_last(), now)
    }
}

/// A stopped cursor session is to be opened again.
pub open spec fn reopens(now: u64) -> spec_fn(CtxView) -> bool {
    |c: CtxView| c.cursor_cap is None && c.source && (c.cursor_reopen_at matches Some(t) && t <= now)
}

/// A cursor frame that failed is to be asked for again.
pub open spec fn retries(now: u64) -> spec_fn(CtxView) -> bool {
    |c: CtxView|
        c.cursor_cap matches Some(cc) && cc.frame is None && (cc.retry_at matches Some(t) && t <= now)
}

/// The outputs of the contexts that `p` holds of.
pub open spec fn names_of(ctxs: Seq<CtxView>, p: spec_fn(CtxView) -> bool) -> Seq<u32>
    decreases ctxs.len(),
{
    if ctxs.len() == 0 {
        Seq::empty()
    } else if p(ctxs.last()) {
        names_of(ctxs.drop_last(), p).push(ctxs.last().wl_name)
    } else {
        names_of(ctxs.drop_last(), p)
    }
}

/// The contexts with their stopped cursor sessions opened again.
pub open spec fn reopened(ctxs: Seq<CtxView>, now: u64) -> Seq<CtxView> {
    Seq::new(
        ctxs.len(),
        |i: int|
            if reopens(now)(ctxs[i]) {
                CtxView { cursor_cap: Some(CursorCap::opened()), cursor_reopen_at: None, ..ctxs[i] }
            } else {
                ctxs[i]
            },
    )
}

impl ImageCopyCapture {
    pub open spec fn wf(self) -> bool {
        forall|i: int| 0 <= i < self.ctxs@.len() ==> (#[trigger] self.ctxs@[i]).wf()
    }

    pub fn new() -> (c: Self)
        ensures
            c.wf(),
            c@ == Seq::<CtxView>::empty(),
    {
        let c = ImageCopyCapture { ctxs: Vec::new() };
        assert(c@ =~= Seq::empty());
        c
    }

    /// The index of an output's context.
    pub fn find(&self, wl_name: u32) -> (r: Option<usize>)
        ensures
            match r {
                Some(i) => i < self.ctxs@.len() && list::first_index(self@, ctx_is(wl_name)) == Some(i as int),
                None => list::first_index(self@, ctx_is(wl_name)) is None,
            },
    {
        let mut i: usize = 0;
        while i < self.ctxs.len()
            invariant
                i <= self.ctxs.len(),
                forall|j: int| 0 <= j < i ==> !ctx_is(wl_name)(#[trigger] self@[j]),
            decreases self.ctxs.len() - i,
        {
            if self.ctxs[i].wl_name == wl_name {
                proof {
                    list::lemma_first_index_is(self@, ctx_is(wl_name), i as int);
                }
                return Some(i);
            }
            i += 1;
        }
        proof {
            list::lemma_first_index_none(self@, ctx_is(wl_name));
        }
        None
    }

    /// Ensures that a context exists for every bound output. Those without a session are
    /// due at once, which opens one.
    pub fn sync_outputs(&mut self, outputs: &Vec<(u32, Transform)>, now: u64)
        requires
            old(self).wf(),
        ensures
            final(self).wf(),
            final(self)@ == with_outputs(old(self)@, outputs@, now),
    {
        let mut i: usize = 0;
        assert(outputs@.take(0) =~= Seq::empty());
        while i < outputs.len()
            invariant
                i <= outputs.len(),
                self.wf(),
                self@ == with_outputs(old(self)@, outputs@.take(i as int), now),
            decreases outputs.len() - i,
        {
            let (name, transform) = outputs[i];
            assert(outputs@.take(i as int + 1).drop_last() =~= outputs@.take(i as int));
            if self.find(name).is_none() {
                let ghost before = self@;
                let c = Ctx::new(name, transform, now);
                let ghost cv = c@;
                self.ctxs.push(c);
                assert(self@ =~= before.push(cv));
            }
            i += 1;
        }
        assert(outputs@.take(i as int) =~= outputs@);
    }

    /// Updates an output's transform.
    pub fn set_transform(&mut self, wl_name: u32, transform: Transform)
        requires
            old(self).wf(),
        ensures
            final(self).wf(),
            final(self)@ == (match list::first_index(old(self)@, ctx_is(wl_name)) {
                Some(i) => old(self)@.update(i, CtxView { transform, ..old(self)@[i] }),
                None => old(self)@,
            }),
    {
        if let Some(i) = self.find(wl_name) {
            self.ctxs[i].transform = transform;
            assert(self@ =~= old(self)@.update(i as int, CtxView { transform, ..old(self)@[i as int] }));
        }
    }

    /// Drops an output's context, which is returned so that what it holds can be
    /// destroyed.
    pub fn remove_output(&mut self, wl_name: u32) -> (r: Option<Ctx>)
        requires
            old(self).wf(),
        ensures
            final(self).wf(),
            match list::first_index(old(self)@, ctx_is(wl_name)) {
                Some(i) => (r matches Some(c) && c@ == old(self)@[i]) && final(self)@ == old(self)@.remove(i),
                None => r is None && final(self)@ == old(self)@,
            },
    {
        match self.find(wl_name) {
            Some(i) => {
                let c = self.ctxs.remove(i);
                assert(self@ =~= old(self)@.remove(i as int));
                Some(c)
            },
            None => None,
        }
    }

    /// The paced part of cursor capture: reopens the cursor sessions that the compositor
    /// stopped, and says which outputs' frames that failed are to be asked for again.
    pub fn tick_cursors(&mut self, bake: bool, pointer: bool, now: u64) -> (r: (Vec<u32>, Vec<u32>))
        requires
            old(self).wf(),
        ensures
            final(self).wf(),
            bake || !pointer ==> r.0@.len() == 0 && r.1@.len() == 0 && final(self)@ == old(self)@,
            !bake && pointer ==> {
                &&& final(self)@ == reopened(old(self)@, now)
                &&& r.0@ == names_of(old(self)@, reopens(now))
                &&& r.1@ == names_of(old(self)@, retries(now))
            },
    {
        let mut opened: Vec<u32> = Vec::new();
        let mut again: Vec<u32> = Vec::new();
        if bake || !pointer {
            return (opened, again);
        }
        let ghost s0 = self@;
        let n: usize = self.ctxs.len();
        let mut i: usize = 0;
        assert(s0.take(0) =~= Seq::empty());
        while i < n
            invariant
                i <= n,
                n == self.ctxs@.len(),
                n == s0.len(),
                self.wf(),
                opened@ == names_of(s0.take(i as int), reopens(now)),
                again@ == names_of(s0.take(i as int), retries(now)),
                forall|j: int| 0 <= j < i ==> #[trigger] self@[j] == reopened(s0, now)[j],
                forall|j: int| i <= j < n ==> #[trigger] self@[j] == s0[j],
            decreases n - i,
        {
            assert(s0.take(i as int + 1).drop_last() =~= s0.take(i as int));
            assert(s0.take(i as int + 1).last() == s0[i as int]);
            assert(self@[i as int] == s0[i as int]);
            let ghost before = self@;
            let name: u32 = self.ctxs[i].wl_name;
            let retry = match &self.ctxs[i].cursor_cap {
                Some(c) => c.retries(now),
                None => false,
            };
            if self.ctxs[i].reopens(now) {
                let _ = self.ctxs[i].open_cursor();
                opened.push(name);
            }
            if retry {
                again.push(name);
            }
            assert(self@ =~= before.update(i as int, reopened(s0, now)[i as int]));
            i += 1;
        }
        assert(s0.take(i as int) =~= s0);
        assert(self@ =~= reopened(s0, now));
        (opened, again)
    }

    /// The outputs whose capture is to be asked for now, and how long to wait before
    /// looking again.
    pub fn tick(&self, now: u64) -> (r: (Vec<u32>, u64))
        ensures
            r.0@ == due(self@, now),
            r.1 == wait(self@, now),
    {
        let mut names: Vec<u32> = Vec::new();
        let mut ns: u64 = SLOW_INTERVAL;
        let mut i: usize = 0;
        assert(self@.take(0) =~= Seq::empty());
        while i < self.ctxs.len()
            invariant
                i <= self.ctxs.len(),
                names@ == due(self@.take(i as int), now),
                ns == wait(self@.take(i as int), now),
            decreases self.ctxs.len() - i,
        {
            assert(self@.take(i as int + 1).drop_last() =~= self@.take(i as int));
            assert(self@.take(i as int + 1).last() == self.ctxs@[i as int]@);
            let next_at: u64 = self.ctxs[i].next_at;
            if self.ctxs[i].frame.is_none() {
                if next_at <= now {
                    names.push(self.ctxs[i].wl_name);
                } else if next_at - now < ns {
                    ns = next_at - now;
                }
            }
            i += 1;
        }
        assert(self@.take(i as int) =~= self@);
        (names, ns)
    }
}

/// Events of a frame that is not ours change nothing.
pub proof fn law_stale_screen_frames_change_nothing(c: CtxView, frame: u32, event: FrameEvent, now: u64)
    requires
        c.frame != Some(frame),
    ensures
        c.frame_told(frame, event, now).0 == c,
{
}

/// A session never has two frames: none is asked for while one is out.
pub proof fn law_one_screen_frame_at_a_time(c: CtxView, bake: bool, pointer: bool, now: u64)
    requires
        c.frame is Some,
    ensures
        c.starting(bake, pointer, now) == (c, Step::Nothing),
{
}

/// A frame that failed for its buffer leaves the session ready, and the next capture has
/// a fresh buffer of the session's size.
pub proof fn law_failed_buffers_are_replaced(c: CtxView, frame: u32, bake: bool, pointer: bool, now: u64)
    requires
        c.frame == Some(frame),
        c.session && c.session_ready,
        c.session_size is Some && c.session_format is Some,
        cursor::wanted(c.session_size->0, c.session_format->0) is Some,
    ensures
        ({
            let after = c.frame_told(frame, FrameEvent::Failed { constraints: true }, now).0;
            after.starting(bake, pointer, now).1 == Step::Capture(
                Shot { buffer: cursor::wanted(c.session_size->0, c.session_format->0)->0, fresh: true },
            )
        }),
{
}

/// The format that needs no conversion wins, whatever else is offered and in whatever
/// order.
pub proof fn law_native_format_wins(c: CtxView, fmt: Format, bake: bool, pointer: bool, now: u64)
    ensures
        ({
            let native = SessionEvent::ShmFormat(Format::Xrgb8888);
            let other = SessionEvent::ShmFormat(fmt);
            &&& c.session_told(native, bake, pointer, now).0.session_told(other, bake, pointer, now).0.session_format
                == Some(Format::Xrgb8888)
            &&& c.session_told(other, bake, pointer, now).0.session_told(native, bake, pointer, now).0.session_format
                == Some(Format::Xrgb8888)
        }),
{
}

/// Without a transform, damage is reported where it is in the buffer, shifted to the
/// output's place.
pub proof fn law_plain_damage_is_shifted(r: BufferRect, w: u32, h: u32, at: (i32, i32))
    requires
        0 <= at.0 + r.x <= 0x7fff,
        0 <= at.1 + r.y <= 0x7fff,
        0 <= r.width <= 0xffff,
        0 <= r.height <= 0xffff,
    ensures
        on_screen(r, Transform::Normal, w, h, at) == (Rectangle {
            x: (at.0 + r.x) as i16,
            y: (at.1 + r.y) as i16,
            width: r.width as u16,
            height: r.height as u16,
        }),
{
}

/// Damage goes where its pixels go: where a damaged pixel of the buffer lands on the
/// screen, the rectangle on the screen holds it.
pub proof fn law_damage_goes_where_its_pixels_do(
    r: BufferRect,
    t: Transform,
    w: u32,
    h: u32,
    at: (i32, i32),
    bx: int,
    by: int,
)
    requires
        r.x <= bx < r.x + r.width,
        r.y <= by < r.y + r.height,
        r.width <= 0xffff,
        r.height <= 0xffff,
        ({
            let (x, y) = t.origin_of(r.x as int, r.y as int, r.width as int, r.height as int, w as int, h as int);
            -0x8000 <= at.0 + x <= 0x7fff && -0x8000 <= at.1 + y <= 0x7fff
        }),
    ensures
        ({
            let (dx, dy) = t.pixel(bx, by, w as int, h as int);
            on_screen(r, t, w, h, at).holds(at.0 + dx, at.1 + dy)
        }),
{
    transform::law_rect_covers_its_points(
        t,
        bx,
        by,
        r.x as int,
        r.y as int,
        r.width as int,
        r.height as int,
        w as int,
        h as int,
    );
}

/// Of the formats on offer the framebuffer's own is taken, else one whose bytes are in
/// order, else the first one.
pub proof fn law_framebuffer_format_is_preferred(f: Format, c: Format, code: u32)
    ensures
        better(f, None),
        c != Format::Xrgb8888 ==> better(Format::Xrgb8888, Some(c)),
        !better(f, Some(Format::Xrgb8888)),
        !(f is Other) ==> better(f, Some(Format::Other(code))),
        !better(Format::Other(code), Some(c)),
        !(c is Other) && f != Format::Xrgb8888 ==> !better(f, Some(c)),
{
}

/// A captured frame goes where the screen has its output, turned the way that the
/// compositor said of the frame, else of the output.
pub proof fn law_frame_goes_to_its_output(
    c: CtxView,
    server: ServerView,
    b: BufferSpec,
    pixels: Seq<u8>,
    chan: capture::ChannelMap,
    i: int,
)
    requires
        0 <= i < server.screen.outputs.len(),
        server.screen.outputs[i].wl_name == c.wl_name,
        forall|k: int| 0 <= k < i ==> (#[trigger] server.screen.outputs[k]).wl_name != c.wl_name,
    ensures
        ({
            let blit = c.blit(server, b, pixels, chan);
            &&& blit.ox == server.screen.outputs[i].x && blit.oy == server.screen.outputs[i].y
            &&& blit.width == b.width && blit.height == b.height && blit.stride == b.stride
            &&& blit.src == pixels && blit.chan == chan && !blit.y_invert
            &&& c.frame_transform matches Some(t) ==> blit.transform == t
            &&& c.frame_transform is None ==> blit.transform == c.transform
        }),
{
    pacing::law_outputs_are_captured_to_their_place(server.screen, i);
}

/// An output is due exactly where no frame of it is out and its time has come.
pub proof fn law_due_outputs_are_those_whose_time_has_come(ctxs: Seq<CtxView>, now: u64, name: u32)
    ensures
        due(ctxs, now).contains(name) <==> exists|k: int|
            0 <= k < ctxs.len() && (#[trigger] ctxs[k]).wl_name == name && ctxs[k].frame is None && ctxs[k].next_at <= now,
    decreases ctxs.len(),
{
    if ctxs.len() > 0 {
        let rest = ctxs.drop_last();
        let n = ctxs.len() - 1;
        let (all, before) = (due(ctxs, now), due(rest, now));
        law_due_outputs_are_those_whose_time_has_come(rest, now, name);
        if before.contains(name) {
            let j = before.index_of(name);
            assert(all[j] == name);
            let k = choose|k: int|
                0 <= k < rest.len() && (#[trigger] rest[k]).wl_name == name && rest[k].frame is None && rest[k].next_at
                    <= now;
            assert(ctxs[k].wl_name == name);
        }
        if ctxs[n].wl_name == name && ctxs[n].frame is None && ctxs[n].next_at <= now {
            assert(all[before.len() as int] == name);
        }
        if all.contains(name) && !before.contains(name) {
            let j = all.index_of(name);
            assert(j == before.len());
            assert(ctxs[n].wl_name == name);
        }
        if exists|k: int|
            0 <= k < ctxs.len() && (#[trigger] ctxs[k]).wl_name == name && ctxs[k].frame is None && ctxs[k].next_at <= now {
            let k = choose|k: int|
                0 <= k < ctxs.len() && (#[trigger] ctxs[k]).wl_name == name && ctxs[k].frame is None && ctxs[k].next_at
                    <= now;
            if k < n {
                assert(rest[k].wl_name == name);
            }
        }
    }
}

/// The wait ends before the next output is due, and it is never longer than the slowest
/// pace.
pub proof fn law_waits_end_by_the_next_capture(ctxs: Seq<CtxView>, now: u64, i: int)
    requires
        0 <= i < ctxs.len(),
    ensures
        ctxs[i].frame is None && ctxs[i].next_at > now ==> wait(ctxs, now) <= ctxs[i].next_at - now,
        wait(ctxs, now) <= 250_000_000,
    decreases ctxs.len(),
{
    let rest = ctxs.drop_last();
    if rest.len() > 0 {
        law_waits_end_by_the_next_capture(rest, now, if i < rest.len() { i } else { 0 });
    } else {
        assert(wait(rest, now) == SLOW_INTERVAL);
    }
}

/// The damage of a frame is what the compositor said of its buffer, each rectangle put on
/// the screen with the output, and none where nobody asks for it.
pub proof fn law_frame_damage_is_put_on_the_screen(c: CtxView, server: ServerView, b: BufferSpec, i: int)
    requires
        c.buffer == Some(b),
        0 <= i < c.frame_damage.len(),
    ensures
        server.tracks_damage() ==> c.damage_on(server).len() == c.frame_damage.len() && c.damage_on(server)[i] == on_screen(
            c.frame_damage[i],
            c.turned(),
            b.width,
            b.height,
            pacing::place_of(server.screen, c.wl_name),
        ),
        !server.tracks_damage() ==> c.damage_on(server).len() == 0,
{
}

/// A cursor session that was stopped is opened again when its pause is over, and not
/// before; no other is touched.
pub proof fn law_cursor_sessions_come_back(ctxs: Seq<CtxView>, now: u64, i: int)
    requires
        0 <= i < ctxs.len(),
        ctxs[i].source,
    ensures
        ({
            let c = ctxs[i];
            let d = reopened(ctxs, now)[i];
            &&& c.cursor_cap is None && (c.cursor_reopen_at matches Some(t) && t <= now) ==> d.cursor_cap is Some
                && d.cursor_reopen_at is None
            &&& c.cursor_cap is Some || c.cursor_reopen_at is None || (c.cursor_reopen_at matches Some(t) && t > now) ==> d
                == c
        }),
{
}

} // verus!
