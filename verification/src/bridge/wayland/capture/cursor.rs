//! Cursor capture for the `ext-image-copy-capture-v1` backend.
//!
//! Each output's cursor session carries two things: the pointer's position and hotspot,
//! and a separate image stream for the cursor itself, which becomes an X ARGB cursor
//! published over XFixes. None of this runs when `-cursor none` bakes the cursor into
//! the screen frames.

use crate::bridge::capture;
use crate::bridge::cursor;
use crate::bridge::cursor::CursorView;
use crate::bridge::event::sink;
use crate::bridge::server::{Server, ServerView};
use crate::bridge::wayland::capture as pacing;
use crate::bridge::wayland::capture::imagecopy::{FrameEvent, SessionEvent};
use crate::bridge::wayland::capture::SLOW_INTERVAL;
use crate::bridge::wayland::shm;
use crate::bridge::wayland::shm::{BufferSpec, Format};
use crate::util::geometry;
use crate::util::transform;
use crate::util::transform::Transform;
use vstd::prelude::*;

verus! {

/// One output's cursor capture. The image is the same on every output and only the
/// position differs, so each session contributes updates while the pointer is on it,
/// bracketed by `enter` and `leave`.
#[derive(Clone, Copy, Debug)]
pub struct CursorCap {
    /// Set once the image session's `done` closes constraint negotiation.
    pub cap_ready: bool,
    pub cap_size: Option<(u32, u32)>,
    pub cap_format: Option<Format>,
    pub buf: Option<BufferSpec>,
    /// The frame awaiting `ready` or `failed`.
    pub frame: Option<u32>,
    /// Whether the pointer is on this output right now.
    pub present: bool,
    /// Hotspot within the cursor image. Not the capture buffer's coordinates but the
    /// cursor's own, upright ones.
    pub hotspot: (i32, i32),
    /// The transform on the cursor image buffer. A rotated output's cursor arrives in
    /// panel orientation just as its screen does, so the image is turned upright before
    /// it goes out over XFixes.
    pub frame_transform: Transform,
    /// The pointer's position in output-local coordinates, `None` after a leave.
    pub pos: Option<(i32, i32)>,
    /// When to ask for a frame again after one failed, since nothing else would: the
    /// compositor only prompts us on `enter` and `done`.
    pub retry_at: Option<u64>,
}

/// Where the pointer is.
#[derive(Clone, Copy, PartialEq, Eq, Structural, Debug)]
pub enum PointerEvent {
    Enter,
    Leave,
    Position { x: i32, y: i32 },
    Hotspot { x: i32, y: i32 },
}

/// A capture into a buffer, which is to be made first if it is `fresh`.
#[derive(Clone, Copy, PartialEq, Eq, Structural, Debug)]
pub struct Shot {
    pub buffer: BufferSpec,
    pub fresh: bool,
}

/// What is to be done about a cursor frame.
#[derive(Clone, Copy, PartialEq, Eq, Structural, Debug)]
pub enum CursorStep {
    Nothing,
    /// The frame is over.
    Destroy,
    /// The frame is there: publish it, and then it is over.
    Show,
}

/// How welcome a format is: Argb8888, which needs no conversion and has alpha, then
/// anything convertible with alpha (transparent cursors), then anything convertible, and
/// only then the rest.
pub open spec fn rank_of(f: Format) -> int {
    if f == Format::Argb8888 {
        3
    } else {
        match shm::layout(f) {
            Some((_, Some(_))) => 2,
            Some((_, None)) => 1,
            None => 0,
        }
    }
}

/// How welcome a format is.
pub fn rank(f: Format) -> (r: u8)
    ensures
        r == rank_of(f),
{
    match f {
        Format::Argb8888 => 3,
        _ => match shm::pixel_layout(f) {
            Some((_, Some(_))) => 2,
            Some((_, None)) => 1,
            None => 0,
        },
    }
}

/// The buffer for a session of that size and format.
pub open spec fn wanted(size: (u32, u32), format: Format) -> Option<BufferSpec> {
    let b = BufferSpec { format, width: size.0, height: size.1, stride: (size.0 * 4) as u32 };
    if size.0 <= 0x1fff_ffff && b.usable() {
        Some(b)
    } else {
        None
    }
}

/// The buffer for a session of that size and format, four bytes to a pixel; `None` if
/// there cannot be one.
pub fn want(size: (u32, u32), format: Format) -> (r: Option<BufferSpec>)
    ensures
        r == wanted(size, format),
{
    if size.0 > 0x1fff_ffff {
        return None;
    }
    let b = BufferSpec { format, width: size.0, height: size.1, stride: size.0 * 4 };
    if b.is_usable() {
        Some(b)
    } else {
        None
    }
}

/// What a capture of that size and format goes into, and the buffer kept until it is
/// made: the one there is, if it has the size.
pub open spec fn shot_of(
    buffer: Option<BufferSpec>,
    size: (u32, u32),
    format: Format,
) -> (Option<BufferSpec>, Option<Shot>) {
    match buffer {
        Some(b) if b.width == size.0 && b.height == size.1 => (buffer, Some(Shot { buffer: b, fresh: false })),
        _ => (
            None,
            match wanted(size, format) {
                Some(b) => Some(Shot { buffer: b, fresh: true }),
                None => None,
            },
        ),
    }
}

pub fn shoot(buffer: Option<BufferSpec>, size: (u32, u32), format: Format) -> (r: (Option<BufferSpec>, Option<Shot>))
    ensures
        r == shot_of(buffer, size, format),
{
    if let Some(b) = buffer {
        if b.width == size.0 && b.height == size.1 {
            return (buffer, Some(Shot { buffer: b, fresh: false }));
        }
    }
    match want(size, format) {
        Some(b) => (None, Some(Shot { buffer: b, fresh: true })),
        None => (None, None),
    }
}

/// A number within 0 and 65535.
pub open spec fn clamped(v: i32) -> u16 {
    if v < 0 {
        0
    } else if v > 0xffff {
        0xffff
    } else {
        v as u16
    }
}

fn clamp(v: i32) -> (r: u16)
    ensures
        r == clamped(v),
{
    if v < 0 {
        0
    } else if v > 0xffff {
        0xffff
    } else {
        v as u16
    }
}

/// A position shifted by an output's place, wrapped to 16 bits.
pub open spec fn shifted(at: i32, by: i32) -> i16 {
    geometry::wrap_i16(at + by) as i16
}

pub fn shift(at: i32, by: i32) -> (r: i16)
    requires
        -0x8000 <= at <= 0xffff,
    ensures
        r == shifted(at, by),
{
    let low: i16 = geometry::to_i16(by);
    geometry::to_i16(at + low as i32)
}

/// The image is the buffer turned upright and converted.
pub open spec fn upright(image: Seq<u32>, raw: Seq<u32>, t: Transform, w: int, h: int, fmt: Option<Format>) -> bool {
    let (tw, th) = t.size_of(w, h);
    &&& image.len() == tw * th
    &&& forall|x: int, y: int|
        0 <= x < tw && 0 <= y < th ==> #[trigger] image[capture::pixel_index(y, x, tw)] == {
            let (bx, by) = t.pixel_under(x, y, w, h);
            shm::argb_of(raw[capture::pixel_index(by, bx, w)], fmt)
        }
}

proof fn lemma_index_in(x: int, y: int, w: int, h: int)
    requires
        0 <= x < w,
        0 <= y < h,
    ensures
        0 <= y * w + x < w * h,
{
    assert(0 <= y * w + x < w * h) by (nonlinear_arith)
        requires
            0 <= x < w,
            0 <= y < h,
    ;
}

/// Turns a cursor image the way the screen is, as X cursor ARGB.
pub fn turn(raw: &[u32], t: Transform, w: u32, h: u32, fmt: Option<Format>) -> (image: Vec<u32>)
    requires
        raw@.len() == w * h,
        w <= 0x1fff_ffff,
        h <= 0x1fff_ffff,
    ensures
        upright(image@, raw@, t, w as int, h as int, fmt),
{
    let (tw, th) = t.size(w, h);
    let mut image: Vec<u32> = Vec::new();
    let mut y: u32 = 0;
    assert(raw.len() == raw@.len());
    assert(0 * tw == 0);
    while y < th
        invariant
            y <= th,
            raw@.len() == w * h,
            raw@.len() <= usize::MAX,
            w <= 0x1fff_ffff,
            h <= 0x1fff_ffff,
            (tw as int, th as int) == t.size_of(w as int, h as int),
            image@.len() == y * tw,
            forall|a: int, b: int|
                0 <= a < tw && 0 <= b < y ==> #[trigger] image@[capture::pixel_index(b, a, tw as int)] == ({
                    let (bx, by) = t.pixel_under(a, b, w as int, h as int);
                    shm::argb_of(raw@[capture::pixel_index(by, bx, w as int)], fmt)
                }),
        decreases th - y,
    {
        let mut x: u32 = 0;
        while x < tw
            invariant
                x <= tw,
                y < th,
                raw@.len() == w * h,
                raw@.len() <= usize::MAX,
                w <= 0x1fff_ffff,
                h <= 0x1fff_ffff,
                (tw as int, th as int) == t.size_of(w as int, h as int),
                image@.len() == y * tw + x,
                forall|a: int, b: int|
                    0 <= a < tw && 0 <= b < y + 1 && (b < y || a < x) ==> #[trigger] image@[capture::pixel_index(
                        b,
                        a,
                        tw as int,
                    )] == ({
                        let (bx, by) = t.pixel_under(a, b, w as int, h as int);
                        shm::argb_of(raw@[capture::pixel_index(by, bx, w as int)], fmt)
                    }),
            decreases tw - x,
        {
            let (bx, by) = t.point_under(x, y, w, h);
            proof {
                lemma_index_in(bx as int, by as int, w as int, h as int);
            }
            let i: usize = (by as u64 * w as u64 + bx as u64) as usize;
            let v: u32 = shm::argb(raw[i], fmt);
            let ghost before = image@;
            image.push(v);
            assert forall|a: int, b: int|
                0 <= a < tw && 0 <= b < y + 1 && (b < y || a < x + 1) implies #[trigger] image@[capture::pixel_index(
                b,
                a,
                tw as int,
            )] == ({
                let (bx, by) = t.pixel_under(a, b, w as int, h as int);
                shm::argb_of(raw@[capture::pixel_index(by, bx, w as int)], fmt)
            }) by {
                if b < y || a < x {
                    if b < y {
                        lemma_index_in(a, b, tw as int, y as int);
                        assert(tw * y == y * tw) by (nonlinear_arith);
                    }
                    assert(capture::pixel_index(b, a, tw as int) < before.len());
                    assert(0 <= b * tw) by (nonlinear_arith)
                        requires
                            0 <= b,
                            0 <= tw,
                    ;
                    assert(image@[capture::pixel_index(b, a, tw as int)] == before[capture::pixel_index(
                        b,
                        a,
                        tw as int,
                    )]);
                }
            }
            x += 1;
        }
        assert((y + 1) * tw == y * tw + tw) by (nonlinear_arith);
        y += 1;
    }
    assert(th * tw == tw * th) by (nonlinear_arith);
    image
}

impl CursorCap {
    pub open spec fn wf(self) -> bool {
        self.buf matches Some(b) ==> b.usable()
    }

    /// A session that has just been opened.
    pub open spec fn opened() -> CursorCap {
        CursorCap {
            cap_ready: false,
            cap_size: None,
            cap_format: None,
            buf: None,
            frame: None,
            present: false,
            hotspot: (0, 0),
            frame_transform: Transform::Normal,
            pos: None,
            retry_at: None,
        }
    }

    pub fn open() -> (c: CursorCap)
        ensures
            c == CursorCap::opened(),
            c.wf(),
    {
        CursorCap {
            cap_ready: false,
            cap_size: None,
            cap_format: None,
            buf: None,
            frame: None,
            present: false,
            hotspot: (0, 0),
            frame_transform: Transform::Normal,
            pos: None,
            retry_at: None,
        }
    }

    /// A frame is asked for, if the pointer is here, the constraints are known and none
    /// is out.
    pub open spec fn starting(self) -> (CursorCap, Option<Shot>) {
        if self.frame is Some || !self.present || !self.cap_ready {
            (self, None)
        } else {
            match (self.cap_size, self.cap_format) {
                (Some(size), Some(format)) => {
                    let (buf, shot) = shot_of(self.buf, size, format);
                    (CursorCap { buf, ..self }, shot)
                },
                _ => (self, None),
            }
        }
    }

    /// With what the compositor said of the image session, short of its end.
    pub open spec fn session_told(self, event: SessionEvent) -> (CursorCap, Option<Shot>) {
        match event {
            SessionEvent::BufferSize { width, height } => (
                CursorCap { cap_size: Some((width, height)), ..self },
                None,
            ),
            SessionEvent::ShmFormat(fmt) => (
                if self.cap_format is None || rank_of(fmt) > rank_of(self.cap_format->0) {
                    CursorCap { cap_format: Some(fmt), ..self }
                } else {
                    self
                },
                None,
            ),
            SessionEvent::Done => if self.cap_format is None {
                (self, None)
            } else {
                CursorCap { cap_ready: true, ..self }.starting()
            },
            SessionEvent::Stopped => (self, None),
        }
    }

    /// With what the compositor said of a frame. Only our own frame that is out counts,
    /// or a rejected duplicate would make us produce another one.
    pub open spec fn frame_told(self, frame: u32, event: FrameEvent, now: u64) -> (CursorCap, CursorStep) {
        if self.frame != Some(frame) {
            (
                self,
                if event is Ready || event is Failed {
                    CursorStep::Destroy
                } else {
                    CursorStep::Nothing
                },
            )
        } else {
            match event {
                FrameEvent::Damage { .. } => (self, CursorStep::Nothing),
                FrameEvent::Transform(t) => (CursorCap { frame_transform: t, ..self }, CursorStep::Nothing),
                FrameEvent::Ready => (self, CursorStep::Show),
                // only the buffer is stale: readiness stays, since its `done` may already
                // have been delivered
                FrameEvent::Failed { constraints } => (
                    CursorCap {
                        frame: None,
                        buf: if constraints {
                            None
                        } else {
                            self.buf
                        },
                        retry_at: Some(pacing::later(now, SLOW_INTERVAL)),
                        ..self
                    },
                    CursorStep::Destroy,
                ),
            }
        }
    }

    /// Asks for a frame, if the pointer is here, the constraints are known and none is
    /// out.
    pub fn start(&mut self) -> (r: Option<Shot>)
        requires
            old(self).wf(),
        ensures
            final(self).wf(),
            (*final(self), r) == old(self).starting(),
            r matches Some(s) ==> s.buffer.usable(),
    {
        if self.frame.is_some() || !self.present || !self.cap_ready {
            return None;
        }
        match (self.cap_size, self.cap_format) {
            (Some(size), Some(format)) => {
                let (buf, shot) = shoot(self.buf, size, format);
                self.buf = buf;
                shot
            },
            _ => None,
        }
    }

    /// The buffer that was asked for has been made.
    pub fn buffer_made(&mut self, spec: BufferSpec)
        requires
            old(self).wf(),
            spec.usable(),
        ensures
            final(self).wf(),
            *final(self) == (CursorCap { buf: Some(spec), ..*old(self) }),
    {
        self.buf = Some(spec);
    }

    /// A frame was asked for.
    pub fn started(&mut self, frame: u32)
        ensures
            *final(self) == (CursorCap { frame: Some(frame), retry_at: None, ..*old(self) }),
    {
        self.frame = Some(frame);
        self.retry_at = None;
    }

    /// Whether a frame that failed is to be asked for again.
    pub fn retries(&self, now: u64) -> (b: bool)
        ensures
            b == (self.frame is None && (self.retry_at matches Some(t) && t <= now)),
    {
        self.frame.is_none() && match self.retry_at {
            Some(t) => t <= now,
            None => false,
        }
    }

    /// Handles a cursor *pointer* event: where the cursor is. A position is oriented as
    /// on screen already, so a rotated output needs no rotating here, only the shift to
    /// the output's place.
    pub fn pointer_event(&mut self, server: &mut Server, wl_name: u32, event: PointerEvent) -> (r: Option<Shot>)
        requires
            old(self).wf(),
            old(server).wf(),
        ensures
            final(self).wf(),
            final(server).wf(),
            final(server).framebuffer == old(server).framebuffer,
            r matches Some(s) ==> s.buffer.usable(),
            match event {
                PointerEvent::Enter => (*final(self), r) == (CursorCap { present: true, ..*old(self) }).starting(),
                PointerEvent::Leave => r is None && *final(self) == (CursorCap {
                    present: false,
                    pos: None,
                    ..*old(self)
                }),
                PointerEvent::Position { x, y } => r is None && *final(self) == (CursorCap {
                    pos: Some((x, y)),
                    ..*old(self)
                }),
                PointerEvent::Hotspot { x, y } => r is None && *final(self) == (CursorCap {
                    hotspot: (x, y),
                    ..*old(self)
                }),
            },
            final(server)@ == (match event {
                PointerEvent::Position { x, y } => {
                    let (px, py) = pacing::place_of(old(server)@.screen, wl_name);
                    ServerView {
                        cursor: CursorView { x: shifted(px, x), y: shifted(py, y), ..old(server)@.cursor },
                        ..old(server)@
                    }
                },
                _ => old(server)@,
            }),
    {
        match event {
            PointerEvent::Enter => {
                self.present = true;
                self.start()
            },
            PointerEvent::Leave => {
                self.present = false;
                self.pos = None;
                None
            },
            PointerEvent::Position { x, y } => {
                let (px, py) = server.output_place(wl_name);
                server.cursor.update_position(shift(px, x), shift(py, y));
                self.pos = Some((x, y));
                None
            },
            PointerEvent::Hotspot { x, y } => {
                self.hotspot = (x, y);
                None
            },
        }
    }

    /// Handles a cursor *image* session event, short of its end.
    pub fn session_event(&mut self, event: SessionEvent) -> (r: Option<Shot>)
        requires
            old(self).wf(),
        ensures
            final(self).wf(),
            (*final(self), r) == old(self).session_told(event),
            r matches Some(s) ==> s.buffer.usable(),
    {
        match event {
            SessionEvent::BufferSize { width, height } => {
                self.cap_size = Some((width, height));
                None
            },
            SessionEvent::ShmFormat(fmt) => {
                let better = match self.cap_format {
                    Some(cur) => rank(fmt) > rank(cur),
                    None => true,
                };
                if better {
                    self.cap_format = Some(fmt);
                }
                None
            },
            SessionEvent::Done => {
                if self.cap_format.is_none() {
                    return None;
                }
                self.cap_ready = true;
                self.start()
            },
            SessionEvent::Stopped => None,
        }
    }

    /// Handles a cursor *image* frame event.
    pub fn frame_event(&mut self, frame: u32, event: FrameEvent, now: u64) -> (s: CursorStep)
        requires
            old(self).wf(),
        ensures
            final(self).wf(),
            (*final(self), s) == old(self).frame_told(frame, event, now),
    {
        let current = match self.frame {
            Some(f) => f == frame,
            None => false,
        };
        if !current {
            return match event {
                FrameEvent::Ready | FrameEvent::Failed { .. } => CursorStep::Destroy,
                _ => CursorStep::Nothing,
            };
        }
        match event {
            FrameEvent::Damage { .. } => CursorStep::Nothing,
            FrameEvent::Transform(t) => {
                self.frame_transform = t;
                CursorStep::Nothing
            },
            FrameEvent::Ready => CursorStep::Show,
            FrameEvent::Failed { constraints } => {
                self.frame = None;
                if constraints {
                    self.buf = None;
                }
                self.retry_at = Some(pacing::after(now, SLOW_INTERVAL));
                CursorStep::Destroy
            },
        }
    }

    /// Publishes a completed cursor image, and asks for the next one. The clients that
    /// watch the cursor hear of it.
    pub fn frame_ready(&mut self, server: &mut Server, raw: &[u32]) -> (r: Option<Shot>)
        requires
            old(self).wf(),
            old(server).wf(),
            old(self).buf matches Some(b) ==> raw@.len() == b.width * b.height,
        ensures
            final(self).wf(),
            final(server).wf(),
            final(server).framebuffer == old(server).framebuffer,
            r matches Some(s) ==> s.buffer.usable(),
            match old(self).buf {
                None => r is None && *final(self) == *old(self) && final(server)@ == old(server)@,
                Some(b) => {
                    let t = old(self).frame_transform;
                    let c = final(server)@.cursor;
                    let (tw, th) = t.size_of(b.width as int, b.height as int);
                    &&& (*final(self), r) == (CursorCap { frame: None, ..*old(self) }).starting()
                    &&& upright(c.image, raw@, t, b.width as int, b.height as int, old(self).cap_format)
                    &&& c == (CursorView {
                        serial: cursor::next_serial(old(server)@.cursor.serial),
                        width: geometry::wrap_u16(tw) as u16,
                        height: geometry::wrap_u16(th) as u16,
                        xhot: clamped(old(self).hotspot.0),
                        yhot: clamped(old(self).hotspot.1),
                        image: c.image,
                        ..old(server)@.cursor
                    })
                    &&& final(server)@ == (ServerView {
                        cursor: c,
                        events: sink::each_live(
                            old(server)@.events,
                            sink::hears_cursor(c.serial, old(server)@.clock.now()),
                        ),
                        ..old(server)@
                    })
                },
            },
    {
        let b = match self.buf {
            Some(b) => b,
            None => {
                return None;
            },
        };
        let t = self.frame_transform;
        let image = turn(raw, t, b.width, b.height, self.cap_format);
        let (tw, th) = t.size(b.width, b.height);
        let (hx, hy) = self.hotspot;
        let serial: u32 = server.cursor.update_image(
            (tw % 0x1_0000) as u16,
            (th % 0x1_0000) as u16,
            clamp(hx),
            clamp(hy),
            image,
        );
        server.events.cursor_changed(serial, &server.clock);
        self.frame = None;
        self.start()
    }
}

/// A frame that failed is asked for again: readiness and size are kept, so that the
/// cursor does not get stuck waiting for a `done` that has already been delivered.
pub proof fn law_failed_frames_are_retried(c: CursorCap, frame: u32, constraints: bool, now: u64)
    requires
        c.frame == Some(frame),
        c.present && c.cap_ready,
        c.cap_size is Some && c.cap_format is Some,
        wanted(c.cap_size->0, c.cap_format->0) is Some,
    ensures
        ({
            let after = c.frame_told(frame, FrameEvent::Failed { constraints }, now).0;
            &&& after.frame is None
            &&& after.retry_at is Some
            &&& after.starting().1 is Some
        }),
{
}

/// Events of a frame that is not ours change nothing.
pub proof fn law_stale_cursor_frames_change_nothing(c: CursorCap, frame: u32, event: FrameEvent, now: u64)
    requires
        c.frame != Some(frame),
    ensures
        c.frame_told(frame, event, now).0 == c,
{
}

/// At most one frame is out: none is asked for while one is.
pub proof fn law_one_cursor_frame_at_a_time(c: CursorCap)
    requires
        c.frame is Some,
    ensures
        c.starting() == (c, None::<Shot>),
{
}

/// A cursor is best had as ARGB; any format with alpha is better than one without, and
/// one whose bytes are in order better than one whose are not.
pub proof fn law_formats_with_alpha_are_better(f: Format, code: u32)
    ensures
        f != Format::Argb8888 ==> rank_of(f) < rank_of(Format::Argb8888),
        f == Format::Abgr8888 || f == Format::Rgba8888 || f == Format::Bgra8888 ==> rank_of(f) > rank_of(Format::Xrgb8888)
            && rank_of(f) > rank_of(Format::Xbgr8888) && rank_of(f) > rank_of(Format::Rgbx8888) && rank_of(f) > rank_of(
            Format::Bgrx8888,
        ),
        !(f is Other) ==> rank_of(f) > rank_of(Format::Other(code)),
{
}

/// A session takes the best format that it is offered, in whatever order they come.
pub proof fn law_best_format_is_kept(c: CursorCap, fmt: Format)
    ensures
        ({
            let d = c.session_told(SessionEvent::ShmFormat(fmt)).0;
            d.cap_format matches Some(g) && (g == fmt || c.cap_format == Some(g)) && rank_of(g) >= rank_of(fmt) && (
            c.cap_format matches Some(h) ==> rank_of(g) >= rank_of(h))
        }),
{
}

/// Every pixel of a cursor is where the turned buffer has it, with the colour it had.
pub proof fn law_upright_cursor_has_every_pixel(
    image: Seq<u32>,
    raw: Seq<u32>,
    t: Transform,
    w: int,
    h: int,
    fmt: Option<Format>,
    bx: int,
    by: int,
)
    requires
        upright(image, raw, t, w, h, fmt),
        0 <= bx < w,
        0 <= by < h,
    ensures
        ({
            let (x, y) = t.pixel(bx, by, w, h);
            let (tw, th) = t.size_of(w, h);
            &&& 0 <= x < tw && 0 <= y < th
            &&& image[y * tw + x] == shm::argb_of(raw[by * w + bx], fmt)
        }),
{
    let (x, y) = t.pixel(bx, by, w, h);
    let (tw, th) = t.size_of(w, h);
    transform::law_pixel_under_undoes_pixel(t, bx, by, x, y, w, h);
    assert(t.pixel_under(x, y, w, h) == (bx, by));
    assert(image[capture::pixel_index(y, x, tw)] == shm::argb_of(raw[capture::pixel_index(by, bx, w)], fmt));
}

/// A buffer for a cursor is of its size, four bytes to a pixel and no gaps.
pub proof fn law_cursor_buffers_fit_their_size(size: (u32, u32), format: Format)
    ensures
        wanted(size, format) matches Some(b) ==> b.width == size.0 && b.height == size.1 && b.stride == 4 * size.0 && b.format
            == format && b.bytes() == 4 * size.0 * size.1,
        size.0 > 0 && size.1 > 0 && size.0 <= 0x1fff_ffff && size.1 <= 0x1fff_ffff ==> wanted(size, format) is Some,
{
    let (w, h) = (size.0 as int, size.1 as int);
    assert((w * 4) * h == 4 * w * h) by (nonlinear_arith);
    assert(w > 0 && h > 0 ==> (w * 4) * h > 0) by (nonlinear_arith);
}

/// A position on an output is that much further on the screen than the output, as far as
/// 16 bits reach.
pub proof fn law_positions_shift_with_the_output(at: i32, by: i32)
    requires
        -0x8000 <= at + by <= 0x7fff,
    ensures
        shifted(at, by) == at + by,
{
}

/// A hot spot is kept within 16 bits.
pub proof fn law_hot_spots_are_kept(v: i32)
    ensures
        0 <= v <= 0xffff ==> clamped(v) == v,
        v < 0 ==> clamped(v) == 0,
        v > 0xffff ==> clamped(v) == 0xffff,
{
}

} // verus!
