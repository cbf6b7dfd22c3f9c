//! The `zwlr-screencopy-v1` capture backend.
//!
//! Each output is captured with a plain `copy` into a shared buffer. Plain `copy`
//! reports no damage, so the result is held against the framebuffer to work out what
//! changed and to pace the next request.

use crate::bridge::capture;
use crate::bridge::server::{Server, ServerView};
use crate::bridge::wayland::capture as pacing;
use crate::bridge::wayland::capture::SLOW_INTERVAL;
use crate::bridge::wayland::shm;
use crate::bridge::wayland::shm::BufferSpec;
use crate::util::geometry::Rectangle;
use crate::util::list;
use crate::util::transform::Transform;
use vstd::prelude::*;

verus! {

/// One output's capture state.
#[derive(Clone, Copy, PartialEq, Eq, Structural, Debug)]
pub struct Ctx {
    pub wl_name: u32,
    pub transform: Transform,
    /// The capture that is out, awaiting its `ready` or `failed`.
    pub frame: Option<u32>,
    pub buffer: Option<BufferSpec>,
    /// Earliest the next capture may be requested.
    pub next_at: u64,
    /// When the capture that is out was requested, for latency profiling.
    pub req_at: Option<u64>,
    /// From the `buffer` event, applied on `buffer_done`.
    pub pending: Option<BufferSpec>,
    pub y_invert: bool,
    /// Adaptive interval: fast on change, backing off on unchanged frames.
    pub interval: u64,
    /// When the framebuffer was last read at the previous frame, for no-damage pacing.
    pub last_read_seen: Option<u64>,
}

/// What the compositor says of a frame.
#[derive(Clone, Copy, PartialEq, Eq, Structural, Debug)]
pub enum FrameEvent {
    Buffer(BufferSpec),
    BufferDone,
    Flags { y_invert: bool },
    Ready,
    Failed,
}

/// What is to be done about it.
#[derive(Clone, Copy, PartialEq, Eq, Structural, Debug)]
pub enum Step {
    Nothing,
    /// The frame is over.
    Destroy,
    /// Ask for the copy, into a buffer that is to be made first if it is `fresh`.
    Copy { buffer: BufferSpec, fresh: bool },
    /// The frame is there: show it, and then it is over.
    Show,
}

pub open spec fn ctx_is(wl_name: u32) -> spec_fn(Ctx) -> bool {
    |c: Ctx| c.wl_name == wl_name
}

impl Ctx {
    pub open spec fn wf(self) -> bool {
        pacing::buffer_ok(self.buffer)
    }

    /// A context that is due at once.
    pub open spec fn fresh(wl_name: u32, transform: Transform, now: u64, fast: u64) -> Ctx {
        Ctx {
            wl_name,
            transform,
            frame: None,
            buffer: None,
            next_at: now,
            req_at: None,
            pending: None,
            y_invert: false,
            interval: fast,
            last_read_seen: None,
        }
    }

    pub fn new(wl_name: u32, transform: Transform, now: u64, fast: u64) -> (c: Ctx)
        ensures
            c == Ctx::fresh(wl_name, transform, now, fast),
            c.wf(),
    {
        Ctx {
            wl_name,
            transform,
            frame: None,
            buffer: None,
            next_at: now,
            req_at: None,
            pending: None,
            y_invert: false,
            interval: fast,
            last_read_seen: None,
        }
    }

    /// The copy is asked for: into the buffer there is, if it is the one that is wanted.
    pub open spec fn copying(self) -> (Ctx, Step) {
        let c = Ctx { pending: None, ..self };
        match self.pending {
            None => (c, Step::Nothing),
            Some(want) => if self.buffer == Some(want) {
                (c, Step::Copy { buffer: want, fresh: false })
            } else if want.usable() {
                (Ctx { buffer: None, ..c }, Step::Copy { buffer: want, fresh: true })
            } else {
                (Ctx { buffer: None, ..c }, Step::Nothing)
            },
        }
    }

    /// The compositor has said something of a frame. Only the frame this output is
    /// waiting on drives its state; anything else is a leftover from a replaced context,
    /// which only has to be destroyed.
    pub open spec fn told(self, frame: u32, event: FrameEvent, copy_at_once: bool, now: u64) -> (Ctx, Step) {
        if self.frame != Some(frame) {
            (
                self,
                if event is Ready || event is Failed {
                    Step::Destroy
                } else {
                    Step::Nothing
                },
            )
        } else {
            match event {
                FrameEvent::Buffer(spec) => {
                    let c = Ctx { pending: Some(spec), ..self };
                    if copy_at_once {
                        c.copying()
                    } else {
                        (c, Step::Nothing)
                    }
                },
                FrameEvent::BufferDone => self.copying(),
                FrameEvent::Flags { y_invert } => (Ctx { y_invert, ..self }, Step::Nothing),
                FrameEvent::Ready => (self, Step::Show),
                FrameEvent::Failed => (
                    // back off, then retry
                    Ctx { frame: None, req_at: None, next_at: pacing::later(now, SLOW_INTERVAL), ..self },
                    Step::Destroy,
                ),
            }
        }
    }

    /// Asks the compositor to copy.
    fn copy_frame(&mut self) -> (s: Step)
        requires
            old(self).wf(),
        ensures
            final(self).wf(),
            (*final(self), s) == old(self).copying(),
    {
        match self.pending {
            None => Step::Nothing,
            Some(want) => {
                self.pending = None;
                let same = match self.buffer {
                    Some(b) => b == want,
                    None => false,
                };
                if same {
                    return Step::Copy { buffer: want, fresh: false };
                }
                self.buffer = None;
                if want.is_usable() {
                    Step::Copy { buffer: want, fresh: true }
                } else {
                    Step::Nothing
                }
            },
        }
    }

    /// Handles one frame event. Before version 3 there is no `buffer_done`, and the copy
    /// is asked for at once.
    pub fn frame_event(&mut self, frame: u32, event: FrameEvent, copy_at_once: bool, now: u64) -> (s: Step)
        requires
            old(self).wf(),
        ensures
            final(self).wf(),
            (*final(self), s) == old(self).told(frame, event, copy_at_once, now),
    {
        let current = match self.frame {
            Some(f) => f == frame,
            None => false,
        };
        if !current {
            return match event {
                FrameEvent::Ready | FrameEvent::Failed => Step::Destroy,
                _ => Step::Nothing,
            };
        }
        match event {
            FrameEvent::Buffer(spec) => {
                self.pending = Some(spec);
                if copy_at_once {
                    self.copy_frame()
                } else {
                    Step::Nothing
                }
            },
            FrameEvent::BufferDone => self.copy_frame(),
            FrameEvent::Flags { y_invert } => {
                self.y_invert = y_invert;
                Step::Nothing
            },
            FrameEvent::Ready => Step::Show,
            FrameEvent::Failed => {
                self.frame = None;
                self.req_at = None;
                self.next_at = pacing::after(now, SLOW_INTERVAL);
                Step::Destroy
            },
        }
    }

    /// The buffer that was asked for has been made.
    pub fn buffer_made(&mut self, spec: BufferSpec)
        requires
            old(self).wf(),
            spec.usable(),
        ensures
            final(self).wf(),
            *final(self) == (Ctx { buffer: Some(spec), ..*old(self) }),
    {
        self.buffer = Some(spec);
    }

    /// A capture was requested.
    pub fn started(&mut self, frame: u32, now: u64)
        ensures
            *final(self) == (Ctx { frame: Some(frame), req_at: Some(now), ..*old(self) }),
    {
        self.frame = Some(frame);
        self.req_at = Some(now);
    }

    /// The blit of a frame.
    pub open spec fn blit(self, server: ServerView, b: BufferSpec, pixels: Seq<u8>, chan: capture::ChannelMap) -> capture::Blit {
        let (x, y) = pacing::place_of(server.screen, self.wl_name);
        capture::blit_of(
            x,
            y,
            b.width,
            b.height,
            b.stride,
            pixels,
            self.y_invert,
            self.transform,
            server.tracks_damage(),
            chan,
        )
    }

    /// After a frame. With damage kept track of, the signal to stay fast is a pixel change;
    /// without it what changed is not known, so the signal is whether the client read the
    /// last frame.
    pub open spec fn shown(self, by_damage: bool, changed: bool, read_at: Option<u64>, fast: u64, now: u64) -> Ctx {
        let keep_fast = if by_damage {
            changed
        } else {
            read_at != self.last_read_seen
        };
        let interval = pacing::paced(self.interval, keep_fast, fast);
        Ctx {
            frame: None,
            req_at: None,
            last_read_seen: if by_damage {
                self.last_read_seen
            } else {
                read_at
            },
            interval,
            next_at: pacing::later(now, interval),
            ..self
        }
    }

    /// Shows a completed capture, looking for what changed, reports it as DAMAGE, and
    /// schedules this output's next capture. Pixels are only compared when a client
    /// holds a DAMAGE object; otherwise the framebuffer is just refreshed for polled
    /// reads.
    pub fn frame_ready(&mut self, server: &mut Server, pixels: &[u8], fast: u64, now: u64) -> (bbox: Option<Rectangle>)
        requires
            old(self).wf(),
            old(server).wf(),
        ensures
            final(self).wf(),
            final(server).wf(),
            *final(self) == old(self).shown(
                old(server)@.tracks_damage(),
                bbox is Some,
                old(server).framebuffer.last_read(),
                fast,
                now,
            ),
            final(server)@ == old(server)@.with_damage(match bbox {
                Some(r) => seq![r],
                None => Seq::empty(),
            }),
            match old(self).buffer {
                Some(b) => exists|chan: capture::ChannelMap| {
                    let blit = #[trigger] old(self).blit(old(server)@, b, pixels@, chan);
                    &&& shm::offsets(chan) == shm::blit_offsets(b.format)
                    &&& blit.applied(old(server).framebuffer, final(server).framebuffer)
                    &&& blit.reports(old(server).framebuffer, bbox)
                },
                None => bbox is None && final(server).framebuffer == old(server).framebuffer,
            },
    {
        let by_damage = server.damage.active(&server.events);
        let mut bbox: Option<Rectangle> = None;
        if let Some(b) = self.buffer {
            let (x, y) = server.output_place(self.wl_name);
            let (chan, _) = shm::blit_channels(b.format);
            bbox =
            server.framebuffer.blit_diff(
                x,
                y,
                b.width,
                b.height,
                b.stride,
                pixels,
                self.y_invert,
                self.transform,
                by_damage,
                chan,
            );
            assert(old(self).blit(old(server)@, b, pixels@, chan).reports(old(server).framebuffer, bbox));
        }
        let read_at: Option<u64> = server.framebuffer.read_at();
        let keep_fast = if by_damage {
            bbox.is_some()
        } else {
            let consumed = match (read_at, self.last_read_seen) {
                (Some(a), Some(b)) => a != b,
                (None, None) => false,
                _ => true,
            };
            self.last_read_seen = read_at;
            consumed
        };
        self.frame = None;
        self.req_at = None;
        self.interval = pacing::pace(self.interval, keep_fast, fast);
        self.next_at = pacing::after(now, self.interval);
        assert(server@ =~= old(server)@);
        if let Some(r) = bbox {
            let mut rects: Vec<Rectangle> = Vec::new();
            rects.push(r);
            assert(rects@ =~= seq![r]);
            server.add_damage(&rects);
        }
        bbox
    }
}

/// The backend: one context for each output.
pub struct ScreencopyCapture {
    pub ctxs: Vec<Ctx>,
}

/// The contexts with those for outputs that had none.
pub open spec fn with_outputs(ctxs: Seq<Ctx>, outputs: Seq<(u32, Transform)>, now: u64, fast: u64) -> Seq<Ctx>
    decreases outputs.len(),
{
    if outputs.len() == 0 {
        ctxs
    } else {
        let before = with_outputs(ctxs, outputs.drop_last(), now, fast);
        let (name, transform) = outputs.last();
        if list::first_index(before, ctx_is(name)) is Some {
            before
        } else {
            before.push(Ctx::fresh(name, transform, now, fast))
        }
    }
}

/// The outputs whose capture is due.
pub open spec fn due(ctxs: Seq<Ctx>, now: u64) -> Seq<u32>
    decreases ctxs.len(),
{
    if ctxs.len() == 0 {
        Seq::empty()
    } else {
        let c = ctxs.last();
        if c.frame is None && c.next_at <= now {
            due(ctxs.drop_last(), now).push(c.wl_name)
        } else {
            due(ctxs.drop_last(), now)
        }
    }
}

/// How long to wait before looking again.
pub open spec fn wait(ctxs: Seq<Ctx>, now: u64) -> u64
    decreases ctxs.len(),
{
    if ctxs.len() == 0 {
        SLOW_INTERVAL
    } else if ctxs.last().frame is None {
        pacing::sooner(wait(ctxs.drop_last(), now), now, ctxs.last().next_at)
    } else {
        wait(ctxs.drop_last(), now)
    }
}

impl ScreencopyCapture {
    pub open spec fn wf(self) -> bool {
        forall|i: int| 0 <= i < self.ctxs@.len() ==> (#[trigger] self.ctxs@[i]).wf()
    }

    pub fn new() -> (c: Self)
        ensures
            c.wf(),
            c.ctxs@ == Seq::<Ctx>::empty(),
    {
        ScreencopyCapture { ctxs: Vec::new() }
    }

    /// The index of an output's context.
    pub fn find(&self, wl_name: u32) -> (r: Option<usize>)
        ensures
            match r {
                Some(i) => i < self.ctxs@.len() && list::first_index(self.ctxs@, ctx_is(wl_name)) == Some(i as int),
                None => list::first_index(self.ctxs@, ctx_is(wl_name)) is None,
            },
    {
        let mut i: usize = 0;
        while i < self.ctxs.len()
            invariant
                i <= self.ctxs.len(),
                forall|j: int| 0 <= j < i ==> !ctx_is(wl_name)(#[trigger] self.ctxs@[j]),
            decreases self.ctxs.len() - i,
        {
            if self.ctxs[i].wl_name == wl_name {
                proof {
                    list::lemma_first_index_is(self.ctxs@, ctx_is(wl_name), i as int);
                }
                return Some(i);
            }
            i += 1;
        }
        proof {
            list::lemma_first_index_none(self.ctxs@, ctx_is(wl_name));
        }
        None
    }

    /// Ensures that a context exists for every bound output.
    pub fn sync_outputs(&mut self, outputs: &Vec<(u32, Transform)>, now: u64, fast: u64)
        requires
            old(self).wf(),
        ensures
            final(self).wf(),
            final(self).ctxs@ == with_outputs(old(self).ctxs@, outputs@, now, fast),
    {
        let mut i: usize = 0;
        assert(outputs@.take(0) =~= Seq::empty());
        while i < outputs.len()
            invariant
                i <= outputs.len(),
                self.wf(),
                self.ctxs@ == with_outputs(old(self).ctxs@, outputs@.take(i as int), now, fast),
            decreases outputs.len() - i,
        {
            let (name, transform) = outputs[i];
            assert(outputs@.take(i as int + 1).drop_last() =~= outputs@.take(i as int));
            if self.find(name).is_none() {
                self.ctxs.push(Ctx::new(name, transform, now, fast));
            }
            i += 1;
        }
        assert(outputs@.take(i as int) =~= outputs@);
    }

    /// Updates an output's transform.
    pub fn set_transform(&mut self, wl_name: u32, transform: Transform)
        requires
            old(self).wf(),
        ensures
            final(self).wf(),
            final(self).ctxs@ == (match list::first_index(old(self).ctxs@, ctx_is(wl_name)) {
                Some(i) => old(self).ctxs@.update(i, Ctx { transform, ..old(self).ctxs@[i] }),
                None => old(self).ctxs@,
            }),
    {
        if let Some(i) = self.find(wl_name) {
            let mut c = self.ctxs[i];
            c.transform = transform;
            self.ctxs.set(i, c);
        }
    }

    /// Drops an output's context, which is returned so that its frame can be destroyed.
    pub fn remove_output(&mut self, wl_name: u32) -> (r: Option<Ctx>)
        requires
            old(self).wf(),
        ensures
            final(self).wf(),
            match list::first_index(old(self).ctxs@, ctx_is(wl_name)) {
                Some(i) => r == Some(old(self).ctxs@[i]) && final(self).ctxs@ == old(self).ctxs@.remove(i),
                None => r is None && final(self).ctxs@ == old(self).ctxs@,
            },
    {
        match self.find(wl_name) {
            Some(i) => Some(self.ctxs.remove(i)),
            None => None,
        }
    }

    /// The outputs whose capture is to be requested now, and how long to wait before
    /// looking again.
    pub fn tick(&self, now: u64) -> (r: (Vec<u32>, u64))
        ensures
            r.0@ == due(self.ctxs@, now),
            r.1 == wait(self.ctxs@, now),
    {
        let mut names: Vec<u32> = Vec::new();
        let mut ns: u64 = SLOW_INTERVAL;
        let mut i: usize = 0;
        assert(self.ctxs@.take(0) =~= Seq::empty());
        while i < self.ctxs.len()
            invariant
                i <= self.ctxs.len(),
                names@ == due(self.ctxs@.take(i as int), now),
                ns == wait(self.ctxs@.take(i as int), now),
            decreases self.ctxs.len() - i,
        {
            let c = self.ctxs[i];
            assert(self.ctxs@.take(i as int + 1).drop_last() =~= self.ctxs@.take(i as int));
            if c.frame.is_none() {
                if c.next_at <= now {
                    names.push(c.wl_name);
                } else if c.next_at - now < ns {
                    ns = c.next_at - now;
                }
            }
            i += 1;
        }
        assert(self.ctxs@.take(i as int) =~= self.ctxs@);
        (names, ns)
    }
}

/// Events of a frame that this output is not waiting on change nothing.
pub proof fn law_stale_frames_change_nothing(c: Ctx, frame: u32, event: FrameEvent, copy_at_once: bool, now: u64)
    requires
        c.frame != Some(frame),
    ensures
        c.told(frame, event, copy_at_once, now).0 == c,
{
}

/// An output has at most one capture out: one that is out is not due.
pub proof fn law_one_capture_at_a_time(ctxs: Seq<Ctx>, now: u64, i: int)
    requires
        0 <= i < ctxs.len(),
        due(ctxs, now).contains(ctxs[i].wl_name),
        forall|a: int, b: int|
            0 <= a < b < ctxs.len() ==> (#[trigger] ctxs[a]).wl_name != (#[trigger] ctxs[b]).wl_name,
    ensures
        ctxs[i].frame is None,
{
    lemma_due(ctxs, now, ctxs[i].wl_name);
    let k = choose|k: int| #[trigger] is_due(ctxs, now, ctxs[i].wl_name, k);
    if k < i {
        assert(ctxs[k].wl_name != ctxs[i].wl_name);
    }
    if i < k {
        assert(ctxs[i].wl_name != ctxs[k].wl_name);
    }
}

spec fn is_due(ctxs: Seq<Ctx>, now: u64, name: u32, k: int) -> bool {
    0 <= k < ctxs.len() && ctxs[k].wl_name == name && ctxs[k].frame is None && ctxs[k].next_at <= now
}

proof fn lemma_due(ctxs: Seq<Ctx>, now: u64, name: u32)
    requires
        due(ctxs, now).contains(name),
    ensures
        exists|k: int| #[trigger] is_due(ctxs, now, name, k),
    decreases ctxs.len(),
{
    if ctxs.len() > 0 {
        let rest = ctxs.drop_last();
        let all = due(ctxs, now);
        let j = choose|j: int| 0 <= j < all.len() && all[j] == name;
        if due(rest, now).len() > j {
            assert(due(rest, now)[j] == name);
            lemma_due(rest, now, name);
            let k = choose|k: int| #[trigger] is_due(rest, now, name, k);
            assert(is_due(ctxs, now, name, k));
        } else {
            assert(is_due(ctxs, now, name, ctxs.len() - 1));
        }
    }
}

/// Each output has one context, however often the outputs are gone through.
pub proof fn law_syncing_again_adds_nothing(ctxs: Seq<Ctx>, outputs: Seq<(u32, Transform)>, now: u64, fast: u64)
    requires
        forall|i: int|
            0 <= i < outputs.len() ==> list::first_index(ctxs, ctx_is((#[trigger] outputs[i]).0)) is Some,
    ensures
        with_outputs(ctxs, outputs, now, fast) == ctxs,
    decreases outputs.len(),
{
    if outputs.len() > 0 {
        assert(outputs[outputs.len() - 1] == outputs.last());
        assert forall|i: int| 0 <= i < outputs.drop_last().len() implies list::first_index(
            ctxs,
            ctx_is((#[trigger] outputs.drop_last()[i]).0),
        ) is Some by {
            assert(outputs.drop_last()[i] == outputs[i]);
        }
        law_syncing_again_adds_nothing(ctxs, outputs.drop_last(), now, fast);
    }
}

/// A captured frame goes where the screen has its output, turned the way that the output
/// is, its rows from below where the compositor said so.
pub proof fn law_frame_goes_to_its_output(
    c: Ctx,
    server: ServerView,
    b: BufferSpec,
    pixels: Seq<u8>,
    chan: capture::ChannelMap,
    i: int,
)
    requires
        0 <= i < server.screen.outputs.len(),
        server.screen.outputs[i].wl_name == c.wl_name,
        forall|k: int| 0 <= k < i ==> (#[trigger] server.screen.outputs[k]).wl_name != c.wl_name,
    ensures
        ({
            let blit = c.blit(server, b, pixels, chan);
            &&& blit.ox == server.screen.outputs[i].x && blit.oy == server.screen.outputs[i].y
            &&& blit.width == b.width && blit.height == b.height && blit.stride == b.stride
            &&& blit.src == pixels && blit.chan == chan
            &&& blit.y_invert == c.y_invert && blit.transform == c.transform
            &&& blit.damage == server.tracks_damage()
        }),
{
    pacing::law_outputs_are_captured_to_their_place(server.screen, i);
}

/// An output is due exactly where no frame of it is out and its time has come.
pub proof fn law_due_outputs_are_those_whose_time_has_come(ctxs: Seq<Ctx>, now: u64, name: u32)
    ensures
        due(ctxs, now).contains(name) <==> exists|k: int|
            0 <= k < ctxs.len() && (#[trigger] ctxs[k]).wl_name == name && ctxs[k].frame is None && ctxs[k].next_at <= now,
    decreases ctxs.len(),
{
    if ctxs.len() > 0 {
        let rest = ctxs.drop_last();
        let n = ctxs.len() - 1;
        let (all, before) = (due(ctxs, now), due(rest, now));
        law_due_outputs_are_those_whose_time_has_come(rest, now, name);
        if before.contains(name) {
            let j = before.index_of(name);
            assert(all[j] == name);
            let k = choose|k: int|
                0 <= k < rest.len() && (#[trigger] rest[k]).wl_name == name && rest[k].frame is None && rest[k].next_at
                    <= now;
            assert(ctxs[k].wl_name == name);
        }
        if ctxs[n].wl_name == name && ctxs[n].frame is None && ctxs[n].next_at <= now {
            assert(all[before.len() as int] == name);
        }
        if all.contains(name) && !before.contains(name) {
            let j = all.index_of(name);
            assert(j == before.len());
            assert(ctxs[n].wl_name == name);
        }
        if exists|k: int|
            0 <= k < ctxs.len() && (#[trigger] ctxs[k]).wl_name == name && ctxs[k].frame is None && ctxs[k].next_at <= now {
            let k = choose|k: int|
                0 <= k < ctxs.len() && (#[trigger] ctxs[k]).wl_name == name && ctxs[k].frame is None && ctxs[k].next_at
                    <= now;
            if k < n {
                assert(rest[k].wl_name == name);
            }
        }
    }
}

/// The wait ends before the next output is due, and it is never longer than the slowest
/// pace.
pub proof fn law_waits_end_by_the_next_capture(ctxs: Seq<Ctx>, now: u64, i: int)
    requires
        0 <= i < ctxs.len(),
    ensures
        ctxs[i].frame is None && ctxs[i].next_at > now ==> wait(ctxs, now) <= ctxs[i].next_at - now,
        wait(ctxs, now) <= 250_000_000,
    decreases ctxs.len(),
{
    let rest = ctxs.drop_last();
    if rest.len() > 0 {
        law_waits_end_by_the_next_capture(rest, now, if i < rest.len() { i } else { 0 });
    } else {
        assert(wait(rest, now) == SLOW_INTERVAL);
    }
}

/// A frame that showed a change keeps the pace fast, one that did not slows it down; a
/// client's read counts for a change where changes are not kept track of.
pub proof fn law_pace_goes_by_what_was_seen(
    c: Ctx,
    by_damage: bool,
    changed: bool,
    read_at: Option<u64>,
    fast: u64,
    now: u64,
)
    ensures
        ({
            let d = c.shown(by_damage, changed, read_at, fast, now);
            &&& d.frame is None && d.req_at is None
            &&& by_damage && changed ==> d.interval == fast
            &&& by_damage && !changed ==> d.interval == pacing::paced(c.interval, false, fast)
            &&& !by_damage && read_at != c.last_read_seen ==> d.interval == fast
            &&& !by_damage && read_at == c.last_read_seen ==> d.interval == pacing::paced(c.interval, false, fast)
            &&& now + d.interval <= u64::MAX ==> d.next_at == now + d.interval
            &&& !by_damage ==> d.last_read_seen == read_at
        }),
{
}

/// What is copied into is a buffer as the compositor described it: the one there is where
/// it is such a one, else a new one.
pub proof fn law_copies_go_into_the_described_buffer(c: Ctx, spec: BufferSpec)
    requires
        c.pending == Some(spec),
    ensures
        c.copying().1 matches Step::Copy { buffer, fresh } ==> buffer == spec && (fresh <==> c.buffer != Some(spec)),
        spec.usable() ==> c.copying().1 is Copy,
        c.copying().0.pending is None,
{
}

} // verus!
