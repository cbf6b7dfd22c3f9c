//! The state that every connection shares.

use crate::bridge::capture::Framebuffer;
use crate::bridge::clipboard::{Clipboard, ClipboardView, DataOffer, Effects, EffectsView, Outgoing, OutgoingView, Sel};
use crate::bridge::clipboard;
use crate::bridge::clipjobs;
use crate::bridge::clipjobs::{Job, JobView};
use crate::bridge::cursor::{CursorState, CursorView};
use crate::bridge::damage::{DamageSink, DamageView};
use crate::bridge::dynres::{DynRes, DynResView};
use crate::bridge::event::body;
use crate::bridge::event::client;
use crate::bridge::event::client::ClientView;
use crate::bridge::event::sink;
use crate::bridge::event::sink::EventSink;
use crate::bridge::event::time::Clock;
use crate::bridge::input::{Input, InputView};
use crate::bridge::keymap::KeyTable;
use crate::bridge::profile::{Profile, Stats};
use crate::bridge::x11::atom;
use crate::bridge::x11::atom::{Atoms, XA_PRIMARY};
use crate::bridge::x11::randr;
use crate::bridge::x11::randr::{OutputView, Screen, ScreenView};
use crate::bridge::x11::targets;
use crate::bridge::x11::wire;
use crate::config::{Config, ConfigView};
use crate::util::geometry::Geometry;
use crate::util::layout::{Layout, OutputRect};
use crate::util::list;
use vstd::prelude::*;

verus! {

/// Shared, connection-independent server state.
pub struct Server {
    pub config: Config,
    /// Interned atoms, shared by every connection as X shares them.
    pub atoms: Atoms,
    pub screen: Screen,
    pub input: Input,
    pub events: EventSink,
    pub clipboard: Clipboard,
    pub framebuffer: Framebuffer,
    pub damage: DamageSink,
    pub cursor: CursorState,
    /// Resolution changes an X client asked for, for the Wayland side to carry to the
    /// compositor (`-dynres`).
    pub dynres: DynRes,
    /// X keysym and modifier tables built from the compositor keymap (`None` until
    /// received).
    pub keymap: Option<KeyTable>,
    pub clock: Clock,
    pub profile: Profile,
}

/// All of the server but its pixels.
#[verifier::ext_equal]
pub struct ServerView {
    pub config: ConfigView,
    pub atoms: Seq<Seq<u8>>,
    pub screen: ScreenView,
    pub input: InputView,
    pub events: Seq<ClientView>,
    pub clipboard: ClipboardView,
    pub damage: Seq<DamageView>,
    pub cursor: CursorView,
    pub dynres: DynResView,
    /// The keysyms and the modifier table.
    pub keymap: Option<(Seq<u32>, Seq<u8>)>,
    pub clock: Clock,
    pub profile: Profile,
}

impl View for Server {
    type V = ServerView;

    open spec fn view(&self) -> ServerView {
        ServerView {
            config: self.config@,
            atoms: self.atoms@,
            screen: self.screen@,
            input: self.input@,
            events: self.events@,
            clipboard: self.clipboard@,
            damage: self.damage@,
            cursor: self.cursor@,
            dynres: self.dynres@,
            keymap: match self.keymap {
                Some(t) => Some((t.syms@, t.modmap@)),
                None => None,
            },
            clock: self.clock,
            profile: self.profile,
        }
    }
}

impl ServerView {
    /// A server without clients, with a screen of a size.
    pub open spec fn initial(config: ConfigView, geometry: Geometry) -> ServerView {
        ServerView {
            config,
            atoms: atom::predefined_bytes(),
            screen: ScreenView::initial(geometry.width, geometry.height),
            input: InputView {
                width: geometry.width,
                height: geometry.height,
                ready: false,
                keymap_set: false,
                outputs: None,
            },
            events: Seq::empty(),
            clipboard: ClipboardView::initial(),
            damage: Seq::empty(),
            cursor: CursorView::initial(),
            dynres: DynResView::initial(),
            keymap: None,
            clock: Clock { elapsed_ms: 0, floor: 0 },
            profile: Profile { enabled: false, stats: Stats::zero(), last_ready_ns: None },
        }
    }
}

/// The name of the clipboard's atom.
pub open spec fn clipboard_name() -> Seq<u8> {
    targets::bytes_of("CLIPBOARD"@)
}

/// The clients after what a transition asks for has been done.
pub open spec fn carried(events: Seq<ClientView>, outs: Seq<OutgoingView>) -> Seq<ClientView>
    decreases outs.len(),
{
    if outs.len() == 0 {
        events
    } else {
        let e = carried(events, outs.drop_last());
        match outs.last() {
            OutgoingView::Clear { client, time, owner, selection } => sink::sent_to(
                e,
                client,
                body::selection_clear_bytes(time, owner, selection),
            ),
            OutgoingView::Changed { selection, notify } => sink::each_live(e, sink::hears_selection(selection, notify)),
            OutgoingView::Drop(JobView::Receive { conversion, .. }) => sink::sent_to(
                e,
                conversion.client,
                body::selection_notify_bytes(
                    conversion.time,
                    conversion.requestor,
                    conversion.selection,
                    conversion.target,
                    0,
                ),
            ),
            _ => e,
        }
    }
}

/// The offers among what a transition asks for, which are to be destroyed.
pub open spec fn discarded(outs: Seq<OutgoingView>) -> Seq<DataOffer>
    decreases outs.len(),
{
    if outs.len() == 0 {
        Seq::empty()
    } else {
        match outs.last() {
            OutgoingView::Destroy(o) => discarded(outs.drop_last()).push(o),
            OutgoingView::Drop(JobView::Destroy(v)) => discarded(outs.drop_last()) + v,
            _ => discarded(outs.drop_last()),
        }
    }
}

/// Refusals of the jobs that are dropped.
pub open spec fn refused(events: Seq<ClientView>, jobs: Seq<JobView>) -> Seq<ClientView> {
    carried(events, EffectsView::drops(jobs))
}

/// The layout fits: the box of the outputs has sides that fit 31 bits.
pub open spec fn layout_fits(rects: Seq<OutputRect>) -> bool {
    rects.len() > 0 ==> Layout::box_of(rects).2 <= i32::MAX && Layout::box_of(rects).3 <= i32::MAX
}

impl ServerView {
    /// The atom naming a bridged selection, and the atoms with it.
    pub open spec fn selection_atom(self, sel: Sel) -> u32 {
        match sel {
            Sel::Primary => XA_PRIMARY,
            Sel::Clipboard => atom::atom_of(atom::interned(self.atoms, clipboard_name()), clipboard_name()) as u32,
        }
    }

    /// With the atom of a bridged selection interned.
    pub open spec fn with_selection_atom(self, sel: Sel) -> ServerView {
        match sel {
            Sel::Primary => self,
            Sel::Clipboard => ServerView { atoms: atom::interned(self.atoms, clipboard_name()), ..self },
        }
    }

    /// The effects of a transition of `sel` carried out, and the offers that are left
    /// to be destroyed.
    pub open spec fn carrying(self, fx: EffectsView, sel: Sel) -> (ServerView, Seq<DataOffer>) {
        let s = self.with_selection_atom(sel);
        let now = self.clock.elapsed_ms;
        let outs = fx.outgoing(self.clipboard.jobs, self.selection_atom(sel), now);
        (
            ServerView {
                clipboard: ClipboardView {
                    jobs: if fx.destroy.len() > 0 && self.clipboard.jobs.running {
                        self.clipboard.jobs.posted(JobView::Destroy(fx.destroy), now)
                    } else {
                        self.clipboard.jobs
                    },
                    ..self.clipboard
                },
                events: carried(self.events, outs),
                ..s
            },
            discarded(outs),
        )
    }

    /// The outputs that input maps through.
    pub open spec fn layout(self) -> Seq<OutputRect> {
        list::only(self.screen.outputs, randr::enabled()).map_values(|o: OutputView| randr::rect_of(o))
    }

    /// With the screen pushed out to what is derived from it.
    pub open spec fn with_screen_pushed(self, notify: bool) -> ServerView {
        let rects = self.layout();
        ServerView {
            input: InputView {
                width: self.screen.width,
                height: self.screen.height,
                outputs: if !layout_fits(rects) {
                    self.input.outputs
                } else if rects.len() > 0 {
                    Some(rects)
                } else {
                    None
                },
                ..self.input
            },
            events: if notify {
                sink::each_live(
                    self.events,
                    sink::hears_screen(
                        self.screen.width,
                        self.screen.height,
                        self.screen.timestamp,
                        self.screen.config_timestamp,
                    ),
                )
            } else {
                self.events
            },
            ..self
        }
    }
}

/// The framebuffer has the size of the screen, cleared if that is new. A screen too
/// large to hold in memory leaves it as it was.
pub open spec fn resized(before: Framebuffer, after: Framebuffer, width: u16, height: u16) -> bool {
    &&& after.sized()
    &&& after.last_read() == before.last_read()
    &&& !Framebuffer::size_ok(width as int, height as int) || (before.w() == width && before.h() == height) ==> after
        == before
    &&& Framebuffer::size_ok(width as int, height as int) ==> after.w() == width && after.h() == height
    &&& Framebuffer::size_ok(width as int, height as int) && !(before.w() == width && before.h() == height) ==> forall|
        x: int,
        y: int,
        c: int,
    |
        0 <= x < width && 0 <= y < height && 0 <= c < 4 ==> #[trigger] after.byte_at(x, y, c) == 0
}

/// Whether the box of the outputs has sides that fit 31 bits.
fn fits(rects: &Vec<OutputRect>) -> (b: bool)
    ensures
        b == layout_fits(rects@),
{
    if rects.len() == 0 {
        return true;
    }
    let (_, _, w, h) = Layout::bounds(rects);
    w <= i32::MAX as i64 && h <= i32::MAX as i64
}

impl Server {
    pub open spec fn wf(self) -> bool {
        &&& self.atoms.wf()
        &&& self.events.wf()
        &&& self.input.wf()
        &&& self.framebuffer.sized()
        &&& self.screen.wf()
    }

    /// A server without clients, of the size that was asked for.
    pub fn new(config: Config) -> (s: Self)
        ensures
            s.wf(),
            s@ == ServerView::initial(
                config@,
                if config.geometry is Some { config.geometry->0 } else { (Geometry { width: 1920, height: 1080 }) },
            ),
            s.framebuffer.last_read() is None,
            s.framebuffer.w() == 0 && s.framebuffer.h() == 0,
    {
        let geom = match config.geometry {
            Some(g) => g,
            None => Geometry::default(),
        };
        let framebuffer = Framebuffer::default();
        assert(0int * 0int * 4 == 0);
        Server {
            config,
            atoms: Atoms::default(),
            screen: Screen::new(geom.width, geom.height),
            input: Input::new(geom.width, geom.height),
            events: EventSink::default(),
            clipboard: Clipboard::default(),
            framebuffer,
            damage: DamageSink::default(),
            cursor: CursorState::default(),
            dynres: DynRes::default(),
            keymap: None,
            clock: Clock { elapsed_ms: 0, floor: 0 },
            profile: Profile::default(),
        }
    }

    /// Moves the clock on to so many milliseconds since the start.
    pub fn set_time(&mut self, elapsed_ms: u64)
        requires
            old(self).wf(),
        ensures
            final(self).wf(),
            final(self)@ == (ServerView { clock: Clock { elapsed_ms, ..old(self)@.clock }, ..old(self)@ }),
            final(self).framebuffer == old(self).framebuffer,
    {
        self.clock.elapsed_ms = elapsed_ms;
    }

    /// The atom naming a bridged selection. Every connection sees the same number for
    /// it, so it is also the one to put in an event.
    pub fn selection_atom(&mut self, sel: Sel) -> (id: u32)
        requires
            old(self).wf(),
        ensures
            final(self).wf(),
            final(self)@ == old(self)@.with_selection_atom(sel),
            final(self).framebuffer == old(self).framebuffer,
            id == old(self)@.selection_atom(sel),
    {
        match sel {
            Sel::Primary => XA_PRIMARY,
            // interning is idempotent: whoever asks first fixes the number
            Sel::Clipboard => self.atoms.intern("CLIPBOARD".as_bytes(), false),
        }
    }

    pub fn geometry(&self) -> (g: Geometry)
        ensures
            g == (Geometry { width: self@.screen.width, height: self@.screen.height }),
    {
        Geometry { width: self.screen.width, height: self.screen.height }
    }

    /// Pushes the screen model out to everything derived from it (the framebuffer size,
    /// and the input geometry and output layout), and with `notify`, tells the X clients
    /// that asked. Call after any change to `screen`, whether the compositor's outputs
    /// moved or an X client reconfigured a CRTC. Returns the resulting screen size.
    pub fn sync_screen(&mut self, notify: bool) -> (g: Geometry)
        requires
            old(self).wf(),
        ensures
            final(self).wf(),
            final(self)@ == old(self)@.with_screen_pushed(notify),
            resized(
                old(self).framebuffer,
                final(self).framebuffer,
                old(self)@.screen.width,
                old(self)@.screen.height,
            ),
            g == (Geometry { width: old(self)@.screen.width, height: old(self)@.screen.height }),
    {
        let geom = self.geometry();
        let timestamp: u32 = self.screen.timestamp;
        let config_timestamp: u32 = self.screen.config_timestamp;
        let rects = self.screen.layout_rects();
        assert(geom.width * geom.height <= 0xffff * 0xffff) by (nonlinear_arith)
            requires
                geom.width <= 0xffff,
                geom.height <= 0xffff,
        ;
        if geom.width as u64 * geom.height as u64 * 4 <= usize::MAX as u64 {
            self.framebuffer.ensure(geom.width as u32, geom.height as u32);
        }
        if fits(&rects) {
            self.input.set_layout(rects);
        }
        self.input.set_geometry(geom.width, geom.height);
        if notify {
            self.events.screen_changed(geom.width, geom.height, timestamp, config_timestamp);
        }
        geom
    }

    /// Carries out the effects of a transition of `sel`: events go to the clients that
    /// are owed them and conversions that were dropped are refused. Returns the offers
    /// that are left to be destroyed.
    pub fn carry_out(&mut self, fx: Effects, sel: Sel) -> (destroy: Vec<DataOffer>)
        requires
            old(self).wf(),
        ensures
            final(self).wf(),
            (final(self)@, destroy@) == old(self)@.carrying(fx@, sel),
            final(self).framebuffer == old(self).framebuffer,
    {
        let selection: u32 = self.selection_atom(sel);
        let now: u64 = self.clock.elapsed_ms;
        let outs = fx.apply(&mut self.clipboard, selection, now);
        self.carry_each(outs)
    }

    /// Does what a transition asks for, one thing after another. Returns the offers that
    /// are left to be destroyed.
    fn carry_each(&mut self, outs: Vec<Outgoing>) -> (destroy: Vec<DataOffer>)
        requires
            old(self).wf(),
        ensures
            final(self).wf(),
            final(self)@ == (ServerView {
                events: carried(old(self)@.events, clipboard::outgoing_views(outs@)),
                ..old(self)@
            }),
            destroy@ == discarded(clipboard::outgoing_views(outs@)),
            final(self).framebuffer == old(self).framebuffer,
    {
        let ghost fb = self.framebuffer;
        let ghost ov = clipboard::outgoing_views(outs@);
        let ghost e0 = self.events@;
        let ghost s1 = self@;
        let mut destroy: Vec<DataOffer> = Vec::new();
        let mut outs = outs;
        let ghost mut done: int = 0;
        assert(ov.take(0) =~= Seq::empty());
        assert(ov.skip(0) =~= ov);
        while outs.len() > 0
            invariant
                0 <= done <= ov.len(),
                clipboard::outgoing_views(outs@) == ov.skip(done),
                self.wf(),
                self.framebuffer == fb,
                self@ == (ServerView { events: carried(e0, ov.take(done)), ..s1 }),
                destroy@ == discarded(ov.take(done)),
            decreases outs.len(),
        {
            let ghost waiting = outs@;
            assert(clipboard::outgoing_views(waiting).len() == waiting.len());
            let o = outs.remove(0);
            proof {
                assert(o@ == ov.skip(done)[0]);
                assert forall|i: int| 0 <= i < outs@.len() implies #[trigger] clipboard::outgoing_views(outs@)[i]
                    == ov.skip(done + 1)[i] by {
                    assert(outs@[i] == waiting[i + 1]);
                    assert(clipboard::outgoing_views(waiting)[i + 1] == ov.skip(done)[i + 1]);
                }
                assert(clipboard::outgoing_views(outs@) =~= ov.skip(done + 1));
                assert(ov.take(done + 1).drop_last() =~= ov.take(done));
                assert(ov.take(done + 1).last() == o@);
            }
            match o {
                Outgoing::Destroy(offer) => {
                    destroy.push(offer);
                },
                Outgoing::Clear { client, time, owner, selection } => {
                    self.events.send(client, body::selection_clear(time, owner, selection));
                },
                Outgoing::Changed { selection, notify } => {
                    self.events.selection_changed(selection, notify);
                },
                Outgoing::Drop(job) => {
                    match job {
                        Job::Receive { conversion, .. } => {
                            let c = conversion;
                            self.events.send(
                                c.client,
                                body::selection_notify(c.time, c.requestor, c.selection, c.target, 0),
                            );
                        },
                        Job::Destroy(offers) => {
                            let mut offers = offers;
                            destroy.append(&mut offers);
                        },
                        Job::Publish(_, _) => {},
                    }
                },
            }
            proof {
                done = done + 1;
            }
        }
        assert(clipboard::outgoing_views(outs@).len() == outs@.len());
        assert(ov.take(done) =~= ov);
        destroy
    }

    /// Refuses the conversions among jobs that are dropped. Returns the offers that are
    /// left to be destroyed.
    pub fn refuse(&mut self, jobs: Vec<Job>) -> (destroy: Vec<DataOffer>)
        requires
            old(self).wf(),
        ensures
            final(self).wf(),
            final(self)@ == (ServerView {
                events: refused(old(self)@.events, clipjobs::job_views(jobs@)),
                ..old(self)@
            }),
            destroy@ == discarded(EffectsView::drops(clipjobs::job_views(jobs@))),
            final(self).framebuffer == old(self).framebuffer,
    {
        let outs = clipboard::drops_of(jobs);
        self.carry_each(outs)
    }
}

/// A screen that was pushed out once is not changed by pushing it out again without
/// notifying anybody.
pub proof fn law_pushing_the_screen_twice_is_pushing_it_once(s: ServerView)
    ensures
        s.with_screen_pushed(false).with_screen_pushed(false) == s.with_screen_pushed(false),
{
}

/// Input maps through the outputs that are on, each as the screen has it and as the
/// compositor has it, and over the screen's size.
pub proof fn law_input_maps_through_the_outputs(s: ServerView, notify: bool, o: OutputView) -> (k: int)
    requires
        s.screen.outputs.contains(o),
        o.connected,
        o.mode != 0,
        layout_fits(s.layout()),
    ensures
        s.with_screen_pushed(notify).input.width == s.screen.width,
        s.with_screen_pushed(notify).input.height == s.screen.height,
        s.with_screen_pushed(notify).input.outputs matches Some(rects) && 0 <= k < rects.len() && rects[k] == (OutputRect {
            px: o.x as i32,
            py: o.y as i32,
            pw: o.width as i32,
            ph: o.height as i32,
            lx: o.lx,
            ly: o.ly,
            lw: o.lw,
            lh: o.lh,
        }),
{
    let on = list::only(s.screen.outputs, randr::enabled());
    list::lemma_only_holds(s.screen.outputs, randr::enabled());
    assert(randr::enabled()(o));
    assert(on.contains(o));
    let k = on.index_of(o);
    assert(s.layout().len() == on.len());
    k
}

/// Outputs that are off take no part in the layout.
pub proof fn law_outputs_that_are_off_take_no_part(s: ServerView)
    requires
        forall|i: int|
            0 <= i < s.screen.outputs.len() ==> !(#[trigger] s.screen.outputs[i]).connected || s.screen.outputs[i].mode
                == 0,
    ensures
        s.layout().len() == 0,
{
    let on = list::only(s.screen.outputs, randr::enabled());
    list::lemma_only_elements(s.screen.outputs, randr::enabled());
    if on.len() > 0 {
        assert(randr::enabled()(on[0]));
        let k = s.screen.outputs.index_of(on[0]);
        assert(s.screen.outputs[k] == on[0]);
    }
}

/// A client that lost a selection gets `SelectionClear`, and one whose conversion is
/// dropped a `SelectionNotify` without a property; nobody else does.
pub proof fn law_outgoing_events_go_to_their_client(
    events: Seq<ClientView>,
    client: u64,
    time: u32,
    owner: u32,
    selection: u32,
    i: int,
)
    requires
        0 <= i < events.len(),
        events[i].id == client,
        forall|k: int| 0 <= k < i ==> (#[trigger] events[k]).id != client,
        !events[i].closed,
        client::total(events[i].queue) + 64 <= client::MAX_QUEUED_BYTES,
    ensures
        ({
            let e = carried(events, seq![(OutgoingView::Clear { client, time, owner, selection })]);
            &&& e.len() == events.len()
            &&& e[i].queue.len() == events[i].queue.len() + 1
            &&& e[i].queue.last()[0] == 29
            &&& wire::u32_at(e[i].queue.last(), 4) == time
            &&& wire::u32_at(e[i].queue.last(), 8) == owner
            &&& wire::u32_at(e[i].queue.last(), 12) == selection
        }),
{
    let out = OutgoingView::Clear { client, time, owner, selection };
    let b = body::selection_clear_bytes(time, owner, selection);
    body::law_selection_clear_fields(time, owner, selection);
    sink::law_events_go_to_their_client(events, client, b, i);
    assert(seq![out].drop_last() =~= Seq::<OutgoingView>::empty());
    reveal_with_fuel(carried, 2);
    assert(carried(events, seq![out]) == sink::sent_to(events, client, b));
    sink::lemma_stamped(b, events[i].stamp(events[i].seq));
}

} // verus!
