//! Selections: taking them, asking their owners for what they hold, and converting them
//! for the clients that ask.

use crate::bridge::clipboard;
use crate::bridge::clipboard::{
    ClipboardView, DataOffer, Effects, EffectsView, Notify, OwnerView, Sel, SelView, SelectionEvent, Take, Value, OWNER_WINDOW,
};
use crate::bridge::clipjobs;
use crate::bridge::clipjobs::{Answer, Job, JobView, PendingConversion};
use crate::bridge::event::body;
use crate::bridge::event::body::SELECTION_NOTIFY;
use crate::bridge::event::sink;
use crate::bridge::event::time;
use crate::bridge::server;
use crate::bridge::server::{Server, ServerView};
use crate::bridge::x11::answer;
use crate::bridge::x11::atom;
use crate::bridge::x11::atom::{XA_ATOM, XA_INTEGER};
use crate::bridge::x11::conn::{ConnView, Connection, World};
use crate::bridge::x11::property::{Property, PropertyView};
use crate::bridge::x11::selection;
use crate::bridge::x11::selection::{Fetch, Owner, SelectionView, MAX_FETCHES};
use crate::bridge::x11::targets;
use crate::bridge::x11::wire;
use crate::bridge::x11::SELECTION_FETCH_WINDOW;
use crate::util::list;
use vstd::prelude::*;
use vstd::utf8::*;

verus! {

/// The name of the property that a fetch is answered on. There are as many as there can
/// be fetches at once, so that none is answered on the property of another.
pub open spec fn fetch_name(n: u32) -> Seq<u8> {
    targets::bytes_of("XWLRVNC_FETCH_"@) + list::decimal((n % (MAX_FETCHES as u32)) as nat)
}

/// The next count, wrapping.
pub open spec fn next_count(n: u32) -> u32 {
    if n == u32::MAX {
        0
    } else {
        (n + 1) as u32
    }
}

/// The table with each of the names in it, and their atoms.
pub open spec fn interned_each(atoms: Seq<Seq<u8>>, names: Seq<Seq<u8>>) -> (Seq<Seq<u8>>, Seq<u32>)
    decreases names.len(),
{
    if names.len() == 0 {
        (atoms, Seq::empty())
    } else {
        let (before, ids) = interned_each(atoms, names.drop_last());
        let after = atom::interned(before, names.last());
        (after, ids.push(atom::atom_of(after, names.last()) as u32))
    }
}

/// The targets that a selection is converted to: the list itself, the time, and what its
/// mime types allow.
pub open spec fn target_names(mimes: Seq<Seq<char>>) -> Seq<Seq<u8>> {
    seq![targets::bytes_of("TARGETS"@), targets::bytes_of("TIMESTAMP"@)] + targets::listing(mimes, mimes.len() as int)
}

/// The bytes that a value is delivered as.
pub open spec fn delivered(data: Seq<u8>, latin1: bool) -> Seq<u8> {
    if latin1 {
        targets::utf8_lossy(data).map_values(|c: char| targets::latin1_byte(c))
    } else {
        data
    }
}

/// A `ConvertSelection`.
#[derive(Clone, Copy, PartialEq, Eq, Structural, Debug)]
pub struct Convert {
    pub requestor: u32,
    pub selection: u32,
    pub target: u32,
    pub property: u32,
    pub time: u32,
}

impl World {
    /// With the clipboard changed.
    pub open spec fn with_clipboard(self, clipboard: ClipboardView) -> World {
        World { server: ServerView { clipboard, ..self.server }, ..self }
    }

    /// With the effects of a transition of `sel` carried out.
    #[verifier::opaque]
    pub open spec fn carrying(self, fx: EffectsView, sel: Sel) -> (World, Seq<DataOffer>) {
        let (s, destroy) = self.server.carrying(fx, sel);
        (World { server: s, ..self }, destroy)
    }

    /// With the client told of a selection that it watches.
    #[verifier::opaque]
    pub open spec fn watcher_told(self, selection: u32, n: Notify) -> World {
        World {
            server: ServerView {
                events: sink::with_client(self.server.events, self.conn.id, sink::hears_selection(selection, n)),
                ..self.server
            },
            ..self
        }
    }

    /// With a property stored.
    pub open spec fn storing(self, window: u32, property: u32, value: PropertyView) -> World {
        World {
            conn: ConnView { properties: self.conn.properties.insert((window, property), value), ..self.conn },
            ..self
        }
    }

    /// With the owner of a selection asked for what it holds, as UTF-8 text.
    #[verifier::opaque]
    pub open spec fn fetching(self, sel: Sel, selection: u32, owner: u32, time: u32) -> World {
        let name = fetch_name(self.conn.fetches);
        let utf8 = targets::bytes_of("UTF8_STRING"@);
        let a1 = atom::interned(self.server.atoms, utf8);
        let a2 = atom::interned(a1, name);
        let target = atom::atom_of(a1, utf8) as u32;
        let property = atom::atom_of(a2, name) as u32;
        let fetch = Fetch { kind: sel, selection, property, owner, time };
        World {
            conn: ConnView {
                fetches: next_count(self.conn.fetches),
                selection: self.conn.selection.fetching(fetch),
                ..self.conn
            },
            server: ServerView { atoms: a2, ..self.server },
        }.notified(
            body::selection_request_bytes(time, owner, SELECTION_FETCH_WINDOW, selection, target, property),
        )
    }

    /// With `SetSelectionOwner` carried out. Bridged selections are server-global
    /// (Wayland can revoke them), the rest are per-connection. When a real X client took
    /// ownership, its data is asked for.
    #[verifier::opaque]
    pub open spec fn owning(self, owner: u32, selection: u32, time: u32) -> (World, Seq<DataOffer>) {
        let at = self.server_time(time);
        let now = self.server.clock.now();
        match answer::bridged(self.server, selection) {
            None => if clipboard::is_stale(at, now, self.conn.selection.last_changed(selection)) {
                (self, Seq::empty())
            } else {
                (
                    World {
                        conn: ConnView {
                            selection: SelectionView {
                                owners: self.conn.selection.owners.insert(
                                    selection,
                                    Owner { window: owner, last_changed: at },
                                ),
                                ..self.conn.selection
                            },
                            ..self.conn
                        },
                        ..self
                    }.watcher_told(
                        selection,
                        Notify {
                            subtype: SelectionEvent::SetSelectionOwner,
                            owner,
                            timestamp: now,
                            selection_timestamp: at,
                        },
                    ),
                    Seq::empty(),
                )
            },
            Some(sel) => if clipboard::is_stale(at, now, self.server.clipboard.sel(sel).last_changed) {
                (self, Seq::empty())
            } else if owner == 0 {
                let (c, fx) = self.server.clipboard.on_released(self.server.clock, sel, at);
                self.with_clipboard(c).carrying(fx, sel)
            } else {
                let (c, fx) = self.server.clipboard.on_taken(sel, owner, self.conn.id, at);
                let (w, destroy) = self.with_clipboard(c).carrying(fx, sel);
                (
                    if owner != OWNER_WINDOW {
                        w.fetching(sel, selection, owner, at)
                    } else {
                        w
                    },
                    destroy,
                )
            },
        }
    }

    /// With what an owner holds, if it is still the acquisition that was asked.
    #[verifier::opaque]
    pub open spec fn fetched(self, f: Fetch, data: Seq<u8>) -> (World, Seq<DataOffer>) {
        if self.server.clipboard.sel(f.kind).owner.is_acquisition(f.owner, f.time) {
            let (c, dropped) = self.server.clipboard.on_fetched(self.server.clock, f.kind, data);
            self.with_clipboard(c).carrying(
                ClipboardView::acquired(self.server.clock, f.owner, f.time, dropped),
                f.kind,
            )
        } else {
            (self, Seq::empty())
        }
    }

    /// With an owner that would not give what it holds, if it is still the acquisition
    /// that was asked.
    #[verifier::opaque]
    pub open spec fn fetch_failed(self, f: Fetch) -> (World, Seq<DataOffer>) {
        if self.server.clipboard.sel(f.kind).owner.is_acquisition(f.owner, f.time) {
            let (c, dropped) = self.server.clipboard.withdrawing(f.kind, self.server.clock.elapsed_ms);
            self.with_clipboard(c).carrying(
                ClipboardView::acquired(self.server.clock, f.owner, f.time, dropped),
                f.kind,
            )
        } else {
            (self, Seq::empty())
        }
    }

    /// With the fetches left after an answer to one of them.
    pub open spec fn answered_fetch(self, i: int) -> World {
        World {
            conn: ConnView {
                selection: SelectionView {
                    fetches: self.conn.selection.fetches.remove(i),
                    ..self.conn.selection
                },
                ..self.conn
            },
            ..self
        }
    }

    /// With an event that the client sent. Only a SelectionNotify to our fetch window
    /// matters: it answers a fetch. A value that is too large comes in chunks; per ICCCM,
    /// the requestor starts that transfer by deleting the property.
    #[verifier::opaque]
    pub open spec fn event_received(self, event: Seq<u8>) -> (World, Seq<DataOffer>) {
        let requestor = wire::u32_at(event, 8);
        let sel_atom = wire::u32_at(event, 12);
        let property = wire::u32_at(event, 20);
        let fetches = self.conn.selection.fetches;
        if event[0] & 0x7f != SELECTION_NOTIFY || requestor != SELECTION_FETCH_WINDOW {
            (self, Seq::empty())
        } else {
            match list::first_index(fetches, selection::answers(sel_atom, property)) {
                None => (self, Seq::empty()),
                Some(i) => {
                    let f = fetches[i];
                    let w = self.answered_fetch(i);
                    let k = (SELECTION_FETCH_WINDOW, f.property);
                    if property == 0 || !self.conn.properties.dom().contains(k) {
                        w.fetch_failed(f)
                    } else {
                        let p = self.conn.properties[k];
                        let taken = World {
                            conn: ConnView { properties: self.conn.properties.remove(k), ..w.conn },
                            ..w
                        };
                        if atom::name_of(self.server.atoms, p.type_) == Some(targets::bytes_of("INCR"@)) {
                            (
                                World {
                                    conn: ConnView {
                                        selection: SelectionView {
                                            incr: taken.conn.selection.incr.insert(f.property, (f, Seq::empty())),
                                            ..taken.conn.selection
                                        },
                                        ..taken.conn
                                    },
                                    ..taken
                                }.property_notified(SELECTION_FETCH_WINDOW, f.property, true),
                                Seq::empty(),
                            )
                        } else {
                            taken.fetched(f, p.data)
                        }
                    }
                },
            }
        }
    }

    /// With a chunk of a value that is being received. We ask for the next one by
    /// deleting the property; an empty one ends the value.
    #[verifier::opaque]
    pub open spec fn chunk_received(self, property: u32, data: Seq<u8>) -> (World, Seq<DataOffer>) {
        let (f, before) = self.conn.selection.incr[property];
        if data.len() == 0 {
            self.receive_ended(property).fetched(f, before)
        } else {
            (
                World {
                    conn: ConnView {
                        selection: SelectionView {
                            incr: self.conn.selection.incr.insert(property, (f, before + data)),
                            ..self.conn.selection
                        },
                        ..self.conn
                    },
                    ..self
                }.property_notified(SELECTION_FETCH_WINDOW, property, true),
                Seq::empty(),
            )
        }
    }

    /// With chunks of a value that is being received, one after the other.
    pub open spec fn chunks_received(self, property: u32, chunks: Seq<Seq<u8>>) -> World
        decreases chunks.len(),
    {
        if chunks.len() == 0 {
            self
        } else {
            self.chunks_received(property, chunks.drop_last()).chunk_received(property, chunks.last()).0
        }
    }

    /// With a value that is being received taken out of those.
    pub open spec fn receive_ended(self, property: u32) -> World {
        World {
            conn: ConnView {
                selection: SelectionView {
                    incr: self.conn.selection.incr.remove(property),
                    ..self.conn.selection
                },
                ..self.conn
            },
            ..self
        }
    }

    /// With the conversions refused that have waited out their time.
    #[verifier::opaque]
    pub open spec fn jobs_swept(self) -> World {
        let now = self.server.clock.elapsed_ms;
        let jobs = self.server.clipboard.jobs;
        World {
            server: ServerView {
                clipboard: ClipboardView { jobs: jobs.swept(now), ..self.server.clipboard },
                events: server::refused(self.server.events, list::only(jobs.queue, clipjobs::expired(now))),
                ..self.server
            },
            ..self
        }
    }

    /// With a SelectionNotify that names the property, 0 for a refusal.
    pub open spec fn conversion_told(self, r: Convert, property: u32) -> World {
        self.notified(body::selection_notify_bytes(r.time, r.requestor, r.selection, r.target, property))
    }

    /// With a conversion done: its value stored and its requestor told.
    pub open spec fn converted(self, r: Convert, value: PropertyView) -> World {
        self.storing(r.requestor, r.property, value).conversion_told(r, r.property)
    }

    /// With a conversion to what is not the list of targets or the time.
    #[verifier::opaque]
    pub open spec fn value_converted(self, r: Convert, sel: Sel) -> (World, Seq<DataOffer>) {
        let refusal = (self.conversion_told(r, 0), Seq::<DataOffer>::empty());
        match atom::name_of(self.server.atoms, r.target) {
            None => refusal,
            Some(name) => match targets::resolution(name, self.server.clipboard.mimes(sel)) {
                None => refusal,
                Some(conv) => {
                    let (atoms, type_) = match conv.type_ {
                        Some(n) => (
                            atom::interned(self.server.atoms, n),
                            atom::atom_of(atom::interned(self.server.atoms, n), n) as u32,
                        ),
                        None => (self.server.atoms, r.target),
                    };
                    let w = World { server: ServerView { atoms, ..self.server }, ..self };
                    match self.server.clipboard.sel(sel).owner {
                        OwnerView::X(o) => match o.data {
                            Some(data) => (
                                w.converted(
                                    r,
                                    PropertyView { type_, format: 8, data: delivered(data, conv.latin1) },
                                ),
                                Seq::empty(),
                            ),
                            None => refusal,
                        },
                        OwnerView::Nobody => refusal,
                        // it has to be piped out of the Wayland app: the requestor waits
                        OwnerView::Wayland { .. } => {
                            let now = self.server.clock.elapsed_ms;
                            let job = JobView::Receive {
                                sel,
                                mime: conv.mime,
                                generation: self.server.clipboard.sel(sel).generation,
                                since: now,
                                conversion: PendingConversion {
                                    client: self.conn.id,
                                    requestor: r.requestor,
                                    selection: r.selection,
                                    target: r.target,
                                    property: r.property,
                                    time: r.time,
                                    type_,
                                    latin1: conv.latin1,
                                },
                            };
                            let jobs = self.server.clipboard.jobs;
                            let dropped = jobs.dropped(job, now);
                            (
                                World {
                                    server: ServerView {
                                        clipboard: ClipboardView {
                                            jobs: jobs.posted(job, now),
                                            ..self.server.clipboard
                                        },
                                        events: server::refused(w.server.events, dropped),
                                        ..w.server
                                    },
                                    ..w
                                },
                                server::discarded(EffectsView::drops(dropped)),
                            )
                        },
                    }
                },
            },
        }
    }

    /// With `ConvertSelection` carried out. Polling clients (vncagent) convert TIMESTAMP
    /// and re-read only when it changes.
    #[verifier::opaque]
    pub open spec fn selection_converted(self, r: Convert) -> (World, Seq<DataOffer>) {
        let w = self.jobs_swept();
        match answer::bridged(w.server, r.selection) {
            Some(sel) if w.server.clipboard.sel(sel).owner.window() is Some => {
                let name = atom::name_of(w.server.atoms, r.target);
                if name == Some(targets::bytes_of("TIMESTAMP"@)) {
                    (
                        w.converted(
                            r,
                            PropertyView {
                                type_: XA_INTEGER,
                                format: 32,
                                data: wire::le32(w.server.clipboard.sel(sel).last_changed),
                            },
                        ),
                        Seq::empty(),
                    )
                } else if name == Some(targets::bytes_of("TARGETS"@)) {
                    let (atoms, ids) = interned_each(w.server.atoms, target_names(w.server.clipboard.mimes(sel)));
                    (
                        World { server: ServerView { atoms, ..w.server }, ..w }.converted(
                            r,
                            PropertyView { type_: XA_ATOM, format: 32, data: wire::le32s(ids) },
                        ),
                        Seq::empty(),
                    )
                } else {
                    w.value_converted(r, sel)
                }
            },
            // nobody owns it, or it is not bridged
            _ => (w.conversion_told(r, 0), Seq::empty()),
        }
    }

    /// With what the client owned of `sel` given up: all of it, or what a window owned.
    #[verifier::opaque]
    pub open spec fn owner_gone(self, sel: Sel, window: Option<u32>, subtype: SelectionEvent) -> (World, Seq<DataOffer>) {
        if self.server.clipboard.owned(sel, self.conn.id, window) {
            let (c, fx) = self.server.clipboard.on_owner_gone(self.server.clock, sel, subtype);
            self.with_clipboard(c).carrying(fx, sel)
        } else {
            (self, Seq::empty())
        }
    }

    /// With what the client owned of both selections given up.
    #[verifier::opaque]
    pub open spec fn owners_gone(self, window: Option<u32>, subtype: SelectionEvent) -> (World, Seq<DataOffer>) {
        let (w1, d1) = self.owner_gone(Sel::Clipboard, window, subtype);
        let (w2, d2) = w1.owner_gone(Sel::Primary, window, subtype);
        (w2, d1 + d2)
    }

    /// With the answer to a conversion that waited: its value stored, if it got one, and
    /// its requestor told.
    pub open spec fn delivered(self, r: Convert, value: Option<PropertyView>) -> World {
        match value {
            Some(v) => self.converted(r, v),
            None => self.conversion_told(r, 0),
        }
    }
}

impl Connection {
    fn carry(&mut self, server: &mut Server, fx: Effects, sel: Sel) -> (destroy: Vec<DataOffer>)
        requires
            old(server).wf(),
        ensures
            final(server).wf(),
            final(server).framebuffer == old(server).framebuffer,
            *final(self) == *old(self),
            (final(self).world(*final(server)), destroy@) == old(self).world(*old(server)).carrying(fx@, sel),
    {
        proof {
            reveal(World::carrying);
        }
        server.carry_out(fx, sel)
    }

    /// Asks an X selection owner to convert its selection to UTF8_STRING so we can offer
    /// it on Wayland (X -> Wayland direction).
    pub fn start_fetch(&mut self, server: &mut Server, kind: Sel, selection: u32, owner: u32, time: u32)
        requires
            old(server).wf(),
        ensures
            final(server).wf(),
            final(server).framebuffer == old(server).framebuffer,
            final(self).world(*final(server)) == old(self).world(*old(server)).fetching(kind, selection, owner, time),
    {
        proof {
            reveal(World::fetching);
        }
        let mut name = list::copy_bytes("XWLRVNC_FETCH_".as_bytes());
        list::push_decimal(&mut name, (self.fetches % MAX_FETCHES as u32) as u64);
        let target: u32 = server.atoms.intern("UTF8_STRING".as_bytes(), false);
        let property: u32 = server.atoms.intern(name.as_slice(), false);
        self.fetches = self.fetches.wrapping_add(1);
        self.selection.begin_fetch(Fetch { kind, selection, property, owner, time });
        self.send_event(
            server,
            body::selection_request(time, owner, SELECTION_FETCH_WINDOW, selection, target, property),
        );
    }

    /// `SetSelectionOwner`.
    pub fn set_selection_owner(&mut self, server: &mut Server, owner: u32, selection: u32, time: u32) -> (destroy: Vec<
        DataOffer,
    >)
        requires
            old(server).wf(),
        ensures
            final(server).wf(),
            final(server).framebuffer == old(server).framebuffer,
            (final(self).world(*final(server)), destroy@) == old(self).world(*old(server)).owning(owner, selection, time),
    {
        proof {
            reveal(World::owning);
            reveal(World::watcher_told);
        }
        let at: u32 = self.client_time(server, time);
        let clock = server.clock;
        match answer::selection_kind(server, selection) {
            None => {
                if self.selection.set_owner(selection, owner, at, &clock) {
                    let now: u32 = time::server_time_ms(&clock);
                    server.events.tell(
                        self.id,
                        selection,
                        Notify {
                            subtype: SelectionEvent::SetSelectionOwner,
                            owner,
                            timestamp: now,
                            selection_timestamp: at,
                        },
                    );
                }
                Vec::new()
            },
            Some(sel) => {
                let take = if owner == 0 {
                    server.clipboard.x_released(sel, at, &clock)
                } else {
                    server.clipboard.x_took(sel, owner, self.id, at, &clock)
                };
                match take {
                    Take::Stale => Vec::new(),
                    Take::Took(fx) => {
                        let destroy = self.carry(server, fx, sel);
                        if owner != 0 && owner != OWNER_WINDOW {
                            self.start_fetch(server, sel, selection, owner, at);
                        }
                        destroy
                    },
                }
            },
        }
    }

    fn took_value(&mut self, server: &mut Server, f: Fetch, data: Vec<u8>) -> (destroy: Vec<DataOffer>)
        requires
            old(server).wf(),
        ensures
            final(server).wf(),
            final(server).framebuffer == old(server).framebuffer,
            (final(self).world(*final(server)), destroy@) == old(self).world(*old(server)).fetched(f, data@),
    {
        proof {
            reveal(World::fetched);
        }
        let clock = server.clock;
        match server.clipboard.x_fetched(f.kind, f.owner, f.time, data, &clock) {
            Some(fx) => self.carry(server, fx, f.kind),
            None => Vec::new(),
        }
    }

    fn got_nothing(&mut self, server: &mut Server, f: Fetch) -> (destroy: Vec<DataOffer>)
        requires
            old(server).wf(),
        ensures
            final(server).wf(),
            final(server).framebuffer == old(server).framebuffer,
            (final(self).world(*final(server)), destroy@) == old(self).world(*old(server)).fetch_failed(f),
    {
        proof {
            reveal(World::fetch_failed);
        }
        let clock = server.clock;
        match server.clipboard.x_fetch_failed(f.kind, f.owner, f.time, &clock) {
            Some(fx) => self.carry(server, fx, f.kind),
            None => Vec::new(),
        }
    }

    /// Completes an in-flight fetch when the owner replies with SelectionNotify. If the
    /// owner returned an INCR property, switches to chunked receive.
    pub fn handle_send_event(&mut self, server: &mut Server, event: &[u8]) -> (destroy: Vec<DataOffer>)
        requires
            old(server).wf(),
            event@.len() == 32,
        ensures
            final(server).wf(),
            final(server).framebuffer == old(server).framebuffer,
            (final(self).world(*final(server)), destroy@) == old(self).world(*old(server)).event_received(event@),
    {
        proof {
            reveal(World::event_received);
        }
        let ghost w0 = self.world(*server);
        if event[0] & 0x7f != SELECTION_NOTIFY {
            return Vec::new();
        }
        let requestor: u32 = wire::get32(event, 8);
        let selection: u32 = wire::get32(event, 12);
        let property: u32 = wire::get32(event, 20);
        if requestor != SELECTION_FETCH_WINDOW {
            return Vec::new();
        }
        let f = match self.selection.take_fetch(selection, property) {
            Some(f) => f,
            None => {
                return Vec::new();
            },
        };
        let ghost i = list::first_index(w0.conn.selection.fetches, selection::answers(selection, property))->0;
        assert(self.world(*server) == w0.answered_fetch(i));
        if property == 0 {
            return self.got_nothing(server, f);
        }
        let ghost props = self.properties@;
        match self.properties.remove(SELECTION_FETCH_WINDOW, f.property) {
            None => {
                assert(self.properties@ =~= props);
                self.got_nothing(server, f)
            },
            Some(p) => {
                let incr = match server.atoms.name(p.type_) {
                    Some(n) => list::same_bytes(n, "INCR".as_bytes()),
                    None => false,
                };
                if incr {
                    self.selection.begin_incr(f);
                    self.property_notify(server, SELECTION_FETCH_WINDOW, f.property, true);
                    Vec::new()
                } else {
                    self.took_value(server, f, p.data)
                }
            },
        }
    }

    /// Takes a chunk of a value that is being received.
    pub fn receive_chunk(&mut self, server: &mut Server, property: u32, data: Vec<u8>) -> (destroy: Vec<DataOffer>)
        requires
            old(server).wf(),
            old(self)@.selection.incr.dom().contains(property),
        ensures
            final(server).wf(),
            final(server).framebuffer == old(server).framebuffer,
            (final(self).world(*final(server)), destroy@) == old(self).world(*old(server)).chunk_received(property, data@),
    {
        proof {
            reveal(World::chunk_received);
        }
        match self.selection.incr_push(property, data) {
            selection::IncrStep::Done(f, value) => self.took_value(server, f, value),
            selection::IncrStep::More(p) => {
                self.property_notify(server, SELECTION_FETCH_WINDOW, p, true);
                Vec::new()
            },
        }
    }

    fn tell_conversion(&mut self, server: &mut Server, r: Convert, property: u32)
        requires
            old(server).wf(),
        ensures
            final(server).wf(),
            final(server).framebuffer == old(server).framebuffer,
            *final(self) == *old(self),
            final(self).world(*final(server)) == old(self).world(*old(server)).conversion_told(r, property),
    {
        self.send_event(server, body::selection_notify(r.time, r.requestor, r.selection, r.target, property));
    }

    fn store_conversion(&mut self, server: &mut Server, r: Convert, value: Property)
        requires
            old(server).wf(),
        ensures
            final(server).wf(),
            final(server).framebuffer == old(server).framebuffer,
            final(self).world(*final(server)) == old(self).world(*old(server)).converted(r, value@),
    {
        self.properties.set(r.requestor, r.property, value);
        self.tell_conversion(server, r, r.property);
    }

    /// The list of target atoms we can convert the given selection to.
    fn supported_targets(&mut self, server: &mut Server, sel: Sel) -> (ids: Vec<u32>)
        requires
            old(server).wf(),
        ensures
            final(server).wf(),
            final(server).framebuffer == old(server).framebuffer,
            *final(self) == *old(self),
            ({
                let (atoms, all) = interned_each(
                    old(server)@.atoms,
                    target_names(old(server)@.clipboard.mimes(sel)),
                );
                final(server)@ == (ServerView { atoms, ..old(server)@ }) && ids@ == all
            }),
    {
        let mimes = server.clipboard.mimes(sel);
        let ghost texts = list::texts(mimes@);
        assert(texts.len() == mimes@.len());
        let mut names: Vec<Vec<u8>> = Vec::new();
        names.push(list::copy_bytes("TARGETS".as_bytes()));
        names.push(list::copy_bytes("TIMESTAMP".as_bytes()));
        let ghost head = names@;
        let mut more = targets::advertised(&mimes);
        let ghost tail = more@;
        names.append(&mut more);
        let ghost all = target_names(texts);
        assert(targets::names(names@) =~= targets::names(head) + targets::names(tail));
        assert(targets::names(head) =~= seq![targets::bytes_of("TARGETS"@), targets::bytes_of("TIMESTAMP"@)]);
        assert(targets::names(names@) == all);
        intern_names(server, &names)
    }

    fn convert_value(&mut self, server: &mut Server, r: Convert, sel: Sel) -> (destroy: Vec<DataOffer>)
        requires
            old(server).wf(),
        ensures
            final(server).wf(),
            final(server).framebuffer == old(server).framebuffer,
            (final(self).world(*final(server)), destroy@) == old(self).world(*old(server)).value_converted(r, sel),
    {
        proof {
            reveal(World::value_converted);
        }
        let ghost w0 = self.world(*server);
        let (mimes, generation) = server.clipboard.convertible(sel);
        let resolved = match server.atoms.name(r.target) {
            Some(name) => targets::resolve(name, &mimes),
            None => None,
        };
        let conv = match resolved {
            Some(c) => c,
            None => {
                self.tell_conversion(server, r, 0);
                return Vec::new();
            },
        };
        let ghost cv = conv@;
        let value = server.clipboard.value(sel);
        if let Value::Nothing = value {
            self.tell_conversion(server, r, 0);
            return Vec::new();
        }
        let type_: u32 = match conv.type_ {
            Some(n) => server.atoms.intern(n, false),
            None => r.target,
        };
        match value {
            Value::Nothing => Vec::new(),
            Value::Here(data) => {
                let data = if conv.latin1 { targets::to_latin1(data.as_slice()) } else { data };
                self.store_conversion(server, r, Property { type_, format: 8, data });
                Vec::new()
            },
            Value::FromWayland => {
                let now: u64 = server.clock.elapsed_ms;
                let conversion = PendingConversion::new(
                    self.id,
                    r.requestor,
                    r.selection,
                    r.target,
                    r.property,
                    r.time,
                    type_,
                    conv.latin1,
                );
                let job = Job::Receive { sel, mime: conv.mime, generation, since: now, conversion };
                let (_, dropped) = server.clipboard.jobs_mut().post(job, now);
                server.refuse(dropped)
            },
        }
    }

    /// Handles ConvertSelection: fills the requestor's property from the clipboard and
    /// answers with SelectionNotify, or leaves that to the job that gets the value.
    pub fn convert_selection(&mut self, server: &mut Server, r: Convert) -> (destroy: Vec<DataOffer>)
        requires
            old(server).wf(),
        ensures
            final(server).wf(),
            final(server).framebuffer == old(server).framebuffer,
            (final(self).world(*final(server)), destroy@) == old(self).world(*old(server)).selection_converted(r),
    {
        proof {
            reveal(World::selection_converted);
            reveal(World::jobs_swept);
        }
        let now: u64 = server.clock.elapsed_ms;
        let ghost w0 = self.world(*server);
        let stale = server.clipboard.jobs_mut().sweep(now);
        let ghost stale_views = clipjobs::job_views(stale@);
        let _ = server.refuse(stale);
        assert(self.world(*server) =~= w0.jobs_swept());
        let sel = match answer::selection_kind(server, r.selection) {
            Some(sel) => sel,
            None => {
                self.tell_conversion(server, r, 0);
                return Vec::new();
            },
        };
        if server.clipboard.owner_window(sel).is_none() {
            self.tell_conversion(server, r, 0);
            return Vec::new();
        }
        let (timestamp, list_of_targets): (bool, bool) = match server.atoms.name(r.target) {
            Some(n) => (
                list::same_bytes(n, "TIMESTAMP".as_bytes()),
                list::same_bytes(n, "TARGETS".as_bytes()),
            ),
            None => (false, false),
        };
        if timestamp {
            let mut data: Vec<u8> = Vec::new();
            wire::put32(&mut data, server.clipboard.last_changed(sel));
            assert(data@ =~= wire::le32(w0.jobs_swept().server.clipboard.sel(sel).last_changed));
            self.store_conversion(server, r, Property { type_: XA_INTEGER, format: 32, data });
            return Vec::new();
        }
        if list_of_targets {
            let ids = self.supported_targets(server, sel);
            let mut data: Vec<u8> = Vec::new();
            wire::put32s(&mut data, &ids);
            assert(data@ =~= wire::le32s(ids@));
            self.store_conversion(server, r, Property { type_: XA_ATOM, format: 32, data });
            return Vec::new();
        }
        self.convert_value(server, r, sel)
    }

    fn give_up(&mut self, server: &mut Server, sel: Sel, window: Option<u32>, subtype: SelectionEvent) -> (destroy: Vec<
        DataOffer,
    >)
        requires
            old(server).wf(),
        ensures
            final(server).wf(),
            final(server).framebuffer == old(server).framebuffer,
            *final(self) == *old(self),
            (final(self).world(*final(server)), destroy@) == old(self).world(*old(server)).owner_gone(
                sel,
                window,
                subtype,
            ),
    {
        proof {
            reveal(World::owner_gone);
        }
        let clock = server.clock;
        match server.clipboard.x_owner_gone(sel, self.id, window, subtype, &clock) {
            Some(fx) => self.carry(server, fx, sel),
            None => Vec::new(),
        }
    }

    /// Gives up what the client owned of both selections: all of it, or what a window of
    /// it owned.
    pub fn give_up_both(&mut self, server: &mut Server, window: Option<u32>, subtype: SelectionEvent) -> (destroy: Vec<
        DataOffer,
    >)
        requires
            old(server).wf(),
        ensures
            final(server).wf(),
            final(server).framebuffer == old(server).framebuffer,
            *final(self) == *old(self),
            (final(self).world(*final(server)), destroy@) == old(self).world(*old(server)).owners_gone(window, subtype),
    {
        proof {
            reveal(World::owners_gone);
        }
        let mut destroy = self.give_up(server, Sel::Clipboard, window, subtype);
        let mut more = self.give_up(server, Sel::Primary, window, subtype);
        destroy.append(&mut more);
        destroy
    }

    /// Delivers the answer to a conversion that waited for a value from Wayland: stores
    /// the value on the requestor, if there is one, and tells it.
    pub fn deliver(&mut self, server: &mut Server, a: Answer)
        requires
            old(server).wf(),
        ensures
            final(server).wf(),
            final(server).framebuffer == old(server).framebuffer,
            final(self).world(*final(server)) == old(self).world(*old(server)).delivered(
                Convert {
                    requestor: a.requestor,
                    selection: a.selection,
                    target: a.target,
                    property: a.property,
                    time: a.time,
                },
                match a.value {
                    Some((type_, data)) => Some(PropertyView { type_, format: 8, data: data@ }),
                    None => None,
                },
            ),
    {
        let r = Convert {
            requestor: a.requestor,
            selection: a.selection,
            target: a.target,
            property: a.property,
            time: a.time,
        };
        match a.value {
            Some((type_, data)) => {
                self.store_conversion(server, r, Property { type_, format: 8, data });
            },
            None => {
                self.tell_conversion(server, r, 0);
            },
        }
    }
}

/// Fetches that are made one after another, up to as many as there can be at once, are
/// answered on properties of different names.
pub proof fn law_fetches_have_properties_of_their_own(n: u32, m: u32)
    requires
        n < m < n + MAX_FETCHES,
    ensures
        fetch_name(n) != fetch_name(m),
{
    let a = list::decimal((n % (MAX_FETCHES as u32)) as nat);
    let b = list::decimal((m % (MAX_FETCHES as u32)) as nat);
    assert(MAX_FETCHES as u32 == 8);
    assert(n % 8 < 8 && m % 8 < 8 && n % 8 != m % 8);
    assert(a == seq![(48 + n % 8) as u8]);
    assert(b == seq![(48 + m % 8) as u8]);
    assert(a[0] != b[0]);
    let k = targets::bytes_of("XWLRVNC_FETCH_"@).len() as int;
    assert(fetch_name(n)[k] == a[0]);
    assert(fetch_name(m)[k] == b[0]);
}

/// A `SetSelectionOwner` whose time is in the future, or before the selection's last
/// change, changes nothing.
pub proof fn law_stale_owners_change_nothing(w: World, sel: Sel, owner: u32, selection: u32, time: u32)
    requires
        answer::bridged(w.server, selection) == Some(sel),
        clipboard::is_stale(w.server_time(time), w.server.clock.now(), w.server.clipboard.sel(sel).last_changed),
    ensures
        w.owning(owner, selection, time) == (w, Seq::<DataOffer>::empty()),
{
    reveal(World::owning);
}

/// A value that comes in chunks arrives whole: what is taken at the empty chunk that ends
/// it is all the chunks, in order.
pub proof fn law_large_values_arrive_whole(w: World, property: u32, f: Fetch, chunks: Seq<Seq<u8>>)
    requires
        w.conn.selection.incr.dom().contains(property),
        w.conn.selection.incr[property] == (f, Seq::<u8>::empty()),
        forall|i: int| 0 <= i < chunks.len() ==> (#[trigger] chunks[i]).len() > 0,
    ensures
        ({
            let all = w.chunks_received(property, chunks);
            all.chunk_received(property, Seq::empty()) == all.receive_ended(property).fetched(f, chunks.flatten())
        }),
{
    lemma_chunks_join(w, property, f, chunks);
    chunks.lemma_flatten_and_flatten_alt_are_equivalent();
    reveal(World::chunk_received);
}

proof fn lemma_chunks_join(w: World, property: u32, f: Fetch, chunks: Seq<Seq<u8>>)
    requires
        w.conn.selection.incr.dom().contains(property),
        w.conn.selection.incr[property] == (f, Seq::<u8>::empty()),
        forall|i: int| 0 <= i < chunks.len() ==> (#[trigger] chunks[i]).len() > 0,
    ensures
        ({
            let all = w.chunks_received(property, chunks);
            &&& all.conn.selection.incr.dom().contains(property)
            &&& all.conn.selection.incr[property] == (f, chunks.flatten_alt())
        }),
    decreases chunks.len(),
{
    if chunks.len() > 0 {
        let rest = chunks.drop_last();
        assert forall|i: int| 0 <= i < rest.len() implies (#[trigger] rest[i]).len() > 0 by {
            assert(rest[i] == chunks[i]);
        }
        lemma_chunks_join(w, property, f, rest);
        assert(chunks.last() == chunks[chunks.len() - 1]);
        reveal(World::chunk_received);
        reveal(World::property_notified);
        reveal(World::notified);
    }
}

/// What an X client put on a selection is what another X client gets of it: its bytes,
/// unchanged, as UTF-8 text, on the property that it asked for.
pub proof fn law_x_value_reaches_x_clients(w: World, r: Convert, sel: Sel, data: Seq<u8>)
    requires
        w.server.clipboard.sel(sel).owner matches OwnerView::X(o) && o.data == Some(data),
        atom::name_of(w.server.atoms, r.target) == Some(targets::bytes_of("UTF8_STRING"@)),
        w.server.atoms.len() <= u32::MAX,
    ensures
        ({
            let (after, destroy) = w.value_converted(r, sel);
            let k = (r.requestor, r.property);
            &&& after.conn.properties.dom().contains(k)
            &&& after.conn.properties[k].data == data
            &&& after.conn.properties[k].format == 8
            &&& atom::name_of(w.server.atoms, after.conn.properties[k].type_) == Some(targets::bytes_of("UTF8_STRING"@))
            &&& destroy.len() == 0
        }),
{
    reveal(World::value_converted);
    reveal(World::notified);
    let name = targets::bytes_of("UTF8_STRING"@);
    let mimes = w.server.clipboard.mimes(sel);
    assert(mimes == clipboard::text_mime_names());
    assert(mimes[0] == "text/plain;charset=utf-8"@);
    assert(targets::text_mime(mimes) is Some);
    let at = list::first_index(w.server.atoms, atom::spelled(name));
    list::lemma_first_index(w.server.atoms, atom::spelled(name));
    assert(w.server.atoms[r.target - 1] == name);
    assert(at is Some);
}

/// Taking or giving up one selection leaves the other as it was: `SetSelectionOwner` of
/// PRIMARY does not touch the clipboard's state, nor that of the clipboard PRIMARY's.
pub proof fn law_owning_one_selection_leaves_the_other(w: World, sel: Sel, owner: u32, selection: u32, time: u32)
    requires
        answer::is_atom_of(w.server, selection, sel),
    ensures
        ({
            let before = w.server.clipboard;
            let after = w.owning(owner, selection, time).0.server.clipboard;
            match sel {
                Sel::Primary => after.clipboard == before.clipboard,
                Sel::Clipboard => after.primary == before.primary,
            }
        }),
{
    answer::law_atoms_stand_for_their_own_selection(w.server, selection, sel);
    reveal(World::owning);
    reveal(World::carrying);
    reveal(World::fetching);
    reveal(World::notified);
}

/// A client that takes a selection at a time that is not stale owns it from that time
/// on, on the window that it named, and what it holds is not known yet.
pub proof fn law_owner_is_who_took_it(w: World, sel: Sel, owner: u32, selection: u32, time: u32)
    requires
        answer::is_atom_of(w.server, selection, sel),
        owner != 0,
        ({
            let last_changed = match sel {
                Sel::Primary => w.server.clipboard.primary.last_changed,
                Sel::Clipboard => w.server.clipboard.clipboard.last_changed,
            };
            !clipboard::is_stale(w.server_time(time), w.server.clock.now(), last_changed)
        }),
    ensures
        ({
            let after = w.owning(owner, selection, time).0.server.clipboard;
            let s = match sel {
                Sel::Primary => after.primary,
                Sel::Clipboard => after.clipboard,
            };
            &&& s.last_changed == w.server_time(time)
            &&& s.owner matches OwnerView::X(o) && o.window == owner && o.client == w.conn.id && o.time
                == w.server_time(time) && o.data is None
        }),
{
    answer::law_atoms_stand_for_their_own_selection(w.server, selection, sel);
    reveal(World::owning);
    reveal(World::carrying);
    reveal(World::fetching);
    reveal(World::notified);
}

/// With the state of the selection that is not `sel` replaced.
pub open spec fn with_other_selection(w: World, sel: Sel, other: SelView) -> World {
    World {
        server: ServerView {
            clipboard: match sel {
                Sel::Primary => ClipboardView { clipboard: other, ..w.server.clipboard },
                Sel::Clipboard => ClipboardView { primary: other, ..w.server.clipboard },
            },
            ..w.server
        },
        ..w
    }
}

/// A conversion of one selection depends on that selection alone: whatever the other
/// one's state is, the requestor gets the same, and that state stays.
pub proof fn law_conversions_depend_on_their_own_selection(w: World, r: Convert, sel: Sel, other: SelView)
    requires
        answer::is_atom_of(w.server, r.selection, sel),
    ensures
        ({
            let (after, destroy) = w.selection_converted(r);
            with_other_selection(w, sel, other).selection_converted(r) == (
                with_other_selection(after, sel, other),
                destroy,
            )
        }),
{
    let w2 = with_other_selection(w, sel, other);
    answer::law_atoms_stand_for_their_own_selection(w.server, r.selection, sel);
    answer::law_atoms_stand_for_their_own_selection(w2.server, r.selection, sel);
    reveal(World::selection_converted);
    reveal(World::jobs_swept);
    reveal(World::value_converted);
    reveal(World::notified);
    assert(w2.selection_converted(r).0 =~= with_other_selection(w.selection_converted(r).0, sel, other));
}

/// Converting a selection that is owned to TIMESTAMP gives the time of that selection's
/// own last change, as one 32-bit integer.
pub proof fn law_timestamp_is_that_of_the_selection(w: World, r: Convert, sel: Sel)
    requires
        answer::is_atom_of(w.server, r.selection, sel),
        atom::name_of(w.server.atoms, r.target) == Some(targets::bytes_of("TIMESTAMP"@)),
        match sel {
            Sel::Primary => !(w.server.clipboard.primary.owner is Nobody),
            Sel::Clipboard => !(w.server.clipboard.clipboard.owner is Nobody),
        },
    ensures
        ({
            let after = w.selection_converted(r).0;
            let k = (r.requestor, r.property);
            let at = match sel {
                Sel::Primary => w.server.clipboard.primary.last_changed,
                Sel::Clipboard => w.server.clipboard.clipboard.last_changed,
            };
            &&& after.conn.properties.dom().contains(k)
            &&& after.conn.properties[k].format == 32
            &&& after.conn.properties[k].type_ == 19
            &&& after.conn.properties[k].data.len() == 4
            &&& wire::u32_at(after.conn.properties[k].data, 0) == at
        }),
{
    answer::law_atoms_stand_for_their_own_selection(w.server, r.selection, sel);
    reveal(World::selection_converted);
    reveal(World::jobs_swept);
    reveal(World::notified);
    let at = w.server.clipboard.sel(sel).last_changed;
    wire::law_le32_reads_back(at, Seq::empty(), Seq::empty());
    assert(Seq::<u8>::empty() + wire::le32(at) + Seq::<u8>::empty() =~= wire::le32(at));
}

/// What an X client put on a selection is what a client gets that converts that
/// selection, by its atom, to UTF8_STRING.
pub proof fn law_conversion_gives_what_the_owner_put_there(w: World, r: Convert, sel: Sel, data: Seq<u8>)
    requires
        answer::is_atom_of(w.server, r.selection, sel),
        atom::name_of(w.server.atoms, r.target) == Some(targets::bytes_of("UTF8_STRING"@)),
        w.server.atoms.len() <= u32::MAX,
        (match sel {
            Sel::Primary => w.server.clipboard.primary.owner,
            Sel::Clipboard => w.server.clipboard.clipboard.owner,
        }) matches OwnerView::X(o) && o.data == Some(data),
    ensures
        ({
            let after = w.selection_converted(r).0;
            let k = (r.requestor, r.property);
            &&& after.conn.properties.dom().contains(k)
            &&& after.conn.properties[k].data == data
            &&& after.conn.properties[k].format == 8
            &&& atom::name_of(w.server.atoms, after.conn.properties[k].type_) == Some(targets::bytes_of("UTF8_STRING"@))
        }),
{
    answer::law_atoms_stand_for_their_own_selection(w.server, r.selection, sel);
    reveal(World::selection_converted);
    reveal(World::jobs_swept);
    targets::lemma_names_apart("UTF8_STRING"@, "TIMESTAMP"@);
    targets::lemma_names_apart("UTF8_STRING"@, "TARGETS"@);
    reveal_strlit("UTF8_STRING");
    reveal_strlit("TIMESTAMP");
    reveal_strlit("TARGETS");
    law_x_value_reaches_x_clients(w.jobs_swept(), r, sel, data);
}

/// Interns each of the names.
fn intern_names(server: &mut Server, names: &Vec<Vec<u8>>) -> (ids: Vec<u32>)
    requires
        old(server).wf(),
    ensures
        final(server).wf(),
        final(server).framebuffer == old(server).framebuffer,
        ({
            let (atoms, all) = interned_each(old(server)@.atoms, targets::names(names@));
            final(server)@ == (ServerView { atoms, ..old(server)@ }) && ids@ == all
        }),
{
    let ghost s0 = server@;
    let ghost fb = server.framebuffer;
    let ghost all = targets::names(names@);
    let mut ids: Vec<u32> = Vec::new();
    let mut i: usize = 0;
    assert(all.take(0) =~= Seq::empty());
    assert(ids@ =~= Seq::empty());
    while i < names.len()
        invariant
            i <= names.len(),
            all == targets::names(names@),
            server.wf(),
            server.framebuffer == fb,
            server@ == (ServerView { atoms: interned_each(s0.atoms, all.take(i as int)).0, ..s0 }),
            ids@ == interned_each(s0.atoms, all.take(i as int)).1,
        decreases names.len() - i,
    {
        assert(all.take(i as int + 1).drop_last() =~= all.take(i as int));
        assert(all.take(i as int + 1).last() == names@[i as int]@);
        let id: u32 = server.atoms.intern(names[i].as_slice(), false);
        ids.push(id);
        i += 1;
    }
    assert(all.take(i as int) =~= all);
    ids
}

} // verus!
