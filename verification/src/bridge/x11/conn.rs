//! One client's connection: what it holds of its own, and how its requests change that
//! and the server.

use crate::bridge::clipboard::DataOffer;
use crate::bridge::event::body;
use crate::bridge::event::client::Client;
use crate::bridge::event::sink;
use crate::bridge::event::time;
use crate::bridge::input::InputAction;
use crate::bridge::server::{Server, ServerView};
use crate::bridge::x11::mit_shm::{Shm, ShmSeg};
use crate::bridge::x11::property::{Properties, PropertyView};
use crate::bridge::x11::reply;
use crate::bridge::x11::selection::{Selection, SelectionView};
use crate::bridge::x11::setup;
use crate::bridge::x11::window::{Windows, WindowsView};
use crate::bridge::x11::wire;
use crate::bridge::x11::xfixes::Regions;
use crate::util::geometry::{Geometry, Rectangle};
use vstd::prelude::*;

verus! {

/// A request of a length that it cannot have.
pub const LENGTH_ERROR: u8 = 16;

/// A request that is not implemented.
pub const IMPLEMENTATION_ERROR: u8 = 17;

/// A property whose type or format does not agree.
pub const MATCH_ERROR: u8 = 8;

/// A connection.
pub struct Connection {
    /// Its number, for its client and for its resource ids.
    pub id: u64,
    /// Current request sequence number.
    pub seq: u16,
    /// Stored window properties for fake windows (i.e., clipboard/WM).
    pub properties: Properties,
    /// Clipboard/selection state machine (owners, in-flight fetches, INCR receives).
    pub selection: Selection,
    /// MIT-SHM segments the client attached, for ShmGetImage.
    pub shm: Shm,
    /// XFixes regions (rectangle lists), keyed by region id.
    pub regions: Regions,
    /// Per-window selected event masks (for PropertyNotify routing + diagnostics).
    pub windows: Windows,
    /// Counts the fetches, so that each gets a property of its own.
    pub fetches: u32,
    /// The connection is over: nothing more goes out, or what would have to go out
    /// cannot be put on the wire.
    pub broken: bool,
}

#[verifier::ext_equal]
pub struct ConnView {
    pub id: u64,
    pub seq: u16,
    pub properties: Map<(u32, u32), PropertyView>,
    pub selection: SelectionView,
    pub shm: Map<u32, ShmSeg>,
    pub regions: Map<u32, Seq<Rectangle>>,
    pub windows: WindowsView,
    pub fetches: u32,
    pub broken: bool,
}

impl View for Connection {
    type V = ConnView;

    open spec fn view(&self) -> ConnView {
        ConnView {
            id: self.id,
            seq: self.seq,
            properties: self.properties@,
            selection: self.selection@,
            shm: self.shm@,
            regions: self.regions@,
            windows: self.windows@,
            fetches: self.fetches,
            broken: self.broken,
        }
    }
}

/// A mode change that the compositor is to be asked for before a `SetCrtcConfig` can be
/// answered.
#[derive(Clone, Copy, PartialEq, Eq, Structural, Debug)]
pub struct ModeChange {
    pub wl_name: u32,
    pub width: u16,
    pub height: u16,
    pub crtc: u32,
    pub mode: u32,
}

/// What a request leaves to be done outside.
pub enum Work {
    Nothing,
    /// Attach the client's shared memory, and say so with [`Connection::attached`].
    Attach { shmseg: u32, shmid: u32 },
    /// Detach it.
    Detach { shmseg: u32 },
    /// Read the screen into so many bytes of a segment, and say so with
    /// [`Connection::image_read`].
    Image { shmseg: u32, start: usize, len: usize, x: i16, y: i16, width: u16, height: u16 },
    /// Count a read of the screen of so many bytes.
    Read { bytes: usize },
    /// Inject input.
    Input(Vec<InputAction>),
    /// Follow a key, and inject what [`Input::fake_input`](crate::bridge::input::Input)
    /// makes of it and the masks that it leads to.
    Key { kind: u8, keycode: u8 },
    /// Ask the compositor for a mode, and say so with [`Connection::mode_changed`].
    ChangeMode(ModeChange),
    /// Event mask bits that were selected for the first time and are not supported.
    Unsupported(u32),
    /// Auto-repeat was to be switched off, which no Wayland interface can do.
    NoAutoRepeat,
    /// The request is not well formed.
    Malformed,
    /// The request is not implemented.
    Unimplemented,
}

/// What a request leaves to be done: work, and offers to be destroyed.
pub struct Todo {
    pub work: Work,
    pub destroy: Vec<DataOffer>,
}

/// A connection together with the server.
#[verifier::ext_equal]
pub struct World {
    pub conn: ConnView,
    pub server: ServerView,
}

impl World {
    /// With bytes queued as the answer to the current request.
    #[verifier::opaque]
    pub open spec fn sent(self, b: Seq<u8>) -> World {
        let e = sink::replied_to(self.server.events, self.conn.id, self.conn.seq, b);
        World {
            conn: ConnView { broken: self.conn.broken || sink::stopped(e, self.conn.id), ..self.conn },
            server: ServerView { events: e, ..self.server },
        }
    }

    /// With a reply queued.
    pub open spec fn replied(self, b: Seq<u8>) -> World {
        self.sent(wire::framed(b))
    }

    /// With an error queued.
    pub open spec fn erred(self, code: u8, major: u8, minor: u8) -> World {
        self.sent(reply::error_bytes(code, major, minor as u16))
    }

    /// Over.
    pub open spec fn hung_up(self) -> World {
        World { conn: ConnView { broken: true, ..self.conn }, ..self }
    }

    /// Answered, or over where there is no answer that can be put on the wire.
    pub open spec fn answered(self, b: Option<Seq<u8>>) -> World {
        match b {
            Some(b) => self.replied(b),
            None => self.hung_up(),
        }
    }

    /// With an event queued for the client.
    #[verifier::opaque]
    pub open spec fn notified(self, b: Seq<u8>) -> World {
        World {
            server: ServerView { events: sink::sent_to(self.server.events, self.conn.id, b), ..self.server },
            ..self
        }
    }

    /// With a PropertyNotify queued if the window selected PropertyChange.
    #[verifier::opaque]
    pub open spec fn property_notified(self, window: u32, property: u32, deleted: bool) -> World {
        if self.conn.windows.wants_property_change(window) {
            self.notified(body::property_notify_bytes(window, property, self.server.clock.now(), deleted))
        } else {
            self
        }
    }

    /// The server's time for a time that the client gave, which 0 stands for.
    pub open spec fn server_time(self, time: u32) -> u32 {
        if time == 0 {
            self.server.clock.now()
        } else {
            time
        }
    }
}

impl Connection {
    /// A connection, before anything has been said.
    pub fn new(id: u64) -> (c: Connection)
        ensures
            c@ == (ConnView {
                id,
                seq: 0,
                properties: Map::empty(),
                selection: SelectionView { owners: Map::empty(), fetches: Seq::empty(), incr: Map::empty() },
                shm: Map::empty(),
                regions: Map::empty(),
                windows: WindowsView { masks: Map::empty(), warned: 0 },
                fetches: 0,
                broken: false,
            }),
    {
        let c = Connection {
            id,
            seq: 0,
            properties: Properties::default(),
            selection: Selection::default(),
            shm: Shm::default(),
            regions: Regions::default(),
            windows: Windows::default(),
            fetches: 0,
            broken: false,
        };
        c
    }

    /// A connection's world.
    pub open spec fn world(self, server: Server) -> World {
        World { conn: self@, server: server@ }
    }

    /// The client of a connection whose opening has been read, with the setup bytes
    /// queued. It is registered only then: an event fanned out before the setup bytes
    /// were queued would land ahead of them on the wire.
    pub fn opened(&self, geom: Geometry) -> (c: Client)
        requires
            self.id <= setup::MAX_CONNECTION,
        ensures
            c.wf(),
            c@ == crate::bridge::event::client::ClientView::fresh(self@.id).queued(
                setup::setup_bytes(geom, setup::base_of(self@.id as u32) as u32),
            ),
    {
        let mut client = Client::new(self.id);
        let bytes = setup::setup(geom, setup::resource_id_base(self.id as u32));
        let _ = client.write_setup(bytes);
        client
    }

    fn send(&mut self, server: &mut Server, b: Vec<u8>)
        requires
            old(server).wf(),
            b@.len() >= 4,
        ensures
            final(server).wf(),
            final(server).framebuffer == old(server).framebuffer,
            final(self).world(*final(server)) == old(self).world(*old(server)).sent(b@),
    {
        proof {
            reveal(World::sent);
        }
        if server.events.reply(self.id, self.seq, b).is_err() {
            self.broken = true;
        }
    }

    /// Queues a reply, padded and with its length in it.
    pub fn reply(&mut self, server: &mut Server, b: Vec<u8>)
        requires
            old(server).wf(),
        ensures
            final(server).wf(),
            final(server).framebuffer == old(server).framebuffer,
            final(self).world(*final(server)) == old(self).world(*old(server)).replied(b@),
    {
        let buf = wire::build_reply(b);
        proof {
            wire::lemma_framed_len(b@);
        }
        self.send(server, buf);
    }

    /// Queues an X error of `code` for the current request, identifying the offending
    /// opcodes. For a request that expects a reply the error takes the reply's place so
    /// the client unblocks.
    pub fn send_error(&mut self, server: &mut Server, code: u8, major: u8, minor: u8)
        requires
            old(server).wf(),
        ensures
            final(server).wf(),
            final(server).framebuffer == old(server).framebuffer,
            final(self).world(*final(server)) == old(self).world(*old(server)).erred(code, major, minor),
    {
        let b = reply::error(code, major, minor as u16);
        proof {
            reply::law_errors_are_32_bytes(code, major, minor as u16);
        }
        self.send(server, b);
    }

    /// Queues the answer, or ends the connection where there is none.
    pub fn answer(&mut self, server: &mut Server, b: Option<Vec<u8>>)
        requires
            old(server).wf(),
        ensures
            final(server).wf(),
            final(server).framebuffer == old(server).framebuffer,
            final(self).world(*final(server)) == old(self).world(*old(server)).answered(
                match b {
                    Some(v) => Some(v@),
                    None => None,
                },
            ),
    {
        match b {
            Some(v) => {
                self.reply(server, v);
            },
            None => {
                self.broken = true;
            },
        }
    }

    /// Queues an event for the client.
    pub fn send_event(&mut self, server: &mut Server, event: Vec<u8>)
        requires
            old(server).wf(),
            event@.len() >= 4,
        ensures
            final(server).wf(),
            final(server).framebuffer == old(server).framebuffer,
            *final(self) == *old(self),
            final(self).world(*final(server)) == old(self).world(*old(server)).notified(event@),
    {
        proof {
            reveal(World::notified);
        }
        server.events.send(self.id, event);
    }

    /// Sends a PropertyNotify for `(window, atom)` if the window selected
    /// PropertyChange. vncagent's clipboard does a zero-length property append and
    /// blocks waiting for this event to read a server timestamp; without it, clipboard
    /// ownership/conversion never proceeds.
    pub fn property_notify(&mut self, server: &mut Server, window: u32, property: u32, deleted: bool)
        requires
            old(server).wf(),
        ensures
            final(server).wf(),
            final(server).framebuffer == old(server).framebuffer,
            *final(self) == *old(self),
            final(self).world(*final(server)) == old(self).world(*old(server)).property_notified(
                window,
                property,
                deleted,
            ),
    {
        proof {
            reveal(World::property_notified);
        }
        if self.windows.wants_property_change(window) {
            let now: u32 = time::server_time_ms(&server.clock);
            self.send_event(server, body::property_notify(window, property, now, deleted));
        }
    }

    /// The time that a client means by `time`.
    pub fn client_time(&self, server: &Server, time: u32) -> (t: u32)
        ensures
            t == self.world(*server).server_time(time),
    {
        if time == 0 {
            time::server_time_ms(&server.clock)
        } else {
            time
        }
    }
}

} // verus!
