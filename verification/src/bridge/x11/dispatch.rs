//! What each request does.

use crate::bridge::capture::Framebuffer;
use crate::bridge::clipboard::{DataOffer, Notify, SelectionEvent};
use crate::bridge::damage;
use crate::bridge::damage::DamageView;
use crate::bridge::event::client;
use crate::bridge::event::client::ClientView;
use crate::bridge::event::sink;
use crate::bridge::event::time;
use crate::bridge::profile;
use crate::bridge::server;
use crate::bridge::server::{Server, ServerView};
use crate::bridge::x11::answer;
use crate::bridge::x11::atom;
use crate::bridge::x11::conn::{
    ConnView, Connection, ModeChange, Todo, Work, World, IMPLEMENTATION_ERROR, LENGTH_ERROR, MATCH_ERROR,
};
use crate::bridge::x11::convert::Convert;
use crate::bridge::x11::mit_shm;
use crate::bridge::x11::property::{Property, PropertyView};
use crate::bridge::x11::randr;
use crate::bridge::x11::randr::{ModeInfo, ModeView, ScreenView};
use crate::bridge::x11::reply;
use crate::bridge::x11::request;
use crate::bridge::x11::request::{Ask, Change, ParsedView, RawRequest, Request};
use crate::bridge::x11::window::{WindowsView, STRUCTURE_NOTIFY};
use crate::bridge::x11::wire;
use crate::bridge::x11::xfixes;
use crate::bridge::x11::ROOT_WINDOW;
use crate::util::geometry;
use crate::util::geometry::Rectangle;
use crate::util::list;
use vstd::prelude::*;

verus! {

/// `ChangeProperty` puts the data in the place of what was there.
pub const REPLACE: u8 = 0;

/// `ChangeProperty` puts the data behind what was there.
pub const APPEND: u8 = 2;

/// What `GetProperty` asks for.
#[derive(Clone, Copy, PartialEq, Eq, Structural, Debug)]
pub struct Read {
    pub delete: bool,
    pub window: u32,
    pub property: u32,
    pub type_: u32,
    pub long_offset: u32,
    pub long_length: u32,
}

/// How long the items of a property are, at least one byte.
pub open spec fn unit_of(format: u8) -> int {
    geometry::max_of(format as int / 8, 1)
}

/// Where in a property of `len` bytes the part that is asked for begins, and how many
/// bytes it has: whole items.
pub open spec fn part_of(len: int, format: u8, long_offset: u32, long_length: u32) -> (int, int) {
    let start = geometry::min_of(long_offset * 4, len);
    let want = geometry::min_of(long_length * 4, len - start);
    (start, want - want % unit_of(format))
}

/// The reply to `GetProperty`, if it can be put on the wire, and whether the property
/// goes with it: `delete` was set and the whole remainder returned. A type mismatch (with
/// a specific type asked for) reports what the property is, with no value and nothing
/// deleted.
pub open spec fn property_reply(p: Option<PropertyView>, r: Read) -> (Option<Seq<u8>>, bool) {
    match p {
        None => (Some(reply::property_bytes(0, 0, 0, 0, Seq::empty())), false),
        Some(p) => if r.type_ != 0 && r.type_ != p.type_ {
            (
                Some(
                    reply::property_bytes(
                        p.format,
                        p.type_,
                        (p.data.len() % 0x1_0000_0000) as u32,
                        0,
                        Seq::empty(),
                    ),
                ),
                false,
            )
        } else {
            let (start, want) = part_of(p.data.len() as int, p.format, r.long_offset, r.long_length);
            let after = (p.data.len() - start - want) % 0x1_0000_0000;
            (
                if want <= u32::MAX && want == want / unit_of(p.format) * (p.format as int / 8) {
                    Some(
                        reply::property_bytes(
                            p.format,
                            p.type_,
                            after as u32,
                            (want / unit_of(p.format)) as u32,
                            p.data.subrange(start, start + want),
                        ),
                    )
                } else {
                    None
                },
                r.delete && after == 0,
            )
        },
    }
}

/// The mode change that the compositor is to be asked for before a CRTC can be set: it
/// is there to be asked, and drives the output at another size.
pub open spec fn needed_change(s: ServerView, crtc: u32, mode: u32) -> Option<ModeChange> {
    match (s.screen.find(randr::crtc_is(crtc)), randr::size_of_mode(s.screen.modes, mode)) {
        (Some(o), Some((width, height))) => if s.dynres.available && mode != 0 && o.wl_name != 0 && (width != o.width
            || height != o.height) {
            Some(ModeChange { wl_name: o.wl_name, width, height, crtc, mode })
        } else {
            None
        },
        _ => None,
    }
}

/// With a CRTC set, if it and the mode are known.
pub open spec fn crtc_set(s: ScreenView, crtc: u32, x: i16, y: i16, mode: u32) -> ScreenView {
    match list::first_index(s.outputs, randr::crtc_is(crtc)) {
        Some(i) => if mode == 0 || randr::size_of_mode(s.modes, mode) is Some {
            s.with_crtc(i, x, y, mode)
        } else {
            s
        },
        None => s,
    }
}

impl World {
    /// With the next request received.
    #[verifier::opaque]
    pub open spec fn received(self) -> World {
        let seq: u16 = if self.conn.seq == u16::MAX {
            0
        } else {
            (self.conn.seq + 1) as u16
        };
        World {
            conn: ConnView { seq, ..self.conn },
            server: ServerView {
                events: sink::with_client(self.server.events, self.conn.id, Select::Request(seq).applied()),
                ..self.server
            },
        }
    }

    /// With the client changed.
    pub open spec fn with_client(self, f: spec_fn(ClientView) -> ClientView) -> World {
        World {
            server: ServerView { events: sink::with_client(self.server.events, self.conn.id, f), ..self.server },
            ..self
        }
    }

    /// With the screen changed.
    pub open spec fn with_screen(self, screen: ScreenView) -> World {
        World { server: ServerView { screen, ..self.server }, ..self }
    }

    /// With the screen pushed out to what is derived from it, and the clients told.
    #[verifier::opaque]
    pub open spec fn screen_pushed(self) -> World {
        World { server: self.server.with_screen_pushed(true), ..self }
    }

    /// With `ChangeProperty` carried out. A chunk of a value that is being received is
    /// taken as such. Prepend/Append extend an existing value, which must agree on type
    /// and format (BadMatch otherwise); on a missing property they behave as Replace.
    #[verifier::opaque]
    pub open spec fn property_changed(
        self,
        minor: u8,
        mode: u8,
        window: u32,
        property: u32,
        type_: u32,
        format: u8,
        data: Seq<u8>,
    ) -> (World, Seq<DataOffer>) {
        if self.conn.selection.is_chunk(window, property) {
            self.chunk_received(property, data)
        } else {
            let k = (window, property);
            let extending = mode != REPLACE && self.conn.properties.dom().contains(k);
            let before = self.conn.properties[k];
            if extending && (before.type_ != type_ || before.format != format) {
                (self.erred(MATCH_ERROR, 18, minor), Seq::empty())
            } else {
                let all = if !extending {
                    data
                } else if mode == APPEND {
                    before.data + data
                } else {
                    data + before.data
                };
                (
                    self.storing(window, property, PropertyView { type_, format, data: all }).property_notified(
                        window,
                        property,
                        false,
                    ),
                    Seq::empty(),
                )
            }
        }
    }

    /// With a property gone.
    pub open spec fn without_property(self, window: u32, property: u32) -> World {
        World {
            conn: ConnView { properties: self.conn.properties.remove((window, property)), ..self.conn },
            ..self
        }
    }

    /// With `GetProperty` carried out.
    #[verifier::opaque]
    pub open spec fn property_read(self, r: Read) -> World {
        let k = (r.window, r.property);
        let p = if self.conn.properties.dom().contains(k) {
            Some(self.conn.properties[k])
        } else {
            None
        };
        let (b, deleted) = property_reply(p, r);
        let w = (if deleted {
            self.without_property(r.window, r.property)
        } else {
            self
        }).answered(b);
        if deleted {
            w.property_notified(r.window, r.property, true)
        } else {
            w
        }
    }

    /// With an event mask selected for a window. We only track it to know which windows
    /// want PropertyNotify, and whether this client wants root ConfigureNotify
    /// (StructureNotify on the root window) so the event sink can deliver screen-resize
    /// notifications.
    #[verifier::opaque]
    pub open spec fn mask_selected(self, window: u32, mask: u32) -> World {
        let w = World {
            conn: ConnView {
                windows: WindowsView {
                    masks: self.conn.windows.masks.insert(window, mask),
                    warned: self.conn.windows.warned | self.conn.windows.new_unsupported(mask),
                },
                ..self.conn
            },
            ..self
        };
        if window == ROOT_WINDOW {
            w.with_client(Select::RootStructure(mask & STRUCTURE_NOTIFY == STRUCTURE_NOTIFY).applied())
        } else {
            w
        }
    }

    /// With the client told of the selections that a window of it no longer owns.
    pub open spec fn releases_told(self, gone: Seq<(u32, u32)>) -> World
        decreases gone.len(),
    {
        if gone.len() == 0 {
            self
        } else {
            self.releases_told(gone.drop_last()).watcher_told(
                gone.last().0,
                Notify {
                    subtype: SelectionEvent::SelectionWindowDestroy,
                    owner: 0,
                    timestamp: self.server.clock.now(),
                    selection_timestamp: gone.last().1,
                },
            )
        }
    }

    /// With a window destroyed, and what it selected and owned gone with it. The
    /// selections that are not bridged are told of in the order of `gone`.
    #[verifier::opaque]
    pub open spec fn window_destroyed(self, window: u32, gone: Seq<(u32, u32)>) -> (World, Seq<DataOffer>) {
        World {
            conn: ConnView {
                windows: WindowsView {
                    masks: self.conn.windows.masks.remove(window),
                    ..self.conn.windows
                },
                selection: self.conn.selection.forgetting(window),
                ..self.conn
            },
            ..self
        }.with_client(Select::Forget(window).applied()).releases_told(gone).owners_gone(Some(window), SelectionEvent::SelectionWindowDestroy)
    }

    /// `gone` has the selections that are not bridged and that the window owns, each once,
    /// and when they changed.
    pub open spec fn owned_by(self, window: u32, gone: Seq<(u32, u32)>) -> bool {
        &&& gone.no_duplicates()
        &&& forall|a: u32, t: u32| #[trigger]
            gone.contains((a, t)) <==> self.conn.selection.owners.dom().contains(a)
                && self.conn.selection.owners[a].window == window && self.conn.selection.owners[a].last_changed == t
    }

    /// With a mode made by the client, `None` where there is no id left for it.
    #[verifier::opaque]
    pub open spec fn mode_created(self, info: ModeInfo, name: Seq<u8>) -> World {
        let s = self.server.screen;
        if s.next_id >= u32::MAX {
            self.hung_up()
        } else {
            self.with_screen(
                ScreenView {
                    next_id: s.next_id + 1,
                    modes: s.modes.push(
                        ModeView {
                            info: ModeInfo {
                                id: s.next_id as u32,
                                name_len: (name.len() % 0x1_0000) as u16,
                                ..info
                            },
                            name,
                            ours: false,
                        },
                    ),
                    ..s
                },
            ).replied(reply::create_mode_bytes(s.next_id as u32))
        }
    }

    /// With a CRTC set in the model. The framebuffer, the input mapping and the capture
    /// positions all follow the screen model, exactly as for a change the compositor
    /// made.
    #[verifier::opaque]
    pub open spec fn crtc_configured(self, crtc: u32, x: i16, y: i16, mode: u32) -> World {
        let s = crtc_set(self.server.screen, crtc, x, y, mode);
        self.with_screen(s).screen_pushed().replied(reply::set_crtc_bytes(reply::SUCCESS, s.timestamp))
    }

    /// With the compositor's answer to a mode change: what it did has reached the model
    /// as an output change, and the CRTC goes to the mode that the client asked for; what
    /// it refused is rolled back.
    #[verifier::opaque]
    pub open spec fn mode_settled(self, change: ModeChange, changed: bool) -> World {
        if changed {
            let s = self.server.screen.adopted(change.crtc, change.mode);
            self.with_screen(s).screen_pushed().replied(reply::set_crtc_bytes(reply::SUCCESS, s.timestamp))
        } else if self.server.screen.next_id + self.server.screen.outputs.len() > u32::MAX {
            self.hung_up()
        } else {
            let s = self.server.screen.restored();
            self.with_screen(s).screen_pushed().replied(reply::set_crtc_bytes(reply::FAILED, s.timestamp))
        }
    }

    /// With a damage object made, unless damage is disabled.
    #[verifier::opaque]
    pub open spec fn damage_created(self, damage: u32, drawable: u32, level: u8) -> World {
        if self.server.config.nodamage {
            self
        } else {
            World {
                server: ServerView {
                    damage: self.server.damage.push(
                        DamageView { client: self.conn.id, id: damage, drawable, level, region: Seq::empty() },
                    ),
                    profile: self.server.profile.counting_create(),
                    ..self.server
                },
                ..self
            }
        }
    }

    /// With the damage of an object subtracted, and put in a region.
    #[verifier::opaque]
    pub open spec fn damage_subtracted(self, damage: u32, parts: u32) -> World {
        let (after, rects) = match list::first_index(self.server.damage, damage::object(self.conn.id, damage)) {
            Some(i) if self.server.damage[i].level != damage::RAW => (
                self.server.damage.update(i, DamageView { region: Seq::empty(), ..self.server.damage[i] }),
                self.server.damage[i].region,
            ),
            _ => (self.server.damage, Seq::empty()),
        };
        World {
            conn: if parts != 0 {
                ConnView { regions: self.conn.regions.insert(parts, rects), ..self.conn }
            } else {
                self.conn
            },
            server: ServerView {
                damage: after,
                profile: self.server.profile.counting_subtract(),
                ..self.server
            },
        }
    }

    /// With the regions changed.
    pub open spec fn with_regions(self, regions: Map<u32, Seq<Rectangle>>) -> World {
        World { conn: ConnView { regions, ..self.conn }, ..self }
    }

    /// With the image of a `ShmGetImage` read: its size, in 32 bits.
    #[verifier::opaque]
    pub open spec fn image_told(self, width: u16, height: u16) -> World {
        self.replied(reply::shm_image_bytes((width * height * 4 % 0x1_0000_0000) as u32))
    }
}

/// What came out of a request: how the world is, the framebuffer, the work and the offers
/// that are left.
#[verifier::ext_equal]
pub struct After {
    pub world: World,
    pub framebuffer: Framebuffer,
    pub work: Work,
    pub destroy: Seq<DataOffer>,
}

/// The world is `w`, the framebuffer as it was, and nothing is left to be done.
pub open spec fn plain(r: After, fb: Framebuffer, w: World) -> bool {
    r.world == w && r.framebuffer == fb && r.work is Nothing && r.destroy == Seq::<DataOffer>::empty()
}

/// The same, with offers to be destroyed.
pub open spec fn plain_with(r: After, fb: Framebuffer, w: (World, Seq<DataOffer>)) -> bool {
    r.world == w.0 && r.framebuffer == fb && r.work is Nothing && r.destroy == w.1
}

/// The screen was pushed out.
pub open spec fn pushed(r: After, fb: Framebuffer, screen: ScreenView, w: World) -> bool {
    &&& r.world == w
    &&& server::resized(fb, r.framebuffer, screen.width, screen.height)
    &&& r.work is Nothing
    &&& r.destroy == Seq::<DataOffer>::empty()
}

/// `atoms` has the properties of a window, each once.
pub open spec fn lists_properties(c: ConnView, window: u32, atoms: Seq<u32>) -> bool {
    atoms.no_duplicates() && forall|a: u32| #[trigger] atoms.contains(a) <==> c.properties.dom().contains((window, a))
}

/// `data` has the pixels of a rectangle of the screen.
pub open spec fn holds_image(fb: Framebuffer, x: i16, y: i16, width: u16, height: u16, data: Seq<u8>) -> bool {
    data.len() == width * 4 * height && fb.holds_rows(x as int, y as int, width as int, height as int, data)
}

/// `ListProperties`: the properties of a window are listed in no particular order.
#[verifier::opaque]
pub open spec fn properties_listed(w: World, fb: Framebuffer, window: u32, r: After) -> bool {
    exists|atoms: Seq<u32>| #[trigger]
        lists_properties(w.conn, window, atoms) && plain(
            r,
            fb,
            w.answered(
                if atoms.len() <= 0xffff {
                    Some(reply::atoms_bytes(atoms))
                } else {
                    None
                },
            ),
        )
}

/// `GetImage`: the pixels of a rectangle of the screen, which has then been read.
#[verifier::opaque]
pub open spec fn image_got(w: World, fb: Framebuffer, x: i16, y: i16, width: u16, height: u16, r: After) -> bool {
    if width * 4 * height > usize::MAX {
        plain(r, fb, w.hung_up())
    } else {
        &&& r.framebuffer.same_screen(fb) && r.framebuffer.last_read() == Some(w.server.clock.elapsed_ms)
        &&& r.work == (if width == 0 {
            Work::Nothing
        } else {
            Work::Read { bytes: (width * 4 * height) as usize }
        }) && r.destroy == Seq::<DataOffer>::empty()
        &&& exists|data: Seq<u8>| #[trigger]
            holds_image(fb, x, y, width, height, data) && r.world == w.replied(reply::image_bytes(data))
    }
}

/// `ShmDetach`.
#[verifier::opaque]
pub open spec fn memory_detached(w: World, fb: Framebuffer, shmseg: u32, r: After) -> bool {
        &&& r.world == (World { conn: ConnView { shm: w.conn.shm.remove(shmseg), ..w.conn }, ..w })
        &&& r.framebuffer == fb && r.destroy == Seq::<DataOffer>::empty()
        &&& r.work == if w.conn.shm.dom().contains(shmseg) {
            Work::Detach { shmseg }
        } else {
            Work::Nothing
        }
}

/// `ShmGetImage`: the pixels are read straight into the client's shared segment
/// (vncagent reads the whole screen this way ~20/sec), and then it is told.
#[verifier::opaque]
pub open spec fn shared_image_got(w: World, fb: Framebuffer, x: i16, y: i16, width: u16, height: u16, shmseg: u32, offset: u32, r: After) -> bool {
        let (start, len) = mit_shm::span(w.conn.shm[shmseg].size as int, offset as int, width * height * 4);
        if w.conn.shm.dom().contains(shmseg) && len > 0 {
            &&& r.world == w && r.framebuffer == fb && r.destroy == Seq::<DataOffer>::empty()
            &&& r.work == (Work::Image {
                shmseg,
                start: start as usize,
                len: len as usize,
                x,
                y,
                width,
                height,
            })
        } else {
            plain(r, fb, w.image_told(width, height))
        }
}

/// `FakeInput`.
#[verifier::opaque]
pub open spec fn input_faked(w: World, fb: Framebuffer, kind: u8, detail: u8, x: i16, y: i16, r: After) -> bool {
    if !w.server.input.accepts(kind, detail, x, y) {
        plain(r, fb, w.hung_up())
    } else {
        &&& r.world == w && r.framebuffer == fb && r.destroy == Seq::<DataOffer>::empty()
        &&& if w.server.input.strikes(kind) {
            r.work == Work::Key { kind, keycode: detail }
        } else {
            r.work matches Work::Input(v) && v@ == w.server.input.actions(kind, detail, x, y, None)
        }
    }
}

/// `SetCrtcConfig`: set in the model, or asked of the compositor first.
#[verifier::opaque]
pub open spec fn crtc_changed(w: World, fb: Framebuffer, crtc: u32, x: i16, y: i16, mode: u32, r: After) -> bool {
    match needed_change(w.server, crtc, mode) {
        Some(change) => {
            &&& r.world == w && r.framebuffer == fb && r.destroy == Seq::<DataOffer>::empty()
            &&& r.work == Work::ChangeMode(change)
        },
        None => pushed(
            r,
            fb,
            crtc_set(w.server.screen, crtc, x, y, mode),
            w.crtc_configured(crtc, x, y, mode),
        ),
    }
}

/// An event mask of a window.
#[verifier::opaque]
pub open spec fn mask_changed(w: World, fb: Framebuffer, window: u32, mask: u32, r: After) -> bool {
        &&& r.world == w.mask_selected(window, mask)
        &&& r.framebuffer == fb && r.destroy == Seq::<DataOffer>::empty()
        &&& r.work == if w.conn.windows.new_unsupported(mask) != 0 {
            Work::Unsupported(w.conn.windows.new_unsupported(mask))
        } else {
            Work::Nothing
        }
}

/// `DestroyWindow`.
#[verifier::opaque]
pub open spec fn window_gone(w: World, fb: Framebuffer, window: u32, r: After) -> bool {
    exists|gone: Seq<(u32, u32)>| #[trigger]
        w.owned_by(window, gone) && plain_with(r, fb, w.window_destroyed(window, gone))
}

/// What a request that changes something does.
#[verifier::opaque]
pub open spec fn changed(w: World, fb: Framebuffer, c: Change, r: After) -> bool {
    match c {
        Change::DeleteProperty { window, property } => plain(
            r,
            fb,
            w.without_property(window, property).property_notified(window, property, true),
        ),
        Change::GetProperty { delete, window, property, type_, long_offset, long_length } => plain(
            r,
            fb,
            w.property_read(Read { delete, window, property, type_, long_offset, long_length }),
        ),
        Change::ListProperties { window } => properties_listed(w, fb, window, r),
        Change::SetSelectionOwner { owner, selection, time } => plain_with(r, fb, w.owning(owner, selection, time)),
        Change::ConvertSelection { requestor, selection, target, property, time } => plain_with(
            r,
            fb,
            w.selection_converted(Convert { requestor, selection, target, property, time }),
        ),
        Change::SelectSelectionInput { window, selection, mask } => plain(
            r,
            fb,
            w.with_client((Select::Selection { atom: selection, window, mask }).applied()),
        ),
        Change::GetImage { x, y, width, height } => image_got(w, fb, x, y, width, height, r),
        Change::ShmAttach { shmseg, shmid } => {
            &&& r.world == w && r.framebuffer == fb && r.destroy == Seq::<DataOffer>::empty()
            &&& r.work == (Work::Attach { shmseg, shmid })
        },
        Change::ShmDetach { shmseg } => memory_detached(w, fb, shmseg, r),
        Change::ShmGetImage { x, y, width, height, shmseg, offset } => shared_image_got(w, fb, x, y, width, height, shmseg, offset, r),
        Change::FakeInput { kind, detail, x, y } => input_faked(w, fb, kind, detail, x, y, r),
        Change::AddOutputMode { output, mode } => plain(r, fb, w.with_screen(w.server.screen.listing(output, mode))),
        Change::DeleteOutputMode { output, mode } => plain(
            r,
            fb,
            w.with_screen(w.server.screen.delisting(output, mode)),
        ),
        Change::DestroyMode { mode } => plain(r, fb, w.with_screen(w.server.screen.without_mode(mode))),
        Change::SetCrtcConfig { crtc, x, y, mode } => crtc_changed(w, fb, crtc, x, y, mode, r),
        Change::SetScreenSize { width, height } => {
            let s = w.server.screen.of_size(width, height);
            pushed(r, fb, s, w.with_screen(s).screen_pushed())
        },
        Change::SelectRandr { window, enable } => plain(
            r,
            fb,
            w.with_client(Select::Randr(if enable & 1 == 1 { window } else { 0 }).applied()),
        ),
        Change::DamageCreate { damage, drawable, level } => plain(r, fb, w.damage_created(damage, drawable, level)),
        Change::DamageDestroy { damage } => plain(
            r,
            fb,
            World {
                server: ServerView {
                    damage: list::only(w.server.damage, damage::other_object(w.conn.id, damage)),
                    ..w.server
                },
                ..w
            },
        ),
        Change::DamageSubtract { damage, parts } => plain(r, fb, w.damage_subtracted(damage, parts)),
        Change::DestroyRegion { region } => plain(r, fb, w.with_regions(w.conn.regions.remove(region))),
        Change::CopyRegion { source, destination } => plain(
            r,
            fb,
            w.with_regions(w.conn.regions.insert(destination, xfixes::region(w.conn.regions, source))),
        ),
        Change::RegionExtents { source, destination } => plain(
            r,
            fb,
            w.with_regions(
                w.conn.regions.insert(
                    destination,
                    xfixes::extents_of(
                        xfixes::region(w.conn.regions, source),
                    ),
                ),
            ),
        ),
        Change::SetEventMask { window, mask } => mask_changed(w, fb, window, mask, r),
        Change::DestroyWindow { window } => window_gone(w, fb, window, r),
        Change::SelectCursorInput { window, mask } => plain(
            r,
            fb,
            w.with_client(Select::Cursor(if mask & 1 != 0 { window } else { 0 }).applied()),
        ),
    }
}

/// What a request does, of a world in which it has been received.
pub open spec fn handled(w: World, fb: Framebuffer, major: u8, minor: u8, q: Option<ParsedView>, r: After) -> bool {
    match q {
        None => {
            &&& r.world == w.erred(LENGTH_ERROR, major, minor)
            &&& r.framebuffer == fb && r.destroy == Seq::<DataOffer>::empty()
            &&& r.work is Malformed
        },
        Some(Request::Ask(ask)) => plain(r, fb, w.answered(answer::answer(w.conn, w.server, ask))),
        Some(Request::Change(c)) => changed(w, fb, c, r),
        Some(Request::InternAtom { only_if_exists, name }) => {
            let atoms = if only_if_exists {
                w.server.atoms
            } else {
                atom::interned(w.server.atoms, name)
            };
            plain(
                r,
                fb,
                World { server: ServerView { atoms, ..w.server }, ..w }.replied(
                    reply::word_bytes(atom::atom_of(atoms, name) as u32),
                ),
            )
        },
        Some(Request::QueryExtension { name }) => plain(
            r,
            fb,
            w.replied(answer::extension_reply(!w.server.config.nodamage, name)),
        ),
        Some(Request::QueryColors { pixels }) => plain(
            r,
            fb,
            w.answered(
                if pixels.len() <= 0xffff {
                    Some(reply::query_colors_bytes(pixels))
                } else {
                    None
                },
            ),
        ),
        Some(Request::ChangeProperty { mode, window, property, type_, format, data }) => plain_with(
            r,
            fb,
            w.property_changed(minor, mode, window, property, type_, format, data),
        ),
        Some(Request::SendEvent { event }) => plain_with(r, fb, w.event_received(event)),
        Some(Request::CreateMode { info, name }) => plain(r, fb, w.mode_created(info, name)),
        Some(Request::SetRegion { region, rectangles }) => plain(
            r,
            fb,
            w.with_regions(w.conn.regions.insert(region, rectangles)),
        ),
        Some(Request::NoAutoRepeat) => {
            &&& r.world == w && r.framebuffer == fb && r.destroy == Seq::<DataOffer>::empty()
            &&& r.work is NoAutoRepeat
        },
        Some(Request::Nothing) => plain(r, fb, w),
        // anything not handled fails, with an error in place of a reply so that the client
        // does not hang
        Some(Request::Unknown) => {
            &&& r.world == w.erred(IMPLEMENTATION_ERROR, major, minor)
            &&& r.framebuffer == fb && r.destroy == Seq::<DataOffer>::empty()
            &&& r.work is Unimplemented
        },
    }
}

/// What came out of a request that left the connection, the server and the work so.
pub open spec fn after(conn: Connection, server: Server, t: Todo) -> After {
    After { world: conn.world(server), framebuffer: server.framebuffer, work: t.work, destroy: t.destroy@ }
}

/// Nothing is left to be done.
fn nothing() -> (t: Todo)
    ensures
        t.work is Nothing,
        t.destroy@ == Seq::<DataOffer>::empty(),
{
    Todo { work: Work::Nothing, destroy: Vec::new() }
}

/// So much is left to be done.
fn work(w: Work) -> (t: Todo)
    ensures
        t.work == w,
        t.destroy@ == Seq::<DataOffer>::empty(),
{
    Todo { work: w, destroy: Vec::new() }
}

/// Offers are left to be destroyed.
fn offers(destroy: Vec<DataOffer>) -> (t: Todo)
    ensures
        t.work is Nothing,
        t.destroy@ == destroy@,
{
    Todo { work: Work::Nothing, destroy }
}

impl Connection {
    /// Sets something of the client's.
    fn select(&mut self, server: &mut Server, s: Select)
        requires
            old(server).wf(),
        ensures
            final(server).wf(),
            final(server).framebuffer == old(server).framebuffer,
            *final(self) == *old(self),
            final(self).world(*final(server)) == old(self).world(*old(server)).with_client(s.applied()),
    {
        match server.events.client_mut(self.id) {
            Some(c) => {
                match s {
                    Select::Request(seq) => {
                        c.set_seq(seq);
                    },
                    Select::Randr(window) => {
                        c.select_randr(window);
                    },
                    Select::Cursor(window) => {
                        c.select_cursor(window);
                    },
                    Select::RootStructure(enable) => {
                        c.select_root_structure(enable);
                    },
                    Select::Selection { atom, window, mask } => {
                        c.select_selection(atom, window, mask);
                    },
                    Select::Forget(window) => {
                        c.forget_window(window);
                    },
                }
            },
            None => {},
        }
    }

    /// `ChangeProperty`.
    fn change_property(
        &mut self,
        server: &mut Server,
        minor: u8,
        mode: u8,
        window: u32,
        property: u32,
        type_: u32,
        format: u8,
        data: Vec<u8>,
    ) -> (t: Todo)
        requires
            old(server).wf(),
        ensures
            final(server).wf(),
            plain_with(
                after(*final(self), *final(server), t),
                old(server).framebuffer,
                old(self).world(*old(server)).property_changed(minor, mode, window, property, type_, format, data@),
            ),
    {
        proof {
            reveal(World::property_changed);
        }
        // INCR receive: the selection owner is feeding a large value in chunks onto our
        // fetch window
        if self.selection.incr_chunk(window, property) {
            return offers(self.receive_chunk(server, property, data));
        }
        let mut all: Vec<u8> = data;
        let ghost added = all@;
        if mode != REPLACE {
            match self.properties.get(window, property) {
                Some(before) => {
                    if before.type_ != type_ || before.format != format {
                        self.send_error(server, MATCH_ERROR, 18, minor);
                        return nothing();
                    }
                    if mode == APPEND {
                        let mut joined = list::copy_bytes(before.data.as_slice());
                        list::append_bytes(&mut joined, all.as_slice());
                        all = joined;
                    } else {
                        list::append_bytes(&mut all, before.data.as_slice());
                    }
                },
                None => {},
            }
        }
        self.properties.set(window, property, Property { type_, format, data: all });
        self.property_notify(server, window, property, false);
        nothing()
    }

    /// Builds the `GetProperty` reply, and whether the property was deleted as a result
    /// (`delete` set and the whole remainder returned), in which case the caller sends
    /// the PropertyNotify.
    fn get_property(&mut self, r: Read) -> (out: (Option<Vec<u8>>, bool))
        ensures
            ({
                let k = (r.window, r.property);
                let p = if old(self)@.properties.dom().contains(k) {
                    Some(old(self)@.properties[k])
                } else {
                    None
                };
                &&& (answer::bytes_view(out.0), out.1) == property_reply(p, r)
                &&& final(self)@ == if out.1 {
                    (ConnView { properties: old(self)@.properties.remove(k), ..old(self)@ })
                } else {
                    old(self)@
                }
            }),
    {
        let none: Vec<u8> = Vec::new();
        assert(none@ =~= Seq::empty());
        let (b, deleted): (Option<Vec<u8>>, bool) = match self.properties.get(r.window, r.property) {
            None => (Some(reply::property(0, 0, 0, 0, none.as_slice())), false),
            Some(p) => {
                let len: usize = p.data.len();
                if r.type_ != 0 && r.type_ != p.type_ {
                    let left: u32 = (len as u64 % 0x1_0000_0000) as u32;
                    (Some(reply::property(p.format, p.type_, left, 0, none.as_slice())), false)
                } else {
                    let unit: usize = if p.format / 8 > 1 { (p.format / 8) as usize } else { 1 };
                    let start: usize = if r.long_offset as u64 * 4 < len as u64 {
                        (r.long_offset as u64 * 4) as usize
                    } else {
                        len
                    };
                    let room: usize = len - start;
                    let most: usize = if r.long_length as u64 * 4 < room as u64 {
                        (r.long_length as u64 * 4) as usize
                    } else {
                        room
                    };
                    // align to the property unit size
                    assert(0 <= most % unit <= most) by (nonlinear_arith)
                        requires
                            unit >= 1,
                            most >= 0,
                    ;
                    let want: usize = most - most % unit;
                    assert(want as int == part_of(len as int, p.format, r.long_offset, r.long_length).1);
                    let left: u32 = ((room - want) as u64 % 0x1_0000_0000) as u32;
                    let items: usize = want / unit;
                    proof {
                        let u = unit as int;
                        let n = items as int;
                        let f = (p.format / 8) as int;
                        assert(0 <= n * f <= want as int) by (nonlinear_arith)
                            requires
                                0 <= f <= u,
                                u >= 1,
                                n == want as int / u,
                                want >= 0,
                        ;
                    }
                    let fits = want as u64 <= u32::MAX as u64 && want == items * (p.format / 8) as usize;
                    let b = if fits {
                        let value = list::copy_range(p.data.as_slice(), start, start + want);
                        proof {
                            assert(items <= want) by (nonlinear_arith)
                                requires
                                    items == want / unit,
                                    unit >= 1,
                                    want >= 0,
                            ;
                        }
                        Some(reply::property(p.format, p.type_, left, items as u32, value.as_slice()))
                    } else {
                        None
                    };
                    (b, r.delete && left == 0)
                }
            },
        };
        if deleted {
            self.properties.remove(r.window, r.property);
        }
        (b, deleted)
    }

    fn read_property(&mut self, server: &mut Server, r: Read) -> (t: Todo)
        requires
            old(server).wf(),
        ensures
            final(server).wf(),
            plain(
                after(*final(self), *final(server), t),
                old(server).framebuffer,
                old(self).world(*old(server)).property_read(r),
            ),
    {
        proof {
            reveal(World::property_read);
        }
        let (b, deleted) = self.get_property(r);
        self.answer(server, b);
        if deleted {
            self.property_notify(server, r.window, r.property, true);
        }
        nothing()
    }

    fn list_properties(&mut self, server: &mut Server, window: u32) -> (t: Todo)
        requires
            old(server).wf(),
        ensures
            final(server).wf(),
            properties_listed(
                old(self).world(*old(server)),
                old(server).framebuffer,
                window,
                after(*final(self), *final(server), t),
            ),
    {
        proof {
            reveal(properties_listed);
        }
        let ghost w0 = self.world(*server);
        let atoms = self.properties.list(window);
        assert(lists_properties(w0.conn, window, atoms@));
        let b = if atoms.len() <= 0xffff {
            Some(reply::atoms(&atoms))
        } else {
            None
        };
        self.answer(server, b);
        nothing()
    }

    fn get_image(&mut self, server: &mut Server, x: i16, y: i16, width: u16, height: u16) -> (t: Todo)
        requires
            old(server).wf(),
        ensures
            final(server).wf(),
            image_got(
                old(self).world(*old(server)),
                old(server).framebuffer,
                x,
                y,
                width,
                height,
                after(*final(self), *final(server), t),
            ),
    {
        proof {
            reveal(image_got);
        }
        let ghost fb = server.framebuffer;
        assert(0 <= width * 4 * height <= 0x4_0000_0000) by (nonlinear_arith)
            requires
                0 <= width <= 0xffff,
                0 <= height <= 0xffff,
        ;
        assert(width * 4 * height == width * height * 4) by (nonlinear_arith);
        if width as u64 * 4 * height as u64 > usize::MAX as u64 {
            self.broken = true;
            return nothing();
        }
        let now: u64 = server.clock.elapsed_ms;
        let data = server.framebuffer.read_rect(x as i32, y as i32, width as u32, height as u32, now);
        proof {
            lemma_reading_sees_the_screen(fb, server.framebuffer, x, y, width, height, data@);
        }
        let bytes: usize = data.len();
        let b = reply::image(&data);
        self.reply(server, b);
        if width == 0 {
            return nothing();
        }
        work(Work::Read { bytes })
    }

    fn shm_image(&mut self, server: &mut Server, x: i16, y: i16, width: u16, height: u16, shmseg: u32, offset: u32) -> (t:
        Todo)
        requires
            old(server).wf(),
        ensures
            final(server).wf(),
            shared_image_got(
                old(self).world(*old(server)),
                old(server).framebuffer,
                x,
                y,
                width,
                height,
                shmseg,
                offset,
                after(*final(self), *final(server), t),
            ),
    {
        proof {
            reveal(shared_image_got);
        }
        if let Some(seg) = self.shm.segment(shmseg) {
            let (start, len) = mit_shm::image_span(seg, offset, width, height);
            if len > 0 {
                return work(Work::Image { shmseg, start, len, x, y, width, height });
            }
        }
        self.image_read(server, width, height);
        nothing()
    }

    /// Answers a `ShmGetImage` whose pixels have been read.
    pub fn image_read(&mut self, server: &mut Server, width: u16, height: u16)
        requires
            old(server).wf(),
        ensures
            final(server).wf(),
            final(server).framebuffer == old(server).framebuffer,
            final(self).world(*final(server)) == old(self).world(*old(server)).image_told(width, height),
    {
        proof {
            reveal(World::image_told);
        }
        assert(0 <= width * height <= 0xfffe_0001) by (nonlinear_arith)
            requires
                0 <= width <= 0xffff,
                0 <= height <= 0xffff,
        ;
        let size: u32 = (width as u64 * height as u64 * 4 % 0x1_0000_0000) as u32;
        let b = reply::shm_image(size);
        self.reply(server, b);
    }

    /// Records shared memory that was attached.
    pub fn attached(&mut self, shmseg: u32, size: usize)
        ensures
            final(self)@ == (ConnView { shm: old(self)@.shm.insert(shmseg, mit_shm::ShmSeg { size }), ..old(self)@ }),
    {
        self.shm.attach(shmseg, size);
    }

    fn fake_input(&mut self, server: &mut Server, kind: u8, detail: u8, x: i16, y: i16) -> (t: Todo)
        requires
            old(server).wf(),
        ensures
            final(server).wf(),
            input_faked(
                old(self).world(*old(server)),
                old(server).framebuffer,
                kind,
                detail,
                x,
                y,
                after(*final(self), *final(server), t),
            ),
    {
        proof {
            reveal(input_faked);
        }
        if !server.input.accepts(kind, detail, x, y) {
            self.broken = true;
            return nothing();
        }
        if server.input.strikes(kind) {
            return work(Work::Key { kind, keycode: detail });
        }
        work(Work::Input(server.input.fake_input(kind, detail, x, y, None)))
    }

    fn create_mode(&mut self, server: &mut Server, info: ModeInfo, name: Vec<u8>) -> (t: Todo)
        requires
            old(server).wf(),
        ensures
            final(server).wf(),
            plain(
                after(*final(self), *final(server), t),
                old(server).framebuffer,
                old(self).world(*old(server)).mode_created(info, name@),
            ),
    {
        proof {
            reveal(World::mode_created);
        }
        if server.screen.next_id == u32::MAX {
            self.broken = true;
            return nothing();
        }
        let id: u32 = server.screen.create_mode(info, name);
        self.reply(server, reply::create_mode(id));
        nothing()
    }

    fn set_crtc(&mut self, server: &mut Server, crtc: u32, x: i16, y: i16, mode: u32) -> (t: Todo)
        requires
            old(server).wf(),
        ensures
            final(server).wf(),
            crtc_changed(
                old(self).world(*old(server)),
                old(server).framebuffer,
                crtc,
                x,
                y,
                mode,
                after(*final(self), *final(server), t),
            ),
    {
        proof {
            reveal(crtc_changed);
            reveal(World::crtc_configured);
            reveal(World::screen_pushed);
        }
        let ghost w0 = self.world(*server);
        if server.dynres.available() && mode != 0 {
            if let Some(o) = server.screen.output_by_crtc(crtc) {
                if let Some((width, height)) = server.screen.mode_size(mode) {
                    if o.wl_name != 0 && (width != o.width || height != o.height) {
                        return work(
                            Work::ChangeMode(ModeChange { wl_name: o.wl_name, width, height, crtc, mode }),
                        );
                    }
                }
            }
        }
        server.screen.set_crtc(crtc, x, y, mode);
        let ghost s1 = crtc_set(w0.server.screen, crtc, x, y, mode);
        proof {
            list::lemma_first_index(w0.server.screen.outputs, randr::crtc_is(crtc));
        }
        assert(server@.screen == s1);
        let timestamp: u32 = server.screen.timestamp;
        server.sync_screen(true);
        self.reply(server, reply::set_crtc(reply::SUCCESS, timestamp));
        nothing()
    }

    /// Answers a `SetCrtcConfig` whose mode the compositor was asked for.
    pub fn mode_changed(&mut self, server: &mut Server, change: ModeChange, changed: bool)
        requires
            old(server).wf(),
        ensures
            final(server).wf(),
            final(self).world(*final(server)) == old(self).world(*old(server)).mode_settled(change, changed),
            if !changed && old(server)@.screen.next_id + old(server)@.screen.outputs.len() > u32::MAX {
                final(server).framebuffer == old(server).framebuffer
            } else {
                let s = if changed {
                    old(server)@.screen.adopted(change.crtc, change.mode)
                } else {
                    old(server)@.screen.restored()
                };
                server::resized(old(server).framebuffer, final(server).framebuffer, s.width, s.height)
            },
    {
        proof {
            reveal(World::mode_settled);
            reveal(World::screen_pushed);
        }
        if changed {
            server.screen.adopt_mode(change.crtc, change.mode);
        } else {
            if server.screen.outputs.len() as u64 > (u32::MAX - server.screen.next_id) as u64 {
                self.broken = true;
                return ;
            }
            server.screen.restore_outputs();
        }
        let timestamp: u32 = server.screen.timestamp;
        server.sync_screen(true);
        let status: u8 = if changed { reply::SUCCESS } else { reply::FAILED };
        self.reply(server, reply::set_crtc(status, timestamp));
    }

    fn subtract_damage(&mut self, server: &mut Server, damage: u32, parts: u32)
        requires
            old(server).wf(),
        ensures
            final(server).wf(),
            final(server).framebuffer == old(server).framebuffer,
            final(self).world(*final(server)) == old(self).world(*old(server)).damage_subtracted(damage, parts),
    {
        proof {
            reveal(World::damage_subtracted);
        }
        profile::damage_subtract(&mut server.profile);
        let rects = server.damage.subtract(self.id, damage);
        assert(rects@.len() == 0 ==> rects@ =~= Seq::empty());
        if parts != 0 {
            self.regions.set(parts, rects);
        }
    }

    fn destroy_window(&mut self, server: &mut Server, window: u32) -> (t: Todo)
        requires
            old(server).wf(),
        ensures
            final(server).wf(),
            window_gone(
                old(self).world(*old(server)),
                old(server).framebuffer,
                window,
                after(*final(self), *final(server), t),
            ),
    {
        proof {
            reveal(window_gone);
            reveal(World::window_destroyed);
            reveal(World::watcher_told);
        }
        let ghost w0 = self.world(*server);
        let ghost fb = server.framebuffer;
        self.windows.remove(window);
        self.select(server, Select::Forget(window));
        let gone = self.selection.forget_window(window);
        assert(w0.owned_by(window, gone@)) by {
            assert forall|a: u32, t: u32| #[trigger] gone@.contains((a, t)) <==> w0.conn.selection.owners.dom().contains(a)
                && w0.conn.selection.owners[a].window == window && w0.conn.selection.owners[a].last_changed == t by {
                assert(gone@.contains((a, t)) <==> w0.conn.selection.owners.dom().contains(a)
                    && w0.conn.selection.owners[a] == (crate::bridge::x11::selection::Owner { window, last_changed: t }));
            }
        }
        let ghost w1 = self.world(*server);
        let now: u32 = time::server_time_ms(&server.clock);
        let mut i: usize = 0;
        assert(gone@.take(0) =~= Seq::empty());
        while i < gone.len()
            invariant
                i <= gone.len(),
                server.wf(),
                server.framebuffer == fb,
                now == w1.server.clock.now(),
                self.world(*server) == w1.releases_told(gone@.take(i as int)),
            decreases gone.len() - i,
        {
            assert(gone@.take(i as int + 1).drop_last() =~= gone@.take(i as int));
            let (atom, last) = gone[i];
            proof {
                reveal(World::watcher_told);
                lemma_releases_keep(w1, gone@.take(i as int));
            }
            server.events.tell(
                self.id,
                atom,
                Notify {
                    subtype: SelectionEvent::SelectionWindowDestroy,
                    owner: 0,
                    timestamp: now,
                    selection_timestamp: last,
                },
            );
            i += 1;
        }
        assert(gone@.take(i as int) =~= gone@);
        offers(self.give_up_both(server, Some(window), SelectionEvent::SelectionWindowDestroy))
    }

    fn set_event_mask(&mut self, server: &mut Server, window: u32, mask: u32) -> (t: Todo)
        requires
            old(server).wf(),
        ensures
            final(server).wf(),
            mask_changed(
                old(self).world(*old(server)),
                old(server).framebuffer,
                window,
                mask,
                after(*final(self), *final(server), t),
            ),
    {
        proof {
            reveal(mask_changed);
            reveal(World::mask_selected);
        }
        self.windows.set_mask(window, mask);
        if window == ROOT_WINDOW {
            self.select(server, Select::RootStructure(mask & STRUCTURE_NOTIFY == STRUCTURE_NOTIFY));
        }
        let unsupported: u32 = self.windows.warn_unsupported(mask);
        if unsupported != 0 {
            work(Work::Unsupported(unsupported))
        } else {
            nothing()
        }
    }

    /// Carries out a request that changes something.
    fn change(&mut self, server: &mut Server, c: Change) -> (t: Todo)
        requires
            old(server).wf(),
        ensures
            final(server).wf(),
            changed(
                old(self).world(*old(server)),
                old(server).framebuffer,
                c,
                after(*final(self), *final(server), t),
            ),
    {
        proof {
            reveal(changed);
        }
        match c {
            Change::DeleteProperty { window, property } => {
                self.properties.remove(window, property);
                self.property_notify(server, window, property, true);
                nothing()
            },
            Change::GetProperty { delete, window, property, type_, long_offset, long_length } => self.read_property(
                server,
                Read { delete, window, property, type_, long_offset, long_length },
            ),
            Change::ListProperties { window } => self.list_properties(server, window),
            Change::SetSelectionOwner { owner, selection, time } => offers(
                self.set_selection_owner(server, owner, selection, time),
            ),
            Change::ConvertSelection { requestor, selection, target, property, time } => offers(
                self.convert_selection(server, Convert { requestor, selection, target, property, time }),
            ),
            Change::SelectSelectionInput { window, selection, mask } => {
                self.select(server, Select::Selection { atom: selection, window, mask });
                nothing()
            },
            Change::GetImage { x, y, width, height } => self.get_image(server, x, y, width, height),
            Change::ShmAttach { shmseg, shmid } => work(Work::Attach { shmseg, shmid }),
            Change::ShmDetach { shmseg } => {
                reveal(memory_detached);
                if self.shm.detach(shmseg) {
                    work(Work::Detach { shmseg })
                } else {
                    nothing()
                }
            },
            Change::ShmGetImage { x, y, width, height, shmseg, offset } => self.shm_image(
                server,
                x,
                y,
                width,
                height,
                shmseg,
                offset,
            ),
            Change::FakeInput { kind, detail, x, y } => self.fake_input(server, kind, detail, x, y),
            Change::AddOutputMode { output, mode } => {
                server.screen.add_output_mode(output, mode);
                nothing()
            },
            Change::DeleteOutputMode { output, mode } => {
                server.screen.delete_output_mode(output, mode);
                nothing()
            },
            Change::DestroyMode { mode } => {
                server.screen.destroy_mode(mode);
                nothing()
            },
            Change::SetCrtcConfig { crtc, x, y, mode } => self.set_crtc(server, crtc, x, y, mode),
            Change::SetScreenSize { width, height } => {
                reveal(World::screen_pushed);
                server.screen.set_size(width, height);
                server.sync_screen(true);
                nothing()
            },
            Change::SelectRandr { window, enable } => {
                self.select(server, Select::Randr(if enable & 1 == 1 { window } else { 0 }));
                nothing()
            },
            Change::DamageCreate { damage, drawable, level } => {
                reveal(World::damage_created);
                if server.config.damage() {
                    profile::damage_create(&mut server.profile);
                    let _ = server.damage.create(self.id, damage, drawable, level, &server.events);
                }
                nothing()
            },
            Change::DamageDestroy { damage } => {
                server.damage.destroy(self.id, damage);
                nothing()
            },
            Change::DamageSubtract { damage, parts } => {
                self.subtract_damage(server, damage, parts);
                nothing()
            },
            Change::DestroyRegion { region } => {
                self.regions.destroy(region);
                nothing()
            },
            Change::CopyRegion { source, destination } => {
                self.regions.copy(source, destination);
                nothing()
            },
            Change::RegionExtents { source, destination } => {
                self.regions.extents(source, destination);
                nothing()
            },
            Change::SetEventMask { window, mask } => self.set_event_mask(server, window, mask),
            Change::DestroyWindow { window } => self.destroy_window(server, window),
            Change::SelectCursorInput { window, mask } => {
                self.select(server, Select::Cursor(if mask & 1 != 0 { window } else { 0 }));
                nothing()
            },
        }
    }

    /// Carries out one request, if the protocol's grammar admits it.
    pub fn dispatch(&mut self, server: &mut Server, raw: &RawRequest) -> (t: Todo)
        requires
            old(server).wf(),
        ensures
            final(server).wf(),
            handled(
                old(self).world(*old(server)).received(),
                old(server).framebuffer,
                raw.major_opcode,
                raw.minor_opcode,
                if request::admitted(raw.major_opcode, raw.minor_opcode, raw.remaining_length, raw.body@) {
                    request::request(raw.major_opcode, raw.minor_opcode, raw.body@)
                } else {
                    None
                },
                after(*final(self), *final(server), t),
            ),
    {
        self.carry_out(server, raw, raw.well_formed())
    }

    /// Carries out one request. A request that the protocol's grammar does not admit
    /// (`well_formed` is false), or whose body does not hold it, is answered with
    /// BadLength: without some reply a client waiting on one hangs forever.
    pub fn carry_out(&mut self, server: &mut Server, raw: &RawRequest, well_formed: bool) -> (t: Todo)
        requires
            old(server).wf(),
        ensures
            final(server).wf(),
            handled(
                old(self).world(*old(server)).received(),
                old(server).framebuffer,
                raw.major_opcode,
                raw.minor_opcode,
                if well_formed {
                    request::request(raw.major_opcode, raw.minor_opcode, raw.body@)
                } else {
                    None
                },
                after(*final(self), *final(server), t),
            ),
    {
        proof {
            reveal(World::received);
        }
        let (major, minor): (u8, u8) = (raw.major_opcode, raw.minor_opcode);
        self.seq = self.seq.wrapping_add(1);
        self.select(server, Select::Request(self.seq));
        let parsed = if well_formed {
            request::parse(major, minor, raw.body.as_slice())
        } else {
            None
        };
        let q = match parsed {
            Some(q) => q,
            None => {
                self.send_error(server, LENGTH_ERROR, major, minor);
                return work(Work::Malformed);
            },
        };
        match q {
            Request::Ask(ask) => {
                let b = answer::reply_to(self, server, ask);
                self.answer(server, b);
                nothing()
            },
            Request::Change(c) => self.change(server, c),
            Request::InternAtom { only_if_exists, name } => {
                let id: u32 = server.atoms.intern(name.as_slice(), only_if_exists);
                self.reply(server, reply::word(id));
                nothing()
            },
            Request::QueryExtension { name } => {
                let b = answer::query_extension(server, name.as_slice());
                self.reply(server, b);
                nothing()
            },
            Request::QueryColors { pixels } => {
                let b = if pixels.len() <= 0xffff {
                    Some(reply::query_colors(&pixels))
                } else {
                    None
                };
                self.answer(server, b);
                nothing()
            },
            Request::ChangeProperty { mode, window, property, type_, format, data } => {
                assert(raw.major_opcode == 18) by {
                    lemma_only_18_changes_properties(major, minor, raw.body@);
                }
                self.change_property(server, minor, mode, window, property, type_, format, data)
            },
            Request::SendEvent { event } => {
                assert(event@.len() == 32) by {
                    lemma_events_are_32_bytes(major, minor, raw.body@);
                }
                offers(self.handle_send_event(server, event.as_slice()))
            },
            Request::CreateMode { info, name } => self.create_mode(server, info, name),
            Request::SetRegion { region, rectangles } => {
                self.regions.set(region, rectangles);
                nothing()
            },
            Request::NoAutoRepeat => work(Work::NoAutoRepeat),
            Request::Nothing => nothing(),
            Request::Unknown => {
                self.send_error(server, IMPLEMENTATION_ERROR, major, minor);
                work(Work::Unimplemented)
            },
        }
    }

    /// Ends the connection: whatever is queued still goes out, and what the client owned
    /// is given up. Returns the offers that are left to be destroyed.
    pub fn close(&mut self, server: &mut Server) -> (destroy: Vec<DataOffer>)
        requires
            old(server).wf(),
        ensures
            final(server).wf(),
            final(server).framebuffer == old(server).framebuffer,
            (final(self).world(*final(server)), destroy@) == old(self).world(*old(server)).with_client(
                |c: ClientView| ClientView { closed: true, dead: true, ..c },
            ).owners_gone(None, SelectionEvent::SelectionClientClose),
    {
        match server.events.client_mut(self.id) {
            Some(c) => {
                c.close();
            },
            None => {},
        }
        self.give_up_both(server, None, SelectionEvent::SelectionClientClose)
    }
}

/// What a client selects.
#[derive(Clone, Copy, PartialEq, Eq, Structural, Debug)]
pub enum Select {
    Request(u16),
    Randr(u32),
    Cursor(u32),
    RootStructure(bool),
    Selection { atom: u32, window: u32, mask: u32 },
    Forget(u32),
}

impl Select {
    /// What selecting it makes of a client.
    pub open spec fn applied(self) -> spec_fn(ClientView) -> ClientView {
        match self {
            Select::Request(seq) => |c: ClientView| ClientView { seq, ..c },
            Select::Randr(window) => |c: ClientView| ClientView { randr_window: window, ..c },
            Select::Cursor(window) => |c: ClientView| ClientView { cursor_window: window, ..c },
            Select::RootStructure(enable) => |c: ClientView| ClientView { root_structure: enable, ..c },
            Select::Selection { atom, window, mask } => client::watching_from(atom, window, mask),
            Select::Forget(window) => |c: ClientView|
                ClientView { selections: list::only(c.selections, client::not_window(window)), ..c },
        }
    }
}

/// Telling of releases leaves the connection's number, and the clock, as they are.
proof fn lemma_releases_keep(w: World, gone: Seq<(u32, u32)>)
    ensures
        w.releases_told(gone).conn == w.conn,
        w.releases_told(gone).server.clock == w.server.clock,
    decreases gone.len(),
{
    reveal(World::watcher_told);
    if gone.len() > 0 {
        lemma_releases_keep(w, gone.drop_last());
    }
}

/// What is read of the screen is what was there before it was read.
proof fn lemma_reading_sees_the_screen(
    before: Framebuffer,
    after: Framebuffer,
    x: i16,
    y: i16,
    width: u16,
    height: u16,
    data: Seq<u8>,
)
    requires
        after.same_screen(before),
        holds_image(after, x, y, width, height, data),
    ensures
        holds_image(before, x, y, width, height, data),
{
    assert forall|row: int, col: int, c: int|
        0 <= row < height && 0 <= col < width && 0 <= c < 4 implies #[trigger] data[crate::bridge::capture::pixel_index(
        row,
        col,
        width as int,
    ) * 4 + c] == before.seen(x + col, y + row, c) by {
        assert(after.seen(x + col, y + row, c) == before.seen(x + col, y + row, c));
    }
}

proof fn lemma_only_18_changes_properties(major: u8, minor: u8, b: Seq<u8>)
    ensures
        request::request(major, minor, b) matches Some(Request::ChangeProperty { .. }) ==> major == 18,
{
    reveal(request::request);
}

proof fn lemma_events_are_32_bytes(major: u8, minor: u8, b: Seq<u8>)
    ensures
        request::request(major, minor, b) matches Some(Request::SendEvent { event }) ==> event.len() == 32,
{
    reveal(request::request);
}

/// A property of a format that there is, read whole, gives back what it holds.
pub proof fn law_property_reads_back(p: PropertyView, r: Read)
    requires
        p.format == 8 || p.format == 16 || p.format == 32,
        p.data.len() % (p.format / 8) as nat == 0,
        p.data.len() <= u32::MAX,
        r.type_ == 0 || r.type_ == p.type_,
        r.long_offset == 0,
        r.long_length * 4 >= p.data.len(),
    ensures
        property_reply(Some(p), r) == (
            Some(
                reply::property_bytes(
                    p.format,
                    p.type_,
                    0,
                    (p.data.len() as int / unit_of(p.format)) as u32,
                    p.data,
                ),
            ),
            r.delete,
        ),
{
    let n = p.data.len() as int;
    let (start, want) = part_of(n, p.format, r.long_offset, r.long_length);
    assert(start == 0 && want == n);
    assert(p.data.subrange(0, n) =~= p.data);
    if p.format == 16 {
        assert(n == n / 2 * 2);
    } else if p.format == 32 {
        assert(n == n / 4 * 4);
    }
}

/// A property that is read in parts, each where the one before ended, is read without
/// gaps and without overlaps.
pub proof fn law_parts_of_a_property_join(len: int, format: u8, offset: u32, length: u32)
    requires
        format == 8 || format == 16 || format == 32,
        0 <= len,
        offset * 4 + length * 4 <= len,
    ensures
        part_of(len, format, offset, length) == (offset * 4, length * 4),
{
}

/// A request whose body does not hold it changes nothing but for the error that the
/// client gets.
pub proof fn law_malformed_requests_only_get_an_error(w: World, fb: Framebuffer, major: u8, minor: u8, r: After)
    requires
        handled(w, fb, major, minor, None, r),
    ensures
        r.world.conn == (ConnView { broken: r.world.conn.broken, ..w.conn }),
        r.world.server == (ServerView { events: r.world.server.events, ..w.server }),
        r.framebuffer == fb,
{
    reveal(World::sent);
}

/// A query changes nothing but for the reply that the client gets.
pub proof fn law_queries_change_nothing(w: World, fb: Framebuffer, major: u8, minor: u8, ask: Ask, r: After)
    requires
        handled(w, fb, major, minor, Some(Request::Ask(ask)), r),
    ensures
        r.world.conn == (ConnView { broken: r.world.conn.broken, ..w.conn }),
        r.world.server == (ServerView { events: r.world.server.events, ..w.server }),
        r.framebuffer == fb,
{
    reveal(World::sent);
}

/// A property that a client sets holds what it was set to. One that it appends to holds
/// that behind what it held, one that it prepends to in front of it. No other property
/// changes.
pub proof fn law_changed_property_holds_the_data(
    w: World,
    fb: Framebuffer,
    minor: u8,
    mode: u8,
    window: u32,
    property: u32,
    type_: u32,
    format: u8,
    data: Seq<u8>,
    r: After,
    other: (u32, u32),
)
    requires
        handled(
            w,
            fb,
            18,
            minor,
            Some(Request::ChangeProperty { mode, window, property, type_, format, data }),
            r,
        ),
        !w.conn.selection.is_chunk(window, property),
        other != (window, property),
    ensures
        ({
            let k = (window, property);
            let before = w.conn.properties;
            let after = r.world.conn.properties;
            &&& mode == 0 || !before.dom().contains(k) ==> after.dom().contains(k) && after[k] == (PropertyView {
                type_,
                format,
                data,
            })
            &&& mode == 2 && before.dom().contains(k) && before[k].type_ == type_ && before[k].format == format
                ==> after.dom().contains(k) && after[k] == (PropertyView { type_, format, data: before[k].data + data })
            &&& mode == 1 && before.dom().contains(k) && before[k].type_ == type_ && before[k].format == format
                ==> after.dom().contains(k) && after[k] == (PropertyView { type_, format, data: data + before[k].data })
            &&& mode != 0 && before.dom().contains(k) && (before[k].type_ != type_ || before[k].format != format)
                ==> after == before
            &&& after.dom().contains(other) == before.dom().contains(other)
            &&& before.dom().contains(other) ==> after[other] == before[other]
        }),
{
    reveal(World::property_changed);
    reveal(World::property_notified);
    reveal(World::notified);
    reveal(World::sent);
}

/// A property that a client deletes is gone, and no other.
pub proof fn law_deleted_property_is_gone(
    w: World,
    fb: Framebuffer,
    minor: u8,
    window: u32,
    property: u32,
    r: After,
    other: (u32, u32),
)
    requires
        handled(w, fb, 19, minor, Some(Request::Change(Change::DeleteProperty { window, property })), r),
        other != (window, property),
    ensures
        !r.world.conn.properties.dom().contains((window, property)),
        r.world.conn.properties.dom().contains(other) == w.conn.properties.dom().contains(other),
        w.conn.properties.dom().contains(other) ==> r.world.conn.properties[other] == w.conn.properties[other],
{
    reveal(changed);
    reveal(World::property_notified);
    reveal(World::notified);
}

/// A part of a property is the items from its offset on, as many as fit the length that
/// was asked for, and what is left behind it is counted. Offset and length are in units of
/// four bytes.
#[verifier::spinoff_prover]
#[verifier::rlimit(80)]
pub proof fn law_property_is_read_from_its_offset(p: PropertyView, r: Read)
    requires
        p.format == 8 || p.format == 16 || p.format == 32,
        p.data.len() <= u32::MAX,
        r.type_ == 0 || r.type_ == p.type_,
        r.long_offset * 4 + r.long_length * 4 <= p.data.len(),
    ensures
        ({
            let from = r.long_offset * 4;
            let to = from + r.long_length * 4;
            property_reply(Some(p), r).0 matches Some(b) && {
                &&& b[1] == p.format
                &&& wire::u32_at(b, 8) == p.type_
                &&& wire::u32_at(b, 12) == p.data.len() - to
                &&& p.format == 8 ==> wire::u32_at(b, 16) == to - from
                &&& p.format == 16 ==> wire::u32_at(b, 16) * 2 == to - from
                &&& p.format == 32 ==> wire::u32_at(b, 16) * 4 == to - from
                &&& b.subrange(32, 32 + (to - from)) == p.data.subrange(from, to)
            }
        }),
        property_reply(Some(p), r).1 <==> r.delete && r.long_offset * 4 + r.long_length * 4 == p.data.len(),
{
    let n = p.data.len() as int;
    let from = r.long_offset * 4;
    let want = r.long_length * 4;
    let items = lemma_items(p.format, want);
    let after = n - from - want;
    let value = p.data.subrange(from, from + want);
    lemma_part_reply(p, r, items);
    lemma_reads_value(p.format, p.type_, after as u32, items as u32, value);
}

proof fn lemma_part_reply(p: PropertyView, r: Read, items: int)
    requires
        p.data.len() <= u32::MAX,
        r.type_ == 0 || r.type_ == p.type_,
        r.long_offset * 4 + r.long_length * 4 <= p.data.len(),
        items == (r.long_length * 4) / unit_of(p.format),
        r.long_length * 4 == items * (p.format as int / 8),
        (r.long_length * 4) % unit_of(p.format) == 0,
    ensures
        ({
            let from = r.long_offset * 4;
            let to = from + r.long_length * 4;
            property_reply(Some(p), r) == (
                Some(
                    reply::property_bytes(
                        p.format,
                        p.type_,
                        (p.data.len() - to) as u32,
                        items as u32,
                        p.data.subrange(from, to),
                    ),
                ),
                r.delete && p.data.len() == to,
            )
        }),
{
    let n = p.data.len() as int;
    let from = r.long_offset * 4;
    let want = r.long_length * 4;
    assert(part_of(n, p.format, r.long_offset, r.long_length) == (from, want));
    let after = n - from - want;
    assert(after % 0x1_0000_0000 == after);
}

proof fn lemma_items(format: u8, want: int) -> (items: int)
    requires
        format == 8 || format == 16 || format == 32,
        0 <= want,
        want % 4 == 0,
    ensures
        items == want / unit_of(format),
        want == items * (format as int / 8),
        format == 8 ==> items == want,
        format == 16 ==> items * 2 == want,
        format == 32 ==> items * 4 == want,
        want % unit_of(format) == 0,
{
    if format == 8 {
        assert(unit_of(8) == 1);
        assert(want / 1 == want && want % 1 == 0);
        want
    } else if format == 16 {
        assert(unit_of(16) == 2);
        assert(want % 2 == 0);
        want / 2
    } else {
        assert(unit_of(32) == 4);
        want / 4
    }
}

proof fn lemma_reads_value(format: u8, type_: u32, after: u32, items: u32, value: Seq<u8>)
    ensures
        ({
            let b = reply::property_bytes(format, type_, after, items, value);
            &&& b[1] == format
            &&& wire::u32_at(b, 8) == type_ && wire::u32_at(b, 12) == after && wire::u32_at(b, 16) == items
            &&& b.subrange(32, 32 + value.len() as int) == value
        }),
{
    reply::law_property_fields(format, type_, after, items, value);
}

/// A property of another type than the one that is asked for keeps its value to itself,
/// and stays.
pub proof fn law_property_of_another_type_is_not_read(p: PropertyView, r: Read)
    requires
        r.type_ != 0,
        r.type_ != p.type_,
        p.data.len() <= u32::MAX,
    ensures
        property_reply(Some(p), r).0 matches Some(b) && {
            &&& b[1] == p.format
            &&& wire::u32_at(b, 8) == p.type_
            &&& wire::u32_at(b, 12) == p.data.len()
            &&& wire::u32_at(b, 16) == 0
            &&& b.len() == 32
        },
        !property_reply(Some(p), r).1,
{
    reply::law_property_fields(p.format, p.type_, p.data.len() as u32, 0, Seq::empty());
}

/// The screen has the size that a client set, where it can have it.
pub proof fn law_screen_has_the_size_that_was_set(
    w: World,
    fb: Framebuffer,
    major: u8,
    minor: u8,
    width: u16,
    height: u16,
    r: After,
)
    requires
        handled(w, fb, major, minor, Some(Request::Change(Change::SetScreenSize { width, height })), r),
        1 <= width <= 16384,
        1 <= height <= 16384,
    ensures
        r.world.server.screen.width == width,
        r.world.server.screen.height == height,
        r.world.server.screen.outputs == w.server.screen.outputs,
        r.world.server.input.width == width,
        r.world.server.input.height == height,
{
    reveal(changed);
    reveal(World::screen_pushed);
}

/// The compositor is asked for a mode exactly where it can be, and drives the output at
/// another size than the mode's; it is then asked for the mode's.
pub proof fn law_compositor_is_asked_for_other_sizes(s: ServerView, i: int, m: int)
    requires
        0 <= i < s.screen.outputs.len(),
        forall|k: int| 0 <= k < i ==> (#[trigger] s.screen.outputs[k]).crtc_id != s.screen.outputs[i].crtc_id,
        0 <= m < s.screen.modes.len(),
        forall|k: int| 0 <= k < m ==> (#[trigger] s.screen.modes[k]).info.id != s.screen.modes[m].info.id,
        s.screen.modes[m].info.id != 0,
    ensures
        ({
            let o = s.screen.outputs[i];
            let mode = s.screen.modes[m].info;
            match needed_change(s, o.crtc_id, mode.id) {
                Some(c) => {
                    &&& s.dynres.available && o.wl_name != 0 && (o.width != mode.width || o.height != mode.height)
                    &&& c.wl_name == o.wl_name && c.crtc == o.crtc_id && c.mode == mode.id
                    &&& c.width == mode.width && c.height == mode.height
                },
                None => !s.dynres.available || o.wl_name == 0 || (o.width == mode.width && o.height == mode.height),
            }
        }),
{
    let o = s.screen.outputs[i];
    let id = s.screen.modes[m].info.id;
    assert forall|k: int| 0 <= k < i implies !randr::crtc_is(o.crtc_id)(#[trigger] s.screen.outputs[k]) by {
        assert(s.screen.outputs[k].crtc_id != o.crtc_id);
    }
    list::lemma_first_index_is(s.screen.outputs, randr::crtc_is(o.crtc_id), i);
    assert forall|k: int| 0 <= k < m implies !randr::mode_is(id)(#[trigger] s.screen.modes[k]) by {
        assert(s.screen.modes[k].info.id != id);
    }
    list::lemma_first_index_is(s.screen.modes, randr::mode_is(id), m);
}

/// A damage object that is made is the client's, on the drawable and at the level that it
/// asked for, and has no damage yet.
pub proof fn law_damage_object_is_as_asked(
    w: World,
    fb: Framebuffer,
    major: u8,
    minor: u8,
    damage: u32,
    drawable: u32,
    level: u8,
    r: After,
)
    requires
        handled(w, fb, major, minor, Some(Request::Change(Change::DamageCreate { damage, drawable, level })), r),
        !w.server.config.nodamage,
    ensures
        r.world.server.damage.len() == w.server.damage.len() + 1,
        r.world.server.damage.drop_last() == w.server.damage,
        ({
            let o = r.world.server.damage.last();
            o.client == w.conn.id && o.id == damage && o.drawable == drawable && o.level == level && o.region.len() == 0
        }),
{
    reveal(changed);
    reveal(World::damage_created);
    assert(r.world.server.damage.drop_last() =~= w.server.damage);
}

/// The damage that is subtracted from an object goes to the region that was named, and
/// the object has none left.
pub proof fn law_subtracted_damage_goes_to_the_region(
    w: World,
    fb: Framebuffer,
    major: u8,
    minor: u8,
    damage: u32,
    parts: u32,
    r: After,
    i: int,
)
    requires
        handled(w, fb, major, minor, Some(Request::Change(Change::DamageSubtract { damage, parts })), r),
        0 <= i < w.server.damage.len(),
        w.server.damage[i].client == w.conn.id,
        w.server.damage[i].id == damage,
        w.server.damage[i].level != 0,
        forall|k: int|
            0 <= k < i ==> (#[trigger] w.server.damage[k]).client != w.conn.id || w.server.damage[k].id != damage,
    ensures
        parts != 0 ==> xfixes::region(r.world.conn.regions, parts) == w.server.damage[i].region,
        r.world.server.damage.len() == w.server.damage.len(),
        r.world.server.damage[i].region.len() == 0,
        r.world.server.damage[i].level == w.server.damage[i].level,
{
    reveal(changed);
    reveal(World::damage_subtracted);
    assert forall|k: int| 0 <= k < i implies !damage::object(w.conn.id, damage)(#[trigger] w.server.damage[k]) by {
        assert(w.server.damage[k].client != w.conn.id || w.server.damage[k].id != damage);
    }
    list::lemma_first_index_is(w.server.damage, damage::object(w.conn.id, damage), i);
}

/// A region is what it was set to, a copy is its source, and one that was destroyed has
/// nothing; no other region changes.
pub proof fn law_regions_are_as_set(
    w: World,
    fb: Framebuffer,
    major: u8,
    minor: u8,
    q: ParsedView,
    r: After,
    other: u32,
)
    requires
        handled(w, fb, major, minor, Some(q), r),
    ensures
        q matches Request::SetRegion { region, rectangles } ==> xfixes::region(r.world.conn.regions, region) == rectangles && (
        other != region ==> xfixes::region(r.world.conn.regions, other) == xfixes::region(w.conn.regions, other)),
        q matches Request::Change(Change::CopyRegion { source, destination }) ==> xfixes::region(
            r.world.conn.regions,
            destination,
        ) == xfixes::region(w.conn.regions, source) && (other != destination ==> xfixes::region(
            r.world.conn.regions,
            other,
        ) == xfixes::region(w.conn.regions, other)),
        q matches Request::Change(Change::RegionExtents { source, destination }) ==> xfixes::region(
            r.world.conn.regions,
            destination,
        ) == xfixes::extents_of(xfixes::region(w.conn.regions, source)) && (other != destination ==> xfixes::region(
            r.world.conn.regions,
            other,
        ) == xfixes::region(w.conn.regions, other)),
        q matches Request::Change(Change::DestroyRegion { region }) ==> xfixes::region(r.world.conn.regions, region).len()
            == 0 && (other != region ==> xfixes::region(r.world.conn.regions, other) == xfixes::region(
            w.conn.regions,
            other,
        )),
{
    reveal(changed);
}

/// A client that asks for a name's atom gets one, and it is that name's from then on.
pub proof fn law_interned_atom_names_its_name(
    w: World,
    fb: Framebuffer,
    major: u8,
    minor: u8,
    name: Seq<u8>,
    r: After,
)
    requires
        handled(w, fb, major, minor, Some(Request::InternAtom { only_if_exists: false, name }), r),
        w.server.atoms.len() < u32::MAX,
    ensures
        exists|id: u32|
            {
                &&& #[trigger] atom::name_of(r.world.server.atoms, id) == Some(name)
                &&& r.world.server.events == sink::replied_to(
                    w.server.events,
                    w.conn.id,
                    w.conn.seq,
                    wire::framed(reply::word_bytes(id)),
                )
            },
        atom::name_of(w.server.atoms, 1) is Some ==> atom::name_of(r.world.server.atoms, 1) == atom::name_of(
            w.server.atoms,
            1,
        ),
{
    reveal(World::sent);
    atom::law_name_gives_back_the_name(w.server.atoms, name);
    atom::law_atoms_are_for_good(w.server.atoms, name, name, 1);
    let id = atom::atom_of(atom::interned(w.server.atoms, name), name) as u32;
    assert(atom::name_of(r.world.server.atoms, id) == Some(name));
}

/// What a client selects goes by the first bit of what it sends, and is told to the window
/// that it named: the screen's changes, and the cursor's.
pub proof fn law_selected_events_go_to_their_window(
    w: World,
    fb: Framebuffer,
    major: u8,
    minor: u8,
    c: Change,
    r: After,
    i: int,
)
    requires
        handled(w, fb, major, minor, Some(Request::Change(c)), r),
        0 <= i < w.server.events.len(),
        w.server.events[i].id == w.conn.id,
        forall|k: int| 0 <= k < i ==> (#[trigger] w.server.events[k]).id != w.conn.id,
    ensures
        c matches Change::SelectRandr { window, enable } ==> r.world.server.events[i].randr_window == (if enable % 2 == 1 {
            window
        } else {
            0
        }),
        c matches Change::SelectCursorInput { window, mask } ==> r.world.server.events[i].cursor_window == (if mask % 2
            == 1 {
            window
        } else {
            0
        }),
        c matches Change::SetEventMask { window, mask } ==> r.world.server.events[i].root_structure == (if window
            == ROOT_WINDOW {
            (mask >> 17u32) & 1 == 1
        } else {
            w.server.events[i].root_structure
        }),
        c matches Change::SetEventMask { window, mask } ==> r.world.conn.windows.masks.dom().contains(window)
            && r.world.conn.windows.masks[window] == mask,
{
    reveal(changed);
    reveal(mask_changed);
    reveal(World::mask_selected);
    let e = w.server.events;
    let id = w.conn.id;
    assert forall|k: int| 0 <= k < i implies !sink::numbered(id)(#[trigger] e[k]) by {
        assert(e[k].id != id);
    }
    list::lemma_first_index_is(e, sink::numbered(id), i);
    if let Change::SelectRandr { window, enable } = c {
        assert((enable & 1 == 1) == (enable % 2 == 1)) by (bit_vector);
    }
    if let Change::SelectCursorInput { window, mask } = c {
        assert((mask & 1 != 0) == (mask % 2 == 1)) by (bit_vector);
    }
    if let Change::SetEventMask { window, mask } = c {
        assert((mask & 0x2_0000 == 0x2_0000) == ((mask >> 17u32) & 1 == 1)) by (bit_vector);
    }
}

/// A key goes out as a key, and everything else as what it does.
pub proof fn law_faked_input_is_carried_out(
    w: World,
    fb: Framebuffer,
    major: u8,
    minor: u8,
    kind: u8,
    detail: u8,
    x: i16,
    y: i16,
    r: After,
)
    requires
        handled(w, fb, major, minor, Some(Request::Change(Change::FakeInput { kind, detail, x, y })), r),
        w.server.input.ready,
        w.server.input.keymap_set,
    ensures
        kind == 2 || kind == 3 ==> r.work == (Work::Key { kind, keycode: detail }),
        kind == 4 || kind == 5 ==> (r.work matches Work::Input(v) && v@ == w.server.input.actions(kind, detail, x, y, None)),
        kind == 6 && detail != 0 ==> (r.work matches Work::Input(v) && v@ == w.server.input.actions(
            kind,
            detail,
            x,
            y,
            None,
        )),
        r.framebuffer == fb,
{
    reveal(changed);
    reveal(input_faked);
}

/// A CRTC that the compositor need not be asked about is set as the client asked.
pub proof fn law_crtc_is_set_as_asked(
    w: World,
    fb: Framebuffer,
    major: u8,
    minor: u8,
    x: i16,
    y: i16,
    m: int,
    i: int,
    r: After,
)
    requires
        0 <= i < w.server.screen.outputs.len(),
        0 <= m < w.server.screen.modes.len(),
        w.server.screen.modes[m].info.id != 0,
        forall|k: int|
            0 <= k < i ==> (#[trigger] w.server.screen.outputs[k]).crtc_id != w.server.screen.outputs[i].crtc_id,
        forall|k: int|
            0 <= k < m ==> (#[trigger] w.server.screen.modes[k]).info.id != w.server.screen.modes[m].info.id,
        !w.server.dynres.available,
        ({
            let (crtc, mode) = (w.server.screen.outputs[i].crtc_id, w.server.screen.modes[m].info.id);
            handled(w, fb, major, minor, Some(Request::Change(Change::SetCrtcConfig { crtc, x, y, mode })), r)
        }),
    ensures
        ({
            let o = r.world.server.screen.outputs[i];
            let mode = w.server.screen.modes[m].info;
            o.x == x && o.y == y && o.mode == mode.id && o.width == mode.width && o.height == mode.height
        }),
{
    reveal(changed);
    reveal(crtc_changed);
    reveal(World::crtc_configured);
    reveal(World::screen_pushed);
    reveal(World::sent);
    let s = w.server.screen;
    let (crtc, mode) = (s.outputs[i].crtc_id, s.modes[m].info.id);
    assert forall|k: int| 0 <= k < i implies !randr::crtc_is(crtc)(#[trigger] s.outputs[k]) by {
        assert(s.outputs[k].crtc_id != crtc);
    }
    list::lemma_first_index_is(s.outputs, randr::crtc_is(crtc), i);
    assert forall|k: int| 0 <= k < m implies !randr::mode_is(mode)(#[trigger] s.modes[k]) by {
        assert(s.modes[k].info.id != mode);
    }
    list::lemma_first_index_is(s.modes, randr::mode_is(mode), m);
}

/// Requests are counted, round 16 bits, and their replies go out under the count.
pub proof fn law_requests_are_counted(w: World)
    ensures
        w.received().conn.seq == (w.conn.seq + 1) % 0x1_0000,
        w.received().conn == (ConnView { seq: w.received().conn.seq, ..w.conn }),
{
    reveal(World::received);
}

/// A client whose mode the compositor took is told of success, and its CRTC is in the mode;
/// one whose mode was refused is told of failure, and the screen is put back.
pub proof fn law_mode_changes_are_answered(w: World, change: ModeChange, changed: bool)
    requires
        w.server.screen.next_id + w.server.screen.outputs.len() <= u32::MAX,
    ensures
        ({
            let after = w.mode_settled(change, changed);
            let s = if changed {
                w.server.screen.adopted(change.crtc, change.mode)
            } else {
                w.server.screen.restored()
            };
            let status: u8 = if changed { 0 } else { 3 };
            &&& after.server.screen == s
            &&& exists|b: Seq<u8>|
                {
                    &&& #[trigger] framed_reply(b)
                    &&& b[1] == status && wire::u32_at(b, 8) == s.timestamp
                    &&& after.server.events == sink::replied_to(
                        w.with_screen(s).screen_pushed().server.events,
                        w.conn.id,
                        w.conn.seq,
                        wire::framed(b),
                    )
                }
        }),
{
    reveal(World::mode_settled);
    reveal(World::screen_pushed);
    reveal(World::sent);
    let s = if changed {
        w.server.screen.adopted(change.crtc, change.mode)
    } else {
        w.server.screen.restored()
    };
    let status: u8 = if changed { 0 } else { 3 };
    let b = reply::set_crtc_bytes(status, s.timestamp);
    reply::law_set_crtc_fields(status, s.timestamp);
    assert(framed_reply(b));
}

/// A reply that is long enough to have its head.
pub open spec fn framed_reply(b: Seq<u8>) -> bool {
    b.len() >= 8
}

} // verus!
