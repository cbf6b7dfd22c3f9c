//! Connections, spoken to with requests that a client library writes and replies that it
//! reads.

use std::borrow::Cow;
use x11rb_protocol::protocol::bigreq;
use x11rb_protocol::protocol::damage;
use x11rb_protocol::protocol::randr;
use x11rb_protocol::protocol::shm;
use x11rb_protocol::protocol::xfixes;
use x11rb_protocol::protocol::xproto;
use x11rb_protocol::protocol::xtest;
use x11rb_protocol::x11_utils::{ReplyRequest, Request, TryParse, X11Error};
use xwlrvnc::bridge::clipboard::{DataOffer, Sel};
use xwlrvnc::bridge::clipjobs::Job;
use xwlrvnc::bridge::input::InputAction;
use xwlrvnc::bridge::server::Server;
use xwlrvnc::bridge::wayland::output::{OutputAcc, OutputEvent};
use xwlrvnc::bridge::x11::conn::{Connection, Todo, Work};
use xwlrvnc::bridge::x11::ext::extensions;
use xwlrvnc::bridge::x11::request::{read_request, Input, MAX_REQUEST_LENGTH};
use xwlrvnc::bridge::x11::{ROOT_WINDOW, SELECTION_FETCH_WINDOW};
use xwlrvnc::config::Config;

const WINDOW: u32 = 0x20_0001;

/// The server and its connections.
struct Session {
    server: Server,
    conns: Vec<Connection>,
}

fn session(clients: u64) -> Session {
    let mut server = Server::new(Config::default());
    server.set_time(100_000);
    server.sync_screen(false);
    let mut conns = Vec::new();
    for id in 0..clients {
        let conn = Connection::new(id);
        server.events.register(conn.opened(server.geometry()));
        // the setup bytes
        assert!(server.events.client_mut(id).unwrap().next_write().is_some());
        conns.push(conn);
    }
    Session { server, conns }
}

fn opcode(name: &str) -> u8 {
    extensions().lookup(name.as_bytes()).unwrap().major_opcode
}

impl Session {
    /// Sends the bytes of one request.
    fn send_bytes(&mut self, i: usize, bytes: &[u8]) -> Todo {
        match read_request(bytes, false) {
            Input::Request(raw, n) => {
                assert_eq!(n, bytes.len());
                self.conns[i].dispatch(&mut self.server, &raw)
            }
            _ => panic!("not a whole request"),
        }
    }

    fn send<R: Request>(&mut self, i: usize, r: R) -> Todo {
        let major = R::EXTENSION_NAME.map_or(0, opcode);
        let (bytes, _) = r.serialize(major);
        self.send_bytes(i, &bytes)
    }

    fn next(&mut self, i: usize) -> Option<Vec<u8>> {
        self.server.events.client_mut(i as u64).unwrap().next_write()
    }

    fn ask<R: ReplyRequest>(&mut self, i: usize, r: R) -> R::Reply {
        self.send(i, r);
        let mut bytes = self.next(i).expect("a reply");
        while bytes[0] > 1 {
            // an event, which may come first
            bytes = self.next(i).expect("a reply");
        }
        assert_eq!(bytes[0], 1, "a reply, not an error: {bytes:?}");
        assert_eq!(bytes.len() % 4, 0);
        let (reply, rest) = R::Reply::try_parse(&bytes).expect("a reply that parses");
        assert!(rest.len() < 4 || bytes.len() == 32, "nothing is left over");
        reply
    }

    fn intern(&mut self, name: &str) -> u32 {
        let r = xproto::InternAtomRequest { only_if_exists: false, name: Cow::Owned(name.as_bytes().to_vec()) };
        self.ask(0, r).atom
    }

    fn error(&mut self, i: usize) -> X11Error {
        let bytes = self.next(i).expect("an error");
        assert_eq!((bytes[0], bytes.len()), (0, 32));
        X11Error::try_parse(&bytes, &NoExtensions).expect("an error that parses")
    }

    fn change_property(&mut self, i: usize, mode: xproto::PropMode, property: u32, format: u8, data: &[u8]) {
        self.send(
            i,
            xproto::ChangePropertyRequest {
                mode,
                window: WINDOW,
                property,
                type_: 31,
                format,
                data_len: data.len() as u32 / (format as u32 / 8),
                data: Cow::Borrowed(data),
            },
        );
    }

    fn get_property(&mut self, i: usize, property: u32, type_: u32, offset: u32, length: u32) -> xproto::GetPropertyReply {
        self.ask(
            i,
            xproto::GetPropertyRequest {
                delete: false,
                window: WINDOW,
                property,
                type_,
                long_offset: offset,
                long_length: length,
            },
        )
    }
}

fn numbers(v: &[xproto::Rectangle]) -> Vec<(i16, i16, u16, u16)> {
    v.iter().map(|r| (r.x, r.y, r.width, r.height)).collect()
}

struct NoExtensions;

impl x11rb_protocol::x11_utils::ExtInfoProvider for NoExtensions {
    fn get_from_major_opcode(&self, _: u8) -> Option<(&str, x11rb_protocol::x11_utils::ExtensionInformation)> {
        None
    }
    fn get_from_event_code(&self, _: u8) -> Option<(&str, x11rb_protocol::x11_utils::ExtensionInformation)> {
        None
    }
    fn get_from_error_code(&self, _: u8) -> Option<(&str, x11rb_protocol::x11_utils::ExtensionInformation)> {
        None
    }
}

#[test]
fn atoms_have_one_number_for_everybody() {
    let mut s = session(2);
    let a = s.intern("A_NAME");
    assert_eq!(s.intern("A_NAME"), a);
    assert_eq!(s.intern("PRIMARY"), 1);
    let r = xproto::InternAtomRequest { only_if_exists: true, name: Cow::Borrowed(b"ANOTHER") };
    assert_eq!(s.ask(0, r).atom, 0);
    assert_eq!(s.ask(1, xproto::GetAtomNameRequest { atom: a }).name, b"A_NAME");
}

#[test]
fn properties_read_back_in_parts() {
    let mut s = session(1);
    let p = s.intern("P");
    s.change_property(0, xproto::PropMode::REPLACE, p, 8, b"hello");
    s.change_property(0, xproto::PropMode::APPEND, p, 8, b" world");
    s.change_property(0, xproto::PropMode::PREPEND, p, 8, b">");
    let r = s.get_property(0, p, 31, 0, 100);
    assert_eq!((r.format, r.type_, r.bytes_after, r.value_len), (8, 31, 0, 12));
    assert_eq!(r.value, b">hello world");
    // in 4-byte units
    let r = s.get_property(0, p, 31, 1, 1);
    assert_eq!((r.value.as_slice(), r.bytes_after), (&b"lo w"[..], 4));
    // of another type: only what it is
    let r = s.get_property(0, p, 4, 0, 100);
    assert_eq!((r.type_, r.bytes_after, r.value.len()), (31, 12, 0));
    // one that is not there
    let q = s.intern("Q");
    let r = s.get_property(0, q, 0, 0, 100);
    assert_eq!((r.type_, r.format, r.value.len()), (0, 0, 0));
    assert_eq!(s.ask(0, xproto::ListPropertiesRequest { window: WINDOW }).atoms, [p]);
    s.send(0, xproto::DeletePropertyRequest { window: WINDOW, property: p });
    assert!(s.ask(0, xproto::ListPropertiesRequest { window: WINDOW }).atoms.is_empty());
}

#[test]
fn a_read_property_can_go() {
    let mut s = session(1);
    let p = s.intern("P");
    s.change_property(0, xproto::PropMode::REPLACE, p, 32, &[1, 2, 3, 4, 5, 6, 7, 8]);
    let r = xproto::GetPropertyRequest {
        delete: true,
        window: WINDOW,
        property: p,
        type_: 0,
        long_offset: 0,
        long_length: 1,
    };
    // not while something of it is left
    assert_eq!(s.ask(0, r).bytes_after, 4);
    let r = xproto::GetPropertyRequest { long_length: 2, ..r };
    let reply = s.ask(0, r);
    assert_eq!((reply.format, reply.value_len, reply.bytes_after), (32, 2, 0));
    assert_eq!(s.ask(0, r).type_, 0);
}

#[test]
fn property_changes_are_told_to_who_selected_them() {
    let mut s = session(1);
    let p = s.intern("P");
    s.change_property(0, xproto::PropMode::REPLACE, p, 8, b"a");
    assert!(s.next(0).is_none());
    let values = xproto::ChangeWindowAttributesAux::new().event_mask(xproto::EventMask::PROPERTY_CHANGE);
    s.send(0, xproto::ChangeWindowAttributesRequest { window: WINDOW, value_list: Cow::Owned(values) });
    s.change_property(0, xproto::PropMode::REPLACE, p, 8, b"b");
    let event = s.next(0).expect("a PropertyNotify");
    let (e, _) = xproto::PropertyNotifyEvent::try_parse(&event).unwrap();
    assert_eq!((e.window, e.atom, e.time), (WINDOW, p, 100_000));
    assert_eq!(e.state, xproto::Property::NEW_VALUE);
    s.send(0, xproto::DeletePropertyRequest { window: WINDOW, property: p });
    let event = s.next(0).expect("a PropertyNotify");
    let (e, _) = xproto::PropertyNotifyEvent::try_parse(&event).unwrap();
    assert_eq!(e.state, xproto::Property::DELETE);
}

#[test]
fn a_property_of_another_format_does_not_match() {
    let mut s = session(1);
    let p = s.intern("P");
    s.change_property(0, xproto::PropMode::REPLACE, p, 8, b"abcd");
    s.change_property(0, xproto::PropMode::APPEND, p, 32, b"efgh");
    let e = s.error(0);
    assert_eq!((e.error_code, e.major_opcode), (8, xproto::CHANGE_PROPERTY_REQUEST));
    assert_eq!(s.get_property(0, p, 0, 0, 9).value, b"abcd");
}

#[test]
fn malformed_requests_are_answered_with_a_length_error() {
    let mut s = session(1);
    // InternAtom with a name longer than the request
    let t = s.send_bytes(0, &[16, 0, 2, 0, 9, 0, 0, 0]);
    assert!(matches!(t.work, Work::Malformed));
    let e = s.error(0);
    assert_eq!((e.error_code, e.major_opcode, e.sequence), (16, 16, 1));
    // and one that the grammar does not admit
    match read_request(&[16, 0, 2, 0, 0, 0, 0, 0], false) {
        Input::Request(raw, _) => {
            assert!(raw.well_formed());
            s.conns[0].carry_out(&mut s.server, &raw, false);
        }
        _ => panic!("a whole request"),
    }
    assert_eq!(s.error(0).sequence, 2);
    // one that is not implemented is still held to the grammar: PolyLine without a drawable
    s.send_bytes(0, &[65, 0, 1, 0]);
    assert_eq!(s.error(0).error_code, 16);
    // and one that nobody implements
    let t = s.send_bytes(0, &[200, 7, 1, 0]);
    assert!(matches!(t.work, Work::Unimplemented));
    let e = s.error(0);
    assert_eq!((e.error_code, e.major_opcode, e.minor_opcode), (17, 200, 7));
}

#[test]
fn requests_are_read_from_a_stream() {
    assert!(matches!(read_request(&[], false), Input::More(4)));
    // an end is in order between requests, and nowhere else
    assert!(matches!(read_request(&[], true), Input::End));
    assert!(matches!(read_request(&[16], true), Input::UnexpectedEnd));
    assert!(matches!(read_request(&[16, 5, 0, 0, 3], true), Input::UnexpectedEnd));
    assert!(matches!(read_request(&[16, 0, 3, 0, 1], true), Input::UnexpectedEnd));
    assert!(matches!(read_request(&[16, 5, 1, 0], true), Input::Request(_, 4)));
    assert!(matches!(read_request(&[16, 0, 3, 0, 1], false), Input::More(12)));
    match read_request(&[16, 5, 2, 0, 1, 2, 3, 4, 99], false) {
        Input::Request(raw, n) => {
            assert_eq!((raw.major_opcode, raw.minor_opcode, raw.remaining_length, n), (16, 5, 1, 8));
            assert_eq!(raw.body, [1, 2, 3, 4]);
        }
        _ => panic!("there is a whole request"),
    }
    // an extended length
    assert!(matches!(read_request(&[16, 5, 0, 0], false), Input::More(8)));
    assert!(matches!(read_request(&[16, 5, 0, 0, 3, 0, 0, 0], false), Input::More(12)));
    match read_request(&[16, 5, 0, 0, 3, 0, 0, 0, 1, 2, 3, 4], false) {
        Input::Request(raw, n) => assert_eq!((raw.body.len(), n), (4, 12)),
        _ => panic!("there is a whole request"),
    }
    let long = (MAX_REQUEST_LENGTH + 1).to_le_bytes();
    match read_request(&[16, 5, 0, 0, long[0], long[1], long[2], long[3]], false) {
        Input::TooLong(t) => assert_eq!(t.0, MAX_REQUEST_LENGTH + 1),
        _ => panic!("that is too long"),
    }
}

#[test]
fn extensions_are_found_whatever_their_case() {
    let mut s = session(1);
    for name in ["MIT-SHM", "XTEST", "RANDR", "DAMAGE", "BIG-REQUESTS", "XFIXES"] {
        let r = xproto::QueryExtensionRequest { name: Cow::Owned(name.to_lowercase().into_bytes()) };
        let reply = s.ask(0, r);
        let def = extensions().lookup(name.as_bytes()).unwrap();
        assert!(reply.present, "{name}");
        assert_eq!(
            (reply.major_opcode, reply.first_event, reply.first_error),
            (def.major_opcode, def.first_event, def.first_error)
        );
    }
    let r = xproto::QueryExtensionRequest { name: Cow::Borrowed(b"GLX") };
    assert!(!s.ask(0, r).present);
    let names = s.ask(0, xproto::ListExtensionsRequest).names;
    assert!(names.iter().any(|n| n.name == b"RANDR"));
}

#[test]
fn an_extension_that_is_switched_off_is_not_there() {
    let mut s = session(1);
    s.server.config.nodamage = true;
    let r = xproto::QueryExtensionRequest { name: Cow::Borrowed(b"DAMAGE") };
    assert!(!s.ask(0, r).present);
}

#[test]
fn core_queries_have_their_answers() {
    let mut s = session(1);
    let g = s.ask(0, xproto::GetGeometryRequest { drawable: ROOT_WINDOW });
    assert_eq!((g.width, g.height, g.depth, g.root), (1920, 1080, 24, ROOT_WINDOW));
    let p = s.ask(0, xproto::QueryPointerRequest { window: ROOT_WINDOW });
    assert!(p.same_screen);
    let f = s.ask(0, xproto::GetInputFocusRequest);
    assert_eq!(u32::from(f.focus), ROOT_WINDOW);
    let t = s.ask(0, xproto::QueryTreeRequest { window: ROOT_WINDOW });
    assert_eq!((t.root, t.children.len()), (ROOT_WINDOW, 0));
    let r = xproto::TranslateCoordinatesRequest { src_window: 1, dst_window: 2, src_x: 3, src_y: -4 };
    let t = s.ask(0, r);
    assert_eq!((t.dst_x, t.dst_y), (3, -4));
    let c = s.ask(0, xproto::AllocColorRequest { cmap: 1, red: 0xff00, green: 0x8000, blue: 0x100 });
    assert_eq!(c.pixel, 0xff8001);
    let c = s.ask(0, xproto::QueryColorsRequest { cmap: 1, pixels: Cow::Owned(vec![0xff8001]) });
    assert_eq!(c.colors.len(), 1);
    assert_eq!((c.colors[0].red, c.colors[0].green, c.colors[0].blue), (0xffff, 0x8080, 0x101));
    let m = s.ask(0, xproto::GetKeyboardMappingRequest { first_keycode: 8, count: 2 });
    assert_eq!(m.keysyms.len(), 2 * m.keysyms_per_keycode as usize);
    let m = s.ask(0, xproto::GetModifierMappingRequest);
    assert_eq!(m.keycodes.len() % 8, 0);
    s.ask(0, xproto::GetWindowAttributesRequest { window: ROOT_WINDOW });
    s.ask(0, xproto::GetPointerMappingRequest);
    s.ask(0, xproto::QueryKeymapRequest);
    s.ask(0, xproto::GetKeyboardControlRequest);
    s.ask(0, xproto::GetPointerControlRequest);
    s.ask(0, xproto::GetScreenSaverRequest);
    s.ask(0, xproto::GetFontPathRequest);
    s.ask(0, xproto::ListInstalledColormapsRequest { window: ROOT_WINDOW });
    let r = xproto::QueryBestSizeRequest {
        class: xproto::QueryShapeOf::LARGEST_CURSOR,
        drawable: ROOT_WINDOW,
        width: 32,
        height: 16,
    };
    let b = s.ask(0, r);
    assert_eq!((b.width, b.height), (32, 16));
    s.ask(0, bigreq::EnableRequest);
    s.ask(0, xtest::GetVersionRequest { major_version: 2, minor_version: 2 });
    s.ask(0, damage::QueryVersionRequest { client_major_version: 1, client_minor_version: 1 });
    s.ask(0, xfixes::QueryVersionRequest { client_major_version: 5, client_minor_version: 0 });
    s.ask(0, shm::QueryVersionRequest);
}

#[test]
fn randr_shows_the_outputs() {
    let mut s = session(1);
    let mut acc = OutputAcc::default();
    acc.event(OutputEvent::Mode { current: true, width: 1280, height: 800, refresh: 60_000 });
    acc.event(OutputEvent::Name(b"HEADLESS-1".to_vec()));
    s.server.apply_output(7, &acc);
    let v = s.ask(0, randr::QueryVersionRequest { major_version: 1, minor_version: 5 });
    assert_eq!(v.major_version, 1);
    let r = s.ask(0, randr::GetScreenResourcesRequest { window: ROOT_WINDOW });
    assert_eq!((r.crtcs.len(), r.outputs.len(), r.modes.len()), (1, 1, 1));
    assert_eq!((r.modes[0].width, r.modes[0].height), (1280, 800));
    let o = s.ask(0, randr::GetOutputInfoRequest { output: r.outputs[0], config_timestamp: 0 });
    assert_eq!(o.name, b"HEADLESS-1");
    assert_eq!((o.crtc, o.crtcs.clone(), o.modes.clone()), (r.crtcs[0], vec![r.crtcs[0]], vec![r.modes[0].id]));
    assert_eq!(o.connection, randr::Connection::CONNECTED);
    let c = s.ask(0, randr::GetCrtcInfoRequest { crtc: r.crtcs[0], config_timestamp: 0 });
    assert_eq!((c.x, c.y, c.width, c.height, c.mode), (0, 0, 1280, 800, r.modes[0].id));
    assert_eq!(c.outputs, [r.outputs[0]]);
    let sizes = s.ask(0, randr::GetScreenSizeRangeRequest { window: ROOT_WINDOW });
    assert_eq!((sizes.min_width, sizes.max_width), (8, 16384));
    // an output that is not there
    let o = s.ask(0, randr::GetOutputInfoRequest { output: 9999, config_timestamp: 0 });
    assert_eq!((o.crtc, o.connection), (0, randr::Connection::DISCONNECTED));
    s.ask(0, randr::GetScreenInfoRequest { window: ROOT_WINDOW });
    s.ask(0, randr::GetPanningRequest { crtc: r.crtcs[0] });
    s.ask(0, randr::GetOutputPrimaryRequest { window: ROOT_WINDOW });
    s.ask(0, randr::GetCrtcGammaSizeRequest { crtc: r.crtcs[0] });
    s.ask(0, randr::GetCrtcGammaRequest { crtc: r.crtcs[0] });
    s.ask(0, randr::GetCrtcTransformRequest { crtc: r.crtcs[0] });
    s.ask(0, randr::ListOutputPropertiesRequest { output: r.outputs[0] });
    s.ask(0, randr::GetProvidersRequest { window: ROOT_WINDOW });
    s.ask(0, randr::GetMonitorsRequest { window: ROOT_WINDOW, get_active: true });
}

#[test]
fn a_client_sets_the_screen_up() {
    let mut s = session(1);
    s.send(0, randr::SelectInputRequest { window: ROOT_WINDOW, enable: randr::NotifyMask::SCREEN_CHANGE });
    let info = randr::ModeInfo { id: 0, width: 1024, height: 640, htotal: 1024, vtotal: 640, name_len: 3, ..Default::default() };
    let mode = s.ask(0, randr::CreateModeRequest { window: ROOT_WINDOW, mode_info: info, name: Cow::Borrowed(b"abc") }).mode;
    let r = s.ask(0, randr::GetScreenResourcesRequest { window: ROOT_WINDOW });
    assert!(r.modes.iter().any(|m| m.id == mode && m.width == 1024));
    s.send(0, randr::AddOutputModeRequest { output: r.outputs[0], mode });
    let set = randr::SetCrtcConfigRequest {
        crtc: r.crtcs[0],
        timestamp: 0,
        config_timestamp: 0,
        x: 0,
        y: 0,
        mode,
        rotation: randr::Rotation::ROTATE0,
        outputs: Cow::Owned(vec![r.outputs[0]]),
    };
    let reply = s.ask(0, set);
    assert_eq!(u8::from(reply.status), 0);
    while s.next(0).is_some() {}
    s.send(0, randr::SetScreenSizeRequest { window: ROOT_WINDOW, width: 1024, height: 640, mm_width: 0, mm_height: 0 });
    assert_eq!((s.server.screen.width, s.server.screen.height), (1024, 640));
    let event = s.next(0).expect("a ScreenChangeNotify");
    let (e, _) = randr::ScreenChangeNotifyEvent::try_parse(&event).unwrap();
    assert_eq!((e.width, e.height, e.root), (1024, 640, ROOT_WINDOW));
}

#[test]
fn a_mode_of_another_size_is_asked_of_the_compositor() {
    let mut s = session(1);
    let mut acc = OutputAcc::default();
    acc.event(OutputEvent::Mode { current: true, width: 1280, height: 800, refresh: 60_000 });
    s.server.apply_output(7, &acc);
    s.server.dynres.set_available(true);
    let info = randr::ModeInfo { width: 800, height: 600, name_len: 0, ..Default::default() };
    let mode = s.ask(0, randr::CreateModeRequest { window: ROOT_WINDOW, mode_info: info, name: Cow::Borrowed(b"") }).mode;
    let r = s.ask(0, randr::GetScreenResourcesRequest { window: ROOT_WINDOW });
    let set = randr::SetCrtcConfigRequest {
        crtc: r.crtcs[0],
        timestamp: 0,
        config_timestamp: 0,
        x: 0,
        y: 0,
        mode,
        rotation: randr::Rotation::ROTATE0,
        outputs: Cow::Owned(vec![r.outputs[0]]),
    };
    let t = s.send(0, set);
    let change = match t.work {
        Work::ChangeMode(c) => c,
        _ => panic!("the compositor has to be asked"),
    };
    assert_eq!((change.wl_name, change.width, change.height, change.mode), (7, 800, 600, mode));
    assert!(s.next(0).is_none(), "nothing is answered before it has");
    // it refuses
    s.conns[0].mode_changed(&mut s.server, change, false);
    let bytes = s.next(0).expect("a reply");
    let (reply, _) = randr::SetCrtcConfigReply::try_parse(&bytes).unwrap();
    assert_eq!(u8::from(reply.status), 3);
    assert_eq!((s.server.screen.width, s.server.screen.height), (1280, 800));
}

#[test]
fn images_are_what_the_framebuffer_holds() {
    let mut s = session(1);
    let r = xproto::GetImageRequest {
        format: xproto::ImageFormat::Z_PIXMAP,
        drawable: ROOT_WINDOW,
        x: 0,
        y: 0,
        width: 3,
        height: 2,
        plane_mask: u32::MAX,
    };
    let i = s.ask(0, r);
    assert_eq!((i.depth, i.data.len()), (24, 24));
    assert_eq!(s.server.framebuffer.last_read_ms(), 100_000);
}

#[test]
fn shared_memory_is_attached_outside() {
    let mut s = session(1);
    let t = s.send(0, shm::AttachRequest { shmseg: 5, shmid: 77, read_only: false });
    assert!(matches!(t.work, Work::Attach { shmseg: 5, shmid: 77 }));
    s.conns[0].attached(5, 4096);
    let r = shm::GetImageRequest {
        drawable: ROOT_WINDOW,
        x: 1,
        y: 2,
        width: 10,
        height: 10,
        plane_mask: u32::MAX,
        format: 2,
        shmseg: 5,
        offset: 16,
    };
    let t = s.send(0, r);
    match t.work {
        Work::Image { shmseg, start, len, x, y, width, height } => {
            assert_eq!((shmseg, start, len, x, y, width, height), (5, 16, 400, 1, 2, 10, 10));
        }
        _ => panic!("the pixels are to be read"),
    }
    s.conns[0].image_read(&mut s.server, 10, 10);
    let bytes = s.next(0).expect("a reply");
    let (reply, _) = shm::GetImageReply::try_parse(&bytes).unwrap();
    assert_eq!((reply.depth, reply.size), (24, 400));
    let t = s.send(0, shm::DetachRequest { shmseg: 5 });
    assert!(matches!(t.work, Work::Detach { shmseg: 5 }));
    // without a segment there is nothing to read into, and the client is answered
    let t = s.send(0, r);
    assert!(matches!(t.work, Work::Nothing));
    assert!(s.next(0).is_some());
}

#[test]
fn input_is_injected_once_there_are_devices() {
    let mut s = session(1);
    let button = xtest::FakeInputRequest { type_: 4, detail: 1, time: 0, root: 0, root_x: 0, root_y: 0, deviceid: 0 };
    let t = s.send(0, button);
    assert!(matches!(t.work, Work::Input(v) if v.is_empty()));
    s.server.input.set_devices();
    let t = s.send(0, button);
    match t.work {
        Work::Input(v) => assert_eq!(v, [InputAction::Button { code: 0x110, pressed: true }, InputAction::Frame]),
        _ => panic!("input is to be injected"),
    }
    let motion = xtest::FakeInputRequest { type_: 6, root_x: 100, root_y: 50, detail: 0, ..button };
    let t = s.send(0, motion);
    match t.work {
        Work::Input(v) => assert_eq!(
            v[0],
            InputAction::MotionAbsolute { x: 100, y: 50, extent_x: 1920, extent_y: 1080 }
        ),
        _ => panic!("input is to be injected"),
    }
    // a key waits for its masks
    let key = xtest::FakeInputRequest { type_: 2, detail: 38, ..button };
    assert!(matches!(s.send(0, key).work, Work::Input(v) if v.is_empty()), "no keymap yet");
    s.server.input.set_keymap();
    assert!(matches!(s.send(0, key).work, Work::Key { kind: 2, keycode: 38 }));
}

#[test]
fn switching_auto_repeat_off_is_told() {
    let mut s = session(1);
    let aux = |mode| xproto::ChangeKeyboardControlAux::new().bell_percent(5).auto_repeat_mode(mode);
    let off = xproto::ChangeKeyboardControlRequest { value_list: Cow::Owned(aux(xproto::AutoRepeatMode::OFF)) };
    assert!(matches!(s.send(0, off).work, Work::NoAutoRepeat));
    let on = xproto::ChangeKeyboardControlRequest { value_list: Cow::Owned(aux(xproto::AutoRepeatMode::ON)) };
    assert!(matches!(s.send(0, on).work, Work::Nothing));
}

#[test]
fn damage_is_reported_until_it_is_subtracted() {
    let mut s = session(1);
    s.send(0, damage::CreateRequest { damage: 0x30, drawable: ROOT_WINDOW, level: damage::ReportLevel::NON_EMPTY });
    while s.next(0).is_some() {}
    let rect = xwlrvnc::util::geometry::Rectangle { x: 10, y: 20, width: 30, height: 40 };
    s.server.add_damage(&vec![rect]);
    let event = s.next(0).expect("a DamageNotify");
    let (e, _) = damage::NotifyEvent::try_parse(&event).unwrap();
    assert_eq!((e.damage, e.drawable), (0x30, ROOT_WINDOW));
    s.server.add_damage(&vec![rect]);
    assert!(s.next(0).is_none(), "it is not empty already");
    s.send(0, damage::SubtractRequest { damage: 0x30, repair: 0u32, parts: 0x31u32 });
    let r = s.ask(0, xfixes::FetchRegionRequest { region: 0x31 });
    assert_eq!((r.extents.x, r.extents.y, r.extents.width, r.extents.height), (10, 20, 30, 40));
    s.server.add_damage(&vec![rect]);
    assert!(s.next(0).is_some(), "reported again");
    s.send(0, damage::DestroyRequest { damage: 0x30 });
    s.server.add_damage(&vec![rect]);
    assert!(s.next(0).is_none());
}

#[test]
fn regions_hold_their_rectangles() {
    let mut s = session(1);
    let a = xproto::Rectangle { x: 0, y: 0, width: 10, height: 10 };
    let b = xproto::Rectangle { x: 20, y: 5, width: 10, height: 10 };
    s.send(0, xfixes::CreateRegionRequest { region: 0x40, rectangles: Cow::Owned(vec![a, b]) });
    s.send(0, xfixes::RegionExtentsRequest { source: 0x40, destination: 0x41 });
    s.send(0, xfixes::CopyRegionRequest { source: 0x40, destination: 0x42 });
    let r = s.ask(0, xfixes::FetchRegionRequest { region: 0x41 });
    assert_eq!(numbers(&r.rectangles), [(0, 0, 30, 15)]);
    let r = s.ask(0, xfixes::FetchRegionRequest { region: 0x42 });
    assert_eq!(numbers(&r.rectangles), [(0, 0, 10, 10), (20, 5, 10, 10)]);
    s.send(0, xfixes::DestroyRegionRequest { region: 0x42 });
    assert!(s.ask(0, xfixes::FetchRegionRequest { region: 0x42 }).rectangles.is_empty());
}

#[test]
fn the_cursor_is_what_was_captured() {
    let mut s = session(1);
    s.send(0, xfixes::SelectCursorInputRequest { window: ROOT_WINDOW, event_mask: xfixes::CursorNotifyMask::DISPLAY_CURSOR });
    s.server.cursor.update_position(7, 8);
    let serial = s.server.cursor.update_image(2, 1, 1, 0, vec![0xff112233, 0x80445566]);
    let clock = s.server.clock;
    s.server.events.cursor_changed(serial, &clock);
    let event = s.next(0).expect("a CursorNotify");
    let (e, _) = xfixes::CursorNotifyEvent::try_parse(&event).unwrap();
    assert_eq!((e.window, e.cursor_serial), (ROOT_WINDOW, serial));
    let c = s.ask(0, xfixes::GetCursorImageRequest);
    assert_eq!((c.x, c.y, c.width, c.height, c.xhot, c.yhot), (7, 8, 2, 1, 1, 0));
    assert_eq!(c.cursor_image, [0xff112233, 0x80445566]);
    let c = s.ask(0, xfixes::GetCursorImageAndNameRequest);
    assert_eq!(c.cursor_serial, serial);
    s.ask(0, xfixes::GetCursorNameRequest { cursor: 0 });
}

#[test]
fn an_x_owners_value_reaches_another_x_client() {
    let mut s = session(2);
    s.server.clipboard.jobs_mut().set_running(true);
    s.server.clipboard.set_publishable(Sel::Clipboard, true);
    let clip = s.intern("CLIPBOARD");
    let utf8 = s.intern("UTF8_STRING");
    let dest = s.intern("DEST");
    s.send(0, xproto::SetSelectionOwnerRequest { owner: WINDOW, selection: clip, time: 100_000u32 });
    // the bridge asks the owner for its value
    let event = s.next(0).expect("a SelectionRequest");
    let (ask, _) = xproto::SelectionRequestEvent::try_parse(&event).unwrap();
    assert_eq!((ask.owner, ask.requestor, ask.selection, ask.target), (WINDOW, SELECTION_FETCH_WINDOW, clip, utf8));
    assert_eq!(s.ask(1, xproto::GetSelectionOwnerRequest { selection: clip }).owner, WINDOW);
    // the owner answers
    s.send(
        0,
        xproto::ChangePropertyRequest {
            mode: xproto::PropMode::REPLACE,
            window: ask.requestor,
            property: ask.property,
            type_: utf8,
            format: 8,
            data_len: 5,
            data: Cow::Borrowed(b"hello"),
        },
    );
    let notify = xproto::SelectionNotifyEvent {
        response_type: 31,
        sequence: 0,
        time: ask.time,
        requestor: ask.requestor,
        selection: clip,
        target: utf8,
        property: ask.property,
    };
    let event: [u8; 32] = notify.into();
    s.send(
        0,
        xproto::SendEventRequest {
            propagate: false,
            destination: ask.requestor,
            event_mask: xproto::EventMask::NO_EVENT,
            event: Cow::Owned(event),
        },
    );
    // it is published to Wayland
    assert_eq!(s.server.clipboard.jobs().publishes(), [(Sel::Clipboard, Some(5))]);
    // and another X client gets it
    let convert = xproto::ConvertSelectionRequest {
        requestor: WINDOW,
        selection: clip,
        target: utf8,
        property: dest,
        time: 0u32,
    };
    s.send(1, convert);
    let event = s.next(1).expect("a SelectionNotify");
    let (e, _) = xproto::SelectionNotifyEvent::try_parse(&event).unwrap();
    assert_eq!((e.requestor, e.selection, e.target, e.property), (WINDOW, clip, utf8, dest));
    let r = s.get_property(1, dest, utf8, 0, 100);
    assert_eq!(r.value, b"hello");
    // as TARGETS too
    let targets = s.intern("TARGETS");
    s.send(1, xproto::ConvertSelectionRequest { target: targets, ..convert });
    s.next(1).expect("a SelectionNotify");
    let r = s.get_property(1, dest, 4, 0, 100);
    let atoms: Vec<u32> = r.value32().unwrap().collect();
    assert!(atoms.contains(&utf8) && atoms.contains(&targets));
    // closing its connection gives the selection up
    s.conns[0].close(&mut s.server);
    assert_eq!(s.ask(1, xproto::GetSelectionOwnerRequest { selection: clip }).owner, 0);
}

#[test]
fn a_wayland_apps_value_is_read_for_an_x_client() {
    let mut s = session(1);
    s.server.clipboard.jobs_mut().set_running(true);
    let clip = s.intern("CLIPBOARD");
    let utf8 = s.intern("UTF8_STRING");
    let dest = s.intern("DEST");
    s.server.update_selection(Sel::Clipboard, Some(DataOffer::Ext(3)), vec!["text/plain".to_string()]);
    let convert = xproto::ConvertSelectionRequest {
        requestor: WINDOW,
        selection: clip,
        target: utf8,
        property: dest,
        time: 0u32,
    };
    s.send(0, convert);
    assert!(s.next(0).is_none(), "nothing before the value is there");
    let mut jobs = s.server.clipboard.jobs_mut().take();
    let conversion = match jobs.pop() {
        Some(Job::Receive { mime, conversion, .. }) => {
            assert_eq!(mime, "text/plain");
            conversion
        }
        _ => panic!("the value is to be read"),
    };
    let a = conversion.finish(Some(b"from wayland".to_vec()));
    s.conns[0].deliver(&mut s.server, a);
    let event = s.next(0).expect("a SelectionNotify");
    let (e, _) = xproto::SelectionNotifyEvent::try_parse(&event).unwrap();
    assert_eq!((e.requestor, e.property), (WINDOW, dest));
    assert_eq!(s.get_property(0, dest, utf8, 0, 100).value, b"from wayland");
    // a target that cannot be had is refused
    let png = s.intern("image/png");
    s.send(0, xproto::ConvertSelectionRequest { target: png, ..convert });
    let event = s.next(0).expect("a SelectionNotify");
    let (e, _) = xproto::SelectionNotifyEvent::try_parse(&event).unwrap();
    assert_eq!(e.property, 0);
}

#[test]
fn watchers_hear_of_new_owners() {
    let mut s = session(2);
    let clip = s.intern("CLIPBOARD");
    s.send(
        1,
        xfixes::SelectSelectionInputRequest {
            window: WINDOW,
            selection: clip,
            event_mask: xfixes::SelectionEventMask::SET_SELECTION_OWNER,
        },
    );
    s.server.update_selection(Sel::Clipboard, Some(DataOffer::Ext(3)), vec!["text/plain".to_string()]);
    let event = s.next(1).expect("a SelectionNotify");
    let (e, _) = xfixes::SelectionNotifyEvent::try_parse(&event).unwrap();
    assert_eq!((e.window, e.selection), (WINDOW, clip));
    assert_eq!(e.owner, xwlrvnc::bridge::clipboard::OWNER_WINDOW);
    // with -noprimary the primary selection is ignored, and its offer is spent
    s.server.config.noprimary = true;
    assert_eq!(s.server.update_selection(Sel::Primary, Some(DataOffer::Ext(4)), Vec::new()), [DataOffer::Ext(4)]);
    assert!(s.server.clipboard.owner_window(Sel::Primary).is_none());
}

#[test]
fn the_compositors_end_refuses_what_is_waiting() {
    let mut s = session(1);
    s.server.clipboard.jobs_mut().set_running(true);
    s.server.dynres.set_available(true);
    let clip = s.intern("CLIPBOARD");
    let utf8 = s.intern("UTF8_STRING");
    s.server.update_selection(Sel::Clipboard, Some(DataOffer::Ext(3)), vec!["text/plain".to_string()]);
    s.send(
        0,
        xproto::ConvertSelectionRequest { requestor: WINDOW, selection: clip, target: utf8, property: 5, time: 0u32 },
    );
    assert!(s.next(0).is_none());
    s.server.wayland_lost();
    let event = s.next(0).expect("a SelectionNotify");
    let (e, _) = xproto::SelectionNotifyEvent::try_parse(&event).unwrap();
    assert_eq!(e.property, 0);
    assert!(!s.server.dynres.available());
}

#[test]
fn a_value_that_comes_in_chunks_arrives_whole() {
    let mut s = session(2);
    s.server.clipboard.jobs_mut().set_running(true);
    s.server.clipboard.set_publishable(Sel::Clipboard, true);
    let clip = s.intern("CLIPBOARD");
    let utf8 = s.intern("UTF8_STRING");
    let incr = s.intern("INCR");
    let dest = s.intern("DEST");
    s.send(0, xproto::SetSelectionOwnerRequest { owner: WINDOW, selection: clip, time: 100_000u32 });
    let event = s.next(0).expect("a SelectionRequest");
    let (ask, _) = xproto::SelectionRequestEvent::try_parse(&event).unwrap();
    // the owner says that it comes in chunks
    let put = |s: &mut Session, type_: u32, data: &'static [u8]| {
        s.send(
            0,
            xproto::ChangePropertyRequest {
                mode: xproto::PropMode::REPLACE,
                window: ask.requestor,
                property: ask.property,
                type_,
                format: 8,
                data_len: data.len() as u32,
                data: Cow::Borrowed(data),
            },
        );
    };
    put(&mut s, incr, b"size");
    let notify = xproto::SelectionNotifyEvent {
        response_type: 31,
        sequence: 0,
        time: ask.time,
        requestor: ask.requestor,
        selection: clip,
        target: utf8,
        property: ask.property,
    };
    let event: [u8; 32] = notify.into();
    s.send(
        0,
        xproto::SendEventRequest {
            propagate: false,
            destination: ask.requestor,
            event_mask: xproto::EventMask::NO_EVENT,
            event: Cow::Owned(event),
        },
    );
    for part in [b"one ".as_slice(), b"two ", b"three"] {
        put(&mut s, utf8, part);
        assert!(s.server.clipboard.jobs().publishes().is_empty(), "not before the end");
    }
    put(&mut s, utf8, b"");
    assert_eq!(s.server.clipboard.jobs().publishes(), [(Sel::Clipboard, Some(13))]);
    s.send(
        1,
        xproto::ConvertSelectionRequest {
            requestor: WINDOW,
            selection: clip,
            target: utf8,
            property: dest,
            time: 0u32,
        },
    );
    assert_eq!(s.get_property(1, dest, utf8, 0, 100).value, b"one two three");
}
