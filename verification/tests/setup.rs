//! The opening of a connection, and the bytes of events.

use x11rb_protocol::protocol::damage;
use x11rb_protocol::protocol::randr;
use x11rb_protocol::protocol::xfixes;
use x11rb_protocol::protocol::xproto;
use x11rb_protocol::x11_utils::TryParse;
use xwlrvnc::bridge::event::body;
use xwlrvnc::bridge::x11::setup::{admits, authorization_length, resource_id_base, setup, BigEndian, MAX_CONNECTION};
use xwlrvnc::bridge::x11::ROOT_WINDOW;
use xwlrvnc::util::geometry::{Geometry, Rectangle};

#[test]
fn the_setup_parses() {
    let bytes = setup(Geometry { width: 1280, height: 800 }, resource_id_base(3));
    let (s, rest) = xproto::Setup::try_parse(&bytes).unwrap();
    assert!(rest.is_empty());
    assert_eq!((s.status, s.protocol_major_version), (1, 11));
    assert_eq!(s.resource_id_base, resource_id_base(3));
    assert_eq!((s.min_keycode, s.max_keycode), (8, 255));
    assert_eq!(s.roots.len(), 1);
    let root = &s.roots[0];
    assert_eq!((root.root, root.width_in_pixels, root.height_in_pixels), (ROOT_WINDOW, 1280, 800));
    assert_eq!(root.root_depth, 24);
    let depth = root.allowed_depths.iter().find(|d| d.depth == 24).unwrap();
    let visual = depth.visuals.iter().find(|v| v.visual_id == root.root_visual).unwrap();
    assert_eq!((visual.red_mask, visual.green_mask, visual.blue_mask), (0xff0000, 0xff00, 0xff));
    let format = s.pixmap_formats.iter().find(|f| f.depth == 24).unwrap();
    assert_eq!(format.bits_per_pixel, 32);
}

#[test]
fn connections_have_ids_of_their_own() {
    let bytes = setup(Geometry { width: 1, height: 1 }, resource_id_base(0));
    let (s, _) = xproto::Setup::try_parse(&bytes).unwrap();
    let mut bases: Vec<u32> = [0, 1, 2, MAX_CONNECTION].map(|n| resource_id_base(n as u32)).to_vec();
    for b in &bases {
        assert_eq!(b & s.resource_id_mask, 0);
        assert!(*b > ROOT_WINDOW);
    }
    bases.dedup();
    assert_eq!(bases.len(), 4);
}

#[test]
fn only_little_endian_clients_are_served() {
    assert_eq!(authorization_length(*b"l\0\x0b\0\0\0\x12\0\x10\0\0\0"), Ok(20 + 16));
    assert_eq!(authorization_length(*b"l\0\x0b\0\0\0\0\0\0\0\0\0"), Ok(0));
    assert_eq!(authorization_length(*b"B\0\0\x0b\0\0\0\0\0\0\0\0"), Err(BigEndian));
}

fn numbers(r: xproto::Rectangle) -> (i16, i16, u16, u16) {
    (r.x, r.y, r.width, r.height)
}

#[test]
fn selection_events_are_the_protocols() {
    let e = xproto::SelectionClearEvent { response_type: 29, sequence: 0, time: 1, owner: 2, selection: 3 };
    let bytes: [u8; 32] = e.into();
    assert_eq!(body::selection_clear(1, 2, 3)[..12], bytes[..12]);
    let e = xproto::SelectionRequestEvent {
        response_type: 30,
        sequence: 0,
        time: 1,
        owner: 2,
        requestor: 3,
        selection: 4,
        target: 5,
        property: 6,
    };
    let bytes: [u8; 32] = e.into();
    assert_eq!(body::selection_request(1, 2, 3, 4, 5, 6)[..28], bytes[..28]);
    let e = xproto::SelectionNotifyEvent {
        response_type: 31,
        sequence: 0,
        time: 1,
        requestor: 2,
        selection: 3,
        target: 4,
        property: 5,
    };
    let bytes: [u8; 32] = e.into();
    assert_eq!(body::selection_notify(1, 2, 3, 4, 5)[..24], bytes[..24]);
}

#[test]
fn core_events_are_the_protocols() {
    let e = xproto::PropertyNotifyEvent {
        response_type: 28,
        sequence: 0,
        window: 1,
        atom: 2,
        time: 3,
        state: xproto::Property::DELETE,
    };
    let bytes: [u8; 32] = e.into();
    assert_eq!(body::property_notify(1, 2, 3, true), bytes);
    let bytes = body::configure_notify(ROOT_WINDOW, 800, 600);
    let (e, _) = xproto::ConfigureNotifyEvent::try_parse(&bytes).unwrap();
    assert_eq!((e.response_type, e.window, e.width, e.height), (22, ROOT_WINDOW, 800, 600));
    let bytes = body::mapping_notify(1, 8, 248);
    let (e, _) = xproto::MappingNotifyEvent::try_parse(&bytes).unwrap();
    assert_eq!((e.response_type, e.first_keycode, e.count), (34, 8, 248));
    assert_eq!(u8::from(e.request), 1);
}

#[test]
fn extension_events_are_the_protocols() {
    let bytes = body::screen_change(75, 1, 2, 3, 4, 800, 600, 211, 158);
    let (e, _) = randr::ScreenChangeNotifyEvent::try_parse(&bytes).unwrap();
    assert_eq!((e.response_type, e.timestamp, e.config_timestamp), (75, 1, 2));
    assert_eq!((e.root, e.request_window, e.width, e.height, e.mwidth, e.mheight), (3, 4, 800, 600, 211, 158));
    let bytes = body::owner_changed(90, 1, 2, 3, 4, 5, 6);
    let (e, _) = xfixes::SelectionNotifyEvent::try_parse(&bytes).unwrap();
    assert_eq!((e.response_type, u8::from(e.subtype), e.window, e.owner), (90, 1, 2, 3));
    assert_eq!((e.selection, e.timestamp, e.selection_timestamp), (4, 5, 6));
    let bytes = body::cursor_changed(91, 1, 2, 3);
    let (e, _) = xfixes::CursorNotifyEvent::try_parse(&bytes).unwrap();
    assert_eq!((e.response_type, e.window, e.cursor_serial, e.timestamp), (91, 1, 2, 3));
    let mine = Rectangle { x: -1, y: 2, width: 3, height: 4 };
    let bytes = body::damage_notify(80, 1, 2, 3, 4, mine, mine);
    let (e, _) = damage::NotifyEvent::try_parse(&bytes).unwrap();
    assert_eq!((e.response_type, u8::from(e.level), e.drawable, e.damage, e.timestamp), (80, 1, 2, 3, 4));
    assert_eq!((numbers(e.area), numbers(e.geometry)), ((-1, 2, 3, 4), (-1, 2, 3, 4)));
}

#[test]
fn only_our_own_user_and_root_may_connect() {
    assert!(admits(1000, 1000));
    assert!(admits(1000, 0));
    assert!(!admits(1000, 1001));
    assert!(!admits(0, 1000));
}
