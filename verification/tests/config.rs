//! The command line, and the small things that everything uses.

use xwlrvnc::bridge::cursor::CursorState;
use xwlrvnc::bridge::damage::{DamageSink, BBOX, DELTA, NON_EMPTY, RAW};
use xwlrvnc::bridge::event::client::Client;
use xwlrvnc::bridge::event::sink::EventSink;
use xwlrvnc::bridge::event::time::Clock;
use xwlrvnc::bridge::profile;
use xwlrvnc::bridge::x11::atom::Atoms;
use xwlrvnc::bridge::x11::ext::extensions;
use xwlrvnc::bridge::x11::mit_shm::{image_span, Shm, ShmSeg};
use xwlrvnc::bridge::x11::window::Windows;
use xwlrvnc::config::{help, ClipboardType, Config, CursorType, Opt, Parsed, ScreenType, SeatChoice};
use xwlrvnc::util::geometry::{bbox, mm, Geometry, GeometryError, Rectangle};
use xwlrvnc::util::args::ArgEnum;
use xwlrvnc::util::layout::{Layout, OutputRect};
use xwlrvnc::util::region::subtract;

fn parse(args: &[&str]) -> Parsed {
    Config::parse(&args.iter().map(|a| Some(a.to_string())).collect())
}

fn ready(args: &[&str]) -> (Config, usize) {
    match parse(args) {
        Parsed::Ready(c, at) => (c, at),
        _ => panic!("{args:?} is a command line"),
    }
}

#[test]
fn options_end_at_the_command() {
    let (c, at) = ready(&["-display", "5", "-nodamage", "vncserver", "-quiet"]);
    assert_eq!((c.display, c.nodamage, c.quiet, at), (Some(5), true, false, 3));
    let (c, at) = ready(&["-verbose", "--", "-quiet"]);
    assert_eq!((c.verbose, c.quiet, at), (true, false, 2));
    let (_, at) = ready(&["-noprimary"]);
    assert_eq!(at, 1);
}

#[test]
fn values_come_with_or_after_their_option() {
    let (c, _) = ready(&["-screen=SCREENCOPY", "-Cursor", "none", "-fps=20", "-geometry", "800x600"]);
    assert_eq!((c.screen, c.cursor, c.fps), (ScreenType::Screencopy, CursorType::Baked, Some(20)));
    assert_eq!(c.geometry, Some(Geometry { width: 800, height: 600 }));
    let (c, _) = ready(&["-clipboard", "ext", "-seat", "seat1"]);
    assert_eq!((c.clipboard, c.seat.as_deref()), (ClipboardType::Ext, Some("seat1")));
    assert!(matches!(c.seat_choice(), SeatChoice::Named(n) if n == "seat1"));
    let (c, _) = ready(&["-seat", "transient", "-dynres"]);
    assert!(matches!(c.seat_choice(), SeatChoice::Transient));
    assert!(c.outmgr_wants_wlr());
    let (c, _) = ready(&["-dynres", "-outmgr", "none"]);
    assert!(!c.outmgr_wants_wlr());
    assert!(matches!(Config::default().seat_choice(), SeatChoice::First));
}

#[test]
fn wrong_command_lines_say_what_is_wrong() {
    assert!(matches!(parse(&["-help"]), Parsed::Help));
    assert!(matches!(parse(&["-v"]), Parsed::Version));
    assert!(matches!(parse(&["-nonsense"]), Parsed::Unknown(n) if n.iter().collect::<String>() == "nonsense"));
    assert!(matches!(parse(&["-display"]), Parsed::Missing(Opt::Display)));
    assert!(matches!(parse(&["-display", "x"]), Parsed::Invalid(Opt::Display, v) if v == "x"));
    assert!(matches!(parse(&["-geometry", "800"]), Parsed::Invalid(Opt::Geometry, _)));
    assert!(matches!(parse(&["-screen", "cinema"]), Parsed::Invalid(Opt::Screen, _)));
}

#[test]
fn the_help_names_every_option() {
    let text = String::from_utf8(help("xwlrvnc")).unwrap();
    for option in ["-display", "-screen", "-clipboard", "-cursor", "-seat", "-geometry", "-fps", "-nodamage", "-dynres"] {
        assert!(text.contains(option), "{option}");
    }
    assert!(text.contains("xwlrvnc"));
}

#[test]
fn sizes_are_two_numbers() {
    assert_eq!(Geometry::parse("800x600"), Ok(Geometry { width: 800, height: 600 }));
    assert_eq!(Geometry::parse("800"), Err(GeometryError::Shape));
    assert_eq!(Geometry::parse("ax600"), Err(GeometryError::Width));
    assert_eq!(Geometry::parse("800x70000"), Err(GeometryError::Height));
    assert_eq!(mm(96), 25);
}

#[test]
fn a_bounding_box_leaves_out_what_is_empty() {
    let a = Rectangle { x: 5, y: 6, width: 2, height: 2 };
    let b = Rectangle { x: -3, y: 7, width: 1, height: 9 };
    let none = Rectangle { x: 100, y: 100, width: 0, height: 5 };
    let r = bbox(&[a, none, b]).unwrap();
    assert_eq!((r.x, r.y, r.width, r.height), (-3, 6, 10, 10));
    assert!(bbox(&[none]).is_none());
}

#[test]
fn points_outside_every_output_go_to_the_nearest() {
    let l = Layout::new(vec![
        OutputRect { px: 0, py: 0, pw: 100, ph: 100, lx: 0, ly: 0, lw: 50, lh: 50 },
        OutputRect { px: 100, py: 0, pw: 100, ph: 50, lx: 50, ly: 0, lw: 100, lh: 50 },
    ])
    .unwrap();
    assert_eq!(l.to_logical(50, 50), Some((25, 25, 150, 50)));
    assert_eq!(l.to_logical(150, 25), Some((100, 25, 150, 50)));
    // below the shorter one
    assert!(l.resolves(190, 60));
    assert!(l.to_logical(190, 60).is_some());
    assert!(Layout::new(Vec::new()).is_none());
}

#[test]
fn damage_levels_report_in_their_own_way() {
    let mut events = EventSink::default();
    events.register(Client::new(1));
    let clock = Clock { elapsed_ms: 5, floor: 0 };
    let small = Rectangle { x: 1, y: 1, width: 2, height: 2 };
    let inside = Rectangle { x: 1, y: 1, width: 1, height: 1 };
    for (level, first, second) in [(RAW, 2, 1), (DELTA, 2, 0), (BBOX, 1, 0), (NON_EMPTY, 1, 0)] {
        let mut d = DamageSink::default();
        assert!(d.create(1, 9, 0, level, &events));
        assert!(d.active(&events));
        for (rects, expected) in [(vec![small, inside], first), (vec![inside], second)] {
            let told = d.add_damage(&rects, (100, 100), &mut events, &clock);
            let mut n = 0;
            while events.client_mut(1).unwrap().next_write().is_some() {
                n += 1;
            }
            assert_eq!((n, told), (expected, expected), "level {level}");
        }
        d.destroy(1, 9);
        assert!(!d.active(&events));
    }
}

#[test]
fn delta_damage_is_what_is_new() {
    let r = |x, y, width, height| Rectangle { x, y, width, height };
    let known = vec![r(0, 0, 10, 10)];
    assert!(subtract(&vec![r(0, 0, 10, 10)], &known).is_empty());
    assert_eq!(subtract(&vec![r(20, 0, 5, 5)], &known), [r(20, 0, 5, 5)]);
    // one that sticks out on every side
    assert_eq!(
        subtract(&vec![r(-1, -2, 13, 15)], &known),
        [r(-1, -2, 13, 2), r(-1, 10, 13, 3), r(-1, 0, 1, 10), r(10, 0, 2, 10)]
    );
    // no corner could stand where the rest of this one begins
    assert_eq!(subtract(&vec![r(0, 0, 0xffff, 10)], &vec![r(0, 0, 40000, 10)]), [r(0, 0, 0xffff, 10)]);
}

#[test]
fn options_say_their_name_and_choices() {
    for (name, opt) in [("display", Opt::Display), ("screen", Opt::Screen), ("cliptrace", Opt::Cliptrace)] {
        assert_eq!(opt.name(), name);
    }
    assert_eq!(Opt::Screen.choices(), ["auto", "none", "screencopy", "imagecopy"]);
    assert_eq!(Opt::Cursor.choices(), CursorType::variants());
    assert!(Opt::Fps.choices().is_empty());
}

#[test]
fn cursor_serials_are_never_zero() {
    let mut c = CursorState::default();
    assert_eq!(c.serial(), 0);
    assert_eq!(c.update_image(1, 1, 0, 0, vec![1]), 1);
    assert_eq!(c.update_image(1, 1, 0, 0, vec![2]), 2);
    c.update_position(-3, 4);
    let s = c.snapshot();
    assert_eq!((s.serial, s.x, s.y, s.image), (2, -3, 4, vec![2]));
}

#[test]
fn profiles_count_only_when_they_are_kept() {
    let mut p = profile::Profile::default();
    profile::frame(&mut p, 1, 2, 3, 10);
    assert_eq!(profile::take(&mut p).frames, 0);
    profile::start(&mut p, true);
    profile::frame(&mut p, 1, 2, 3, 10);
    profile::frame(&mut p, 5, 4, 9, 60);
    profile::read(&mut p, 100, 1, 2);
    let s = profile::take(&mut p);
    assert_eq!((s.frames, s.blit_wait_sum_ns, s.blit_wait_max_ns, s.frame_gap_max_ns), (2, 6, 5, 50));
    assert_eq!((s.req_lat_max_ns, s.reads, s.read_bytes), (9, 1, 100));
    assert_eq!(profile::take(&mut p).frames, 0);
}

#[test]
fn predefined_atoms_have_their_numbers() {
    let mut a = Atoms::default();
    assert_eq!(a.intern(b"PRIMARY", true), 1);
    assert_eq!(a.intern(b"WM_TRANSIENT_FOR", true), 68);
    assert_eq!(a.intern(b"NEW", true), 0);
    let n = a.intern(b"NEW", false);
    assert_eq!(n, 69);
    assert_eq!(a.name(n), Some(&b"NEW"[..]));
    assert_eq!(a.name(0), None);
    assert_eq!(a.name(70), None);
}

#[test]
fn images_are_cut_to_their_segment() {
    let mut shm = Shm::default();
    shm.attach(5, 100);
    let seg = shm.segment(5).unwrap();
    assert_eq!(image_span(seg, 20, 10, 10), (20, 80));
    assert_eq!(image_span(ShmSeg { size: 1000, ..seg }, 20, 10, 10), (20, 400));
    assert!(shm.detach(5));
    assert!(!shm.detach(5));
}

#[test]
fn event_masks_are_kept_by_window() {
    let mut w = Windows::default();
    w.set_mask(3, 0x40_0000);
    assert!(w.wants_property_change(3));
    assert!(!w.wants_property_change(4));
    w.remove(3);
    assert!(!w.wants_property_change(3));
    let first = w.warn_unsupported(1);
    assert_eq!(w.warn_unsupported(1), 0, "said once: {first}");
}

#[test]
fn extension_codes_do_not_collide() {
    let e = extensions();
    assert_eq!(e.by_opcode(132).map(|d| d.name), Some("RANDR"));
    assert!(e.by_opcode(1).is_none());
}
