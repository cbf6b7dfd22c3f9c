//! What is decided on the compositor's events.

use xwlrvnc::bridge::capture::XRGB;
use xwlrvnc::bridge::dynres::{DynRes, Outcome, Reason, Turn};
use xwlrvnc::bridge::event::client::Client;
use xwlrvnc::bridge::server::Server;
use xwlrvnc::bridge::wayland::capture::cursor::{rank, CursorCap, CursorStep, PointerEvent};
use xwlrvnc::bridge::wayland::capture::imagecopy;
use xwlrvnc::bridge::wayland::capture::imagecopy::{BufferRect, FrameEvent, ImageCopyCapture, SessionEvent};
use xwlrvnc::bridge::wayland::capture::screencopy;
use xwlrvnc::bridge::wayland::capture::screencopy::ScreencopyCapture;
use xwlrvnc::bridge::wayland::capture::{
    fast_interval, pace, tick_captures, Backend, Globals, FAST_INTERVAL, SLOW_INTERVAL,
};
use xwlrvnc::bridge::wayland::output::{Applied, OutputAcc, OutputEvent, Outputs};
use xwlrvnc::bridge::wayland::output_config::{
    no_head_message, tick_without_manager, Attempt, HeadEvent, HeadSetting, ModeEvent, OutputConfig, Phase, Verdict, APPLY_TIMEOUT,
    CANCEL_TIMEOUT, SERIAL_TIMEOUT, SETTLE_TIMEOUT,
};
use xwlrvnc::bridge::wayland::output_power::{settled, Missing, OutputPower};
use xwlrvnc::bridge::wayland::registry::{announced, Global};
use xwlrvnc::bridge::wayland::seats::{Caps, Seats};
use xwlrvnc::bridge::wayland::shm::{argb, blit_channels, format_of, pixel_layout, BufferSpec, Format};
use xwlrvnc::config::{Config, PwrMgrType, SeatChoice};
use xwlrvnc::util::geometry::Geometry;
use xwlrvnc::util::transform::Transform;

fn acc(name: &[u8], width: i32, height: i32, transform: Transform) -> OutputAcc {
    let mut a = OutputAcc::default();
    a.event(OutputEvent::Geometry { x: 0, y: 0, transform });
    a.event(OutputEvent::Mode { current: false, width: 1, height: 1, refresh: 1 });
    a.event(OutputEvent::Mode { current: true, width, height, refresh: 60_000 });
    a.event(OutputEvent::Name(name.to_vec()));
    a
}

// outputs

#[test]
fn an_output_is_placed_once_it_has_a_mode() {
    let mut server = Server::new(Config::default());
    let mut a = OutputAcc::default();
    assert_eq!(server.apply_output(7, &a), Applied::Incomplete);
    a = acc(b"DP-1", 1280, 800, Transform::Normal);
    assert_eq!(server.apply_output(7, &a), Applied::Done { changed: true });
    assert_eq!((server.screen.width, server.screen.height), (1280, 800));
    assert_eq!(server.apply_output(7, &a), Applied::Done { changed: false });
    assert!(server.remove_output(7));
    assert!(!server.remove_output(7));
}

#[test]
fn turned_and_scaled_outputs_have_their_own_sizes() {
    let mut a = acc(b"DP-1", 1280, 800, Transform::Rotate90);
    a.event(OutputEvent::Scale(2));
    let p = a.placement().unwrap();
    assert_eq!((p.width, p.height, p.lw, p.lh), (800, 1280, 400, 640));
    a.event(OutputEvent::LogicalPosition { x: 5, y: 6 });
    a.event(OutputEvent::LogicalSize { width: 533, height: 853 });
    let p = a.placement().unwrap();
    assert_eq!((p.lx, p.ly, p.lw, p.lh), (5, 6, 533, 853));
}

#[test]
fn outputs_are_kept_by_their_names() {
    let mut o = Outputs::new();
    o.announced(3);
    o.announced(3);
    assert!(o.get(3).is_some() && o.get(4).is_none());
    o.get_mut(3).unwrap().event(OutputEvent::Scale(2));
    assert_eq!(o.get(3).unwrap().scale, 2);
    assert!(o.forget(3));
    assert!(!o.forget(3));
}

// resolution changes

/// A server with one 1280x800 output of registry name 7, and its manager.
struct Change {
    server: Server,
    outputs: Outputs,
    cfg: OutputConfig,
}

fn change() -> Change {
    let mut server = Server::new(Config::default());
    let mut outputs = Outputs::new();
    outputs.announced(7);
    *outputs.get_mut(7).unwrap() = acc(b"DP-1", 1280, 800, Transform::Normal);
    server.apply_output(7, outputs.get(7).unwrap());
    server.dynres.set_available(true);
    let mut cfg = OutputConfig::new();
    cfg.head_added(1);
    cfg.head_event(1, HeadEvent::Name(b"DP-1".to_vec()));
    cfg.head_event(1, HeadEvent::Enabled(true));
    cfg.head_added(2);
    cfg.head_event(2, HeadEvent::Name(b"DP-2".to_vec()));
    Change { server, outputs, cfg }
}

impl Change {
    fn park(&mut self, width: u16, height: u16) -> u64 {
        match self.server.dynres.park(7, width, height, false) {
            Turn::Parked(id) => id,
            _ => panic!("it is parked"),
        }
    }

    fn tick(&mut self, now: u64) -> Option<(u64, u32, Vec<(u32, HeadSetting)>)> {
        let w = self.cfg.tick_dynres(&mut self.server.dynres, &self.outputs, &self.server.screen, now);
        w.apply.map(|c| (c.number, c.serial, c.heads))
    }

    fn answer(&mut self, number: u64, verdict: Verdict, now: u64) -> Option<(u64, u32, Vec<(u32, HeadSetting)>)> {
        let w = self.cfg.dynres_config_event(&mut self.server.dynres, &self.server.screen, number, verdict, now);
        w.apply.map(|c| (c.number, c.serial, c.heads))
    }

    fn outcome(&mut self, id: u64) -> Option<Result<(), Reason<String>>> {
        match self.server.dynres.outcome(id, false) {
            Outcome::Answered(r) => Some(r),
            Outcome::Wait => None,
        }
    }
}

#[test]
fn a_change_is_done_once_the_output_shows_it() {
    let mut c = change();
    let id = c.park(1024, 768);
    assert!(c.tick(0).is_none(), "there is no serial yet");
    let w = c.cfg.done(&mut c.server.dynres, &c.server.screen, 55, 10);
    let conf = w.apply.unwrap();
    assert_eq!(conf.serial, 55);
    // every head is mentioned, the other one as it was
    let custom = HeadSetting::Custom { width: 1024, height: 768, refresh: 0 };
    assert_eq!(conf.heads, [(1, custom), (2, HeadSetting::Disable)]);
    assert!(c.answer(conf.number, Verdict::Succeeded, 20).is_none());
    assert_eq!(c.outcome(id), None, "the compositor's word alone does not do it");
    *c.outputs.get_mut(7).unwrap() = acc(b"DP-1", 1024, 768, Transform::Normal);
    c.server.apply_output(7, c.outputs.get(7).unwrap());
    c.cfg.dynres_output_changed(&mut c.server.dynres, &c.server.screen, 7);
    assert_eq!(c.outcome(id), Some(Ok(())));
    assert!(c.cfg.zero_refresh_first);
}

#[test]
fn every_way_is_tried_before_giving_up() {
    let mut c = change();
    c.cfg.head_event(1, HeadEvent::Mode(10));
    c.cfg.mode_event(10, ModeEvent::Size { width: 1024, height: 768 });
    c.cfg.head_event(1, HeadEvent::Mode(11));
    c.cfg.mode_event(11, ModeEvent::Size { width: 1024, height: 768 });
    c.cfg.mode_event(11, ModeEvent::Refresh(75_000));
    c.cfg.done(&mut c.server.dynres, &c.server.screen, 1, 0);
    let id = c.park(1024, 768);
    let (n, _, heads) = c.tick(0).unwrap();
    assert_eq!(heads[0], (1, HeadSetting::Mode(11)), "the fastest advertised one");
    let (n, _, heads) = c.answer(n, Verdict::Failed, 1).unwrap();
    assert_eq!(heads[0], (1, HeadSetting::Custom { width: 1024, height: 768, refresh: 0 }));
    let (n, _, heads) = c.answer(n, Verdict::Failed, 2).unwrap();
    assert_eq!(heads[0], (1, HeadSetting::Custom { width: 1024, height: 768, refresh: 60_000 }));
    assert!(c.answer(n, Verdict::Failed, 3).is_none());
    assert_eq!(c.outcome(id), Some(Err(Reason::Rejected)));
}

#[test]
fn an_accepted_configuration_that_does_nothing_is_not_believed() {
    let mut c = change();
    c.cfg.done(&mut c.server.dynres, &c.server.screen, 1, 0);
    let id = c.park(1024, 768);
    let (n, _, _) = c.tick(0).unwrap();
    assert!(c.answer(n, Verdict::Succeeded, 0).is_none());
    assert!(c.tick(SETTLE_TIMEOUT - 1).is_none());
    let (n, _, heads) = c.tick(SETTLE_TIMEOUT).unwrap();
    assert_eq!(heads[0], (1, HeadSetting::Custom { width: 1024, height: 768, refresh: 60_000 }));
    assert!(c.answer(n, Verdict::Succeeded, SETTLE_TIMEOUT).is_none());
    assert!(c.tick(2 * SETTLE_TIMEOUT).is_none());
    assert_eq!(c.outcome(id), Some(Err(Reason::Rejected)));
}

#[test]
fn cancelled_configurations_wait_for_a_fresh_serial() {
    let mut c = change();
    c.cfg.done(&mut c.server.dynres, &c.server.screen, 1, 0);
    let id = c.park(1024, 768);
    let mut n = c.tick(0).unwrap().0;
    for serial in 2..5 {
        assert!(c.answer(n, Verdict::Cancelled, 0).is_none());
        let w = c.cfg.done(&mut c.server.dynres, &c.server.screen, serial, 0);
        n = w.apply.unwrap().number;
    }
    assert!(c.answer(n, Verdict::Cancelled, 0).is_none());
    assert_eq!(c.outcome(id), Some(Err(Reason::Cancelling)));
    // and one that gets none is given up
    let id = c.park(800, 600);
    let n = c.tick(0).unwrap().0;
    c.answer(n, Verdict::Cancelled, 0);
    c.tick(CANCEL_TIMEOUT);
    assert_eq!(c.outcome(id), Some(Err(Reason::Cancelling)));
}

#[test]
fn a_silent_compositor_is_given_up_on() {
    let mut c = change();
    let id = c.park(1024, 768);
    c.tick(0);
    c.tick(SERIAL_TIMEOUT);
    assert_eq!(c.outcome(id), Some(Err(Reason::NoSerial)));
    c.cfg.done(&mut c.server.dynres, &c.server.screen, 1, 0);
    let id = c.park(1024, 768);
    let n = c.tick(0).unwrap().0;
    let w = c.cfg.tick_dynres(&mut c.server.dynres, &c.outputs, &c.server.screen, APPLY_TIMEOUT);
    assert_eq!(w.destroy, Some(n));
    assert_eq!(c.outcome(id), Some(Err(Reason::Unanswered)));
    // an answer that comes later is nobody's
    assert!(c.answer(n, Verdict::Succeeded, APPLY_TIMEOUT).is_none());
}

#[test]
fn a_request_ends_with_its_output() {
    let mut c = change();
    let id = c.park(1024, 768);
    c.tick(0);
    c.cfg.dynres_output_removed(&mut c.server.dynres, 7);
    assert_eq!(c.outcome(id), Some(Err(Reason::OutputGone)));
    let id = c.park(1024, 768);
    c.tick(0);
    let (head, _) = c.cfg.head_finished(&mut c.server.dynres, 1);
    assert_eq!(head.map(|h| h.id), Some(1));
    assert_eq!(c.outcome(id), Some(Err(Reason::OutputGone)));
    // no head of that name is left, though the other one has a name
    let id = c.park(1024, 768);
    c.tick(0);
    match c.outcome(id) {
        Some(Err(reason @ Reason::NoHead(_))) => {
            assert!(reason.message().starts_with("no zwlr_output_head_v1 named "), "{}", reason.message());
        }
        other => panic!("there is no head: {other:?}"),
    }
    c.outputs.forget(7);
    let id = c.park(1024, 768);
    c.tick(0);
    assert_eq!(c.outcome(id), Some(Err(Reason::NoOutput)));
}

#[test]
fn a_manager_that_goes_takes_the_requests_with_it() {
    let mut c = change();
    let id = c.park(1024, 768);
    c.tick(0);
    c.cfg.finished(&mut c.server.dynres);
    assert_eq!(c.outcome(id), Some(Err(Reason::Withdrawn)));
    assert!(!c.server.dynres.available());
    let id = c.park(1024, 768);
    assert!(tick_without_manager(&mut c.server.dynres));
    assert_eq!(c.outcome(id), Some(Err(Reason::NoManager)));
    assert!(!tick_without_manager(&mut c.server.dynres));
}

#[test]
fn a_turned_output_has_its_mode_the_other_way_round() {
    let mut c = change();
    *c.outputs.get_mut(7).unwrap() = acc(b"DP-1", 1280, 800, Transform::Rotate90);
    c.cfg.done(&mut c.server.dynres, &c.server.screen, 1, 0);
    c.park(600, 1024);
    let (_, _, heads) = c.tick(0).unwrap();
    assert_eq!(heads[0], (1, HeadSetting::Custom { width: 1024, height: 600, refresh: 0 }));
    let a = c.cfg.active.as_ref().unwrap();
    assert_eq!((a.phase, a.current), (Phase::Applying, Some(Attempt::Custom { refresh: 0 })));
}

#[test]
fn modes_come_and_go() {
    let mut c = change();
    c.cfg.head_event(1, HeadEvent::Mode(10));
    c.cfg.mode_event(10, ModeEvent::Preferred);
    assert!(c.cfg.heads[0].modes[0].preferred);
    c.cfg.mode_finished(10);
    assert!(c.cfg.heads[0].modes.is_empty());
    // with a single head the name does not matter where one has none
    let mut one = OutputConfig::new();
    one.head_added(5);
    assert_eq!(one.head_named(&b"X".to_vec()), Some(0));
    one.head_event(5, HeadEvent::Name(b"Y".to_vec()));
    assert_eq!(one.head_named(&b"X".to_vec()), None);
    assert_eq!(one.head_named(&Vec::new()), Some(0));
}

#[test]
fn one_change_at_a_time() {
    let mut d = DynRes::default();
    assert!(matches!(d.park(1, 2, 3, false), Turn::Parked(1)));
    assert!(matches!(d.park(1, 2, 3, false), Turn::Wait));
    assert!(matches!(d.park(1, 2, 3, true), Turn::GivenUp(Reason::Busy)));
    // a waiter that is late takes its request with it
    assert!(matches!(d.outcome(1, true), Outcome::Answered(Err(Reason::TimedOut))));
    assert!(d.take().is_none());
    assert!(matches!(d.park(1, 2, 3, false), Turn::Parked(2)));
    assert_eq!(d.take().map(|r| r.id), Some(2));
    d.complete(2, Ok(()));
    assert!(matches!(d.outcome(1, false), Outcome::Wait));
    assert!(matches!(d.outcome(2, false), Outcome::Answered(Ok(()))));
    assert_eq!(Reason::<String>::Lost.message(), "the wayland connection was lost");
}

// power

#[test]
fn a_sleeping_output_is_woken_once() {
    let mut p = OutputPower::default();
    assert!(!p.is_asleep());
    assert!(!p.mode(false, false), "nobody is watching");
    assert!(p.is_asleep());
    assert!(!p.mode(false, true), "it slept already");
    assert!(!p.mode(true, true));
    assert!(p.mode(false, true));
    assert!(p.failed());
    assert!(!p.failed());
    assert!(!p.is_asleep());
    assert_eq!(settled(PwrMgrType::Wlr, false), Some(Missing::Warning));
    assert_eq!(settled(PwrMgrType::Auto, false), Some(Missing::Detail));
    assert_eq!(settled(PwrMgrType::Off, false), None);
    assert_eq!(settled(PwrMgrType::Wlr, true), None);
}

// seats

const BOTH: Caps = Caps { keyboard: true, pointer: true };

#[test]
fn the_first_seat_is_taken() {
    let mut s = Seats::new(SeatChoice::First);
    assert!(s.is_without_seat());
    let w = s.seat_announced(5);
    assert_eq!(w.selected, Some(5));
    assert!(!w.keyboard);
    assert_eq!(s.seat_announced(6).selected, None);
    let w = s.seat_capabilities(5, BOTH);
    assert!(w.keyboard && w.pointer);
    let w = s.seat_capabilities(5, BOTH);
    assert!(!w.keyboard && !w.pointer, "only once");
    assert_eq!((s.seat, s.clipboard_seat), (Some(5), Some(5)));
}

#[test]
fn a_named_seat_is_waited_for() {
    let mut s = Seats::new(SeatChoice::Named("seat1".to_string()));
    assert_eq!(s.seat_announced(5).selected, None);
    assert_eq!(s.seat_announced(6).selected, None);
    s.seat_capabilities(6, BOTH);
    assert_eq!(s.seat_named(5, &"seat0".to_string()).selected, None);
    assert!(s.is_without_seat());
    let w = s.seat_named(6, &"seat1".to_string());
    assert_eq!(w.selected, Some(6));
    assert!(w.keyboard && w.pointer, "what it has was heard before");
}

#[test]
fn a_transient_seat_in_either_order() {
    let mut s = Seats::new(SeatChoice::Transient);
    s.transient_requested();
    s.seat_announced(5);
    s.seat_announced(9);
    let w = s.transient_ready(9);
    assert_eq!(w.selected, Some(9));
    assert_eq!((s.seat, s.clipboard_seat), (Some(9), Some(5)), "the clipboard stays on the real seat");
    let mut s = Seats::new(SeatChoice::Transient);
    s.transient_requested();
    s.seat_announced(5);
    assert_eq!(s.transient_ready(9).selected, None);
    assert_eq!(s.seat_announced(9).selected, Some(9));
    assert_eq!((s.seat, s.clipboard_seat), (Some(9), Some(5)));
}

#[test]
fn without_a_transient_seat_the_first_one_is_used() {
    let mut s = Seats::new(SeatChoice::Transient);
    s.seat_announced(8);
    s.seat_announced(4);
    let w = s.transient_settled().expect("there is no manager");
    assert_eq!((w.selected, w.drop_transient), (Some(4), false));
    let mut s = Seats::new(SeatChoice::Transient);
    s.transient_requested();
    assert!(s.transient_settled().is_none(), "it is on its way");
    let w = s.transient_fallback();
    assert_eq!((w.selected, w.drop_transient), (None, true));
    assert_eq!(s.seat_announced(3).selected, Some(3));
}

// the registry

#[test]
fn globals_are_bound_at_a_known_version() {
    let mut c = Config::default();
    assert_eq!(announced(&c, "wl_output", 99), Some((Global::Output, 4)));
    assert_eq!(announced(&c, "wl_seat", 5), Some((Global::Seat, 5)));
    assert_eq!(announced(&c, "wl_compositor", 5), None);
    assert_eq!(announced(&c, "zwlr_output_manager_v1", 4), None, "only with -dynres");
    c.dynres = true;
    assert_eq!(announced(&c, "zwlr_output_manager_v1", 9), Some((Global::OutputManager, 4)));
    assert_eq!(announced(&c, "ext_transient_seat_manager_v1", 1), None);
    c.seat = Some("transient".to_string());
    assert_eq!(announced(&c, "ext_transient_seat_manager_v1", 1), Some((Global::TransientSeatManager, 1)));
}

// pixel formats

#[test]
fn formats_are_byte_orders() {
    assert_eq!(format_of(0), Format::Argb8888);
    assert_eq!(format_of(1), Format::Xrgb8888);
    assert_eq!(format_of(0x34324241), Format::Abgr8888);
    assert_eq!(format_of(0x30335258), Format::Other(0x30335258));
    assert_eq!(pixel_layout(Format::Rgba8888), Some(([1, 2, 3], Some(0))));
    assert_eq!(blit_channels(Format::Xrgb8888), (XRGB, true));
    assert_eq!(blit_channels(Format::Other(9)), (XRGB, false));
    assert_eq!(argb(0x11223344, Some(Format::Argb8888)), 0x11223344);
    assert_eq!(argb(0x11223344, Some(Format::Xrgb8888)), 0xff223344);
    assert_eq!(argb(0x11223344, Some(Format::Abgr8888)), 0x11443322);
    assert_eq!(argb(0x11223344, None), 0xff223344);
    assert_eq!(rank(Format::Argb8888), 3);
    assert_eq!(rank(Format::Abgr8888), 2);
    assert_eq!(rank(Format::Xrgb8888), 1);
    assert_eq!(rank(Format::Other(9)), 0);
    let b = BufferSpec { format: Format::Xrgb8888, width: 2, height: 3, stride: 8 };
    assert_eq!(b.size(), Some(24));
    assert_eq!(BufferSpec { height: 0, ..b }.size(), None);
}

// pacing

#[test]
fn the_interval_follows_the_change_rate() {
    assert_eq!(fast_interval(None), FAST_INTERVAL);
    assert_eq!(fast_interval(Some(20)), 50_000_000);
    assert_eq!(fast_interval(Some(0)), 1_000_000_000);
    assert_eq!(pace(FAST_INTERVAL, false, FAST_INTERVAL), 49_500_000);
    assert_eq!(pace(200_000_000, false, FAST_INTERVAL), SLOW_INTERVAL);
    assert_eq!(pace(SLOW_INTERVAL, true, FAST_INTERVAL), FAST_INTERVAL);
}

#[test]
fn the_better_backend_is_chosen() {
    let g = Globals { settled: false, shm: true, screencopy: true, ext_source: true, ext_capture: false };
    assert_eq!(g.maybe_start_captures(Backend::Off), Backend::Off);
    let g = Globals { settled: true, ..g };
    assert_eq!(g.maybe_start_captures(Backend::Off), Backend::Screencopy);
    let g = Globals { ext_capture: true, ..g };
    assert_eq!(g.maybe_start_captures(Backend::Screencopy), Backend::ImageCopy);
    assert_eq!(g.maybe_start_captures(Backend::Off), Backend::ImageCopy);
    let mut active = false;
    assert!(tick_captures(&mut active, Backend::ImageCopy, true).started);
    assert!(!tick_captures(&mut active, Backend::ImageCopy, true).started);
    assert!(tick_captures(&mut active, Backend::ImageCopy, false).stopped);
    assert!(!tick_captures(&mut active, Backend::Off, true).capture);
}

// frames

/// A server with a 4x2 output of registry name 7, and a client that may watch.
fn small() -> Server {
    let mut server = Server::new(Config::default());
    server.apply_output(7, &acc(b"DP-1", 4, 2, Transform::Normal));
    server.events.register(Client::new(1));
    server.set_time(1000);
    server
}

fn spec() -> BufferSpec {
    BufferSpec { format: Format::Xrgb8888, width: 4, height: 2, stride: 16 }
}

#[test]
fn a_screencopy_frame_is_shown_and_paced() {
    let mut server = small();
    server.damage.create(1, 0x30, 0, 1, &server.events);
    let mut cap = ScreencopyCapture::new();
    cap.sync_outputs(&vec![(7, Transform::Normal)], 0, FAST_INTERVAL);
    cap.sync_outputs(&vec![(7, Transform::Normal)], 0, FAST_INTERVAL);
    assert_eq!(cap.ctxs.len(), 1);
    assert_eq!(cap.tick(0), (vec![7], SLOW_INTERVAL));
    let i = cap.find(7).unwrap();
    let c = &mut cap.ctxs[i];
    c.started(100, 0);
    // another frame's events are nobody's
    assert_eq!(c.frame_event(99, screencopy::FrameEvent::Ready, false, 0), screencopy::Step::Destroy);
    assert_eq!(c.frame_event(99, screencopy::FrameEvent::BufferDone, false, 0), screencopy::Step::Nothing);
    assert_eq!(c.frame_event(100, screencopy::FrameEvent::Buffer(spec()), false, 0), screencopy::Step::Nothing);
    assert_eq!(
        c.frame_event(100, screencopy::FrameEvent::BufferDone, false, 0),
        screencopy::Step::Copy { buffer: spec(), fresh: true }
    );
    c.buffer_made(spec());
    assert_eq!(c.frame_event(100, screencopy::FrameEvent::Ready, false, 0), screencopy::Step::Show);
    let mut pixels = vec![7u8; 32];
    assert!(c.frame_ready(&mut server, &pixels, FAST_INTERVAL, 1000).is_some());
    assert_eq!((c.frame, c.next_at), (None, 1000 + FAST_INTERVAL));
    assert_eq!(server.framebuffer.read_rect(0, 0, 4, 2, 1000), pixels);
    assert!(server.events.client_mut(1).unwrap().next_write().is_some(), "a DamageNotify");
    // the same again: nothing changed, so the next one is later
    assert!(c.frame_ready(&mut server, &pixels, FAST_INTERVAL, 1000).is_none());
    assert_eq!(c.interval, 49_500_000);
    // the buffer is kept while it is the one that is wanted
    c.started(101, 0);
    assert_eq!(
        c.frame_event(101, screencopy::FrameEvent::Buffer(spec()), true, 0),
        screencopy::Step::Copy { buffer: spec(), fresh: false }
    );
    c.frame_event(101, screencopy::FrameEvent::Flags { y_invert: true }, true, 0);
    pixels[0] = 1;
    c.frame_ready(&mut server, &pixels, FAST_INTERVAL, 0);
    assert_eq!(server.framebuffer.read_rect(0, 1, 1, 1, 1000)[0], 1, "the rows are upside down");
    c.started(102, 0);
    assert_eq!(c.frame_event(102, screencopy::FrameEvent::Failed, true, 5), screencopy::Step::Destroy);
    assert_eq!(c.next_at, 5 + SLOW_INTERVAL);
    assert!(cap.remove_output(7).is_some());
}

#[test]
fn without_damage_a_read_keeps_captures_fast() {
    let mut server = small();
    let mut cap = ScreencopyCapture::new();
    cap.sync_outputs(&vec![(7, Transform::Normal)], 0, FAST_INTERVAL);
    let c = &mut cap.ctxs[0];
    c.buffer_made(spec());
    c.frame_ready(&mut server, &[0; 32], FAST_INTERVAL, 0);
    assert_eq!(c.interval, 49_500_000);
    server.framebuffer.read_rect(0, 0, 1, 1, 1234);
    c.frame_ready(&mut server, &[0; 32], FAST_INTERVAL, 0);
    assert_eq!(c.interval, FAST_INTERVAL);
    assert!(server.capture_enabled(1300));
    assert!(!server.capture_enabled(9000));
}

#[test]
fn an_image_session_is_negotiated_and_captures() {
    let mut server = small();
    server.damage.create(1, 0x30, 0, 1, &server.events);
    let mut cap = ImageCopyCapture::new();
    cap.sync_outputs(&vec![(7, Transform::Normal)], 0);
    let i = cap.find(7).unwrap();
    let c = &mut cap.ctxs[i];
    let open = imagecopy::Step::Open { paint_cursors: false, cursor: true };
    assert_eq!(c.start_capture_ext(false, true, 0), open);
    assert_eq!(c.start_capture_ext(false, true, 0), imagecopy::Step::Nothing, "no constraints yet");
    assert_eq!(c.screen_session_event(SessionEvent::Done, false, true, 0), imagecopy::Step::NoFormat);
    c.screen_session_event(SessionEvent::BufferSize { width: 4, height: 2 }, false, true, 0);
    c.screen_session_event(SessionEvent::ShmFormat(Format::Other(9)), false, true, 0);
    c.screen_session_event(SessionEvent::ShmFormat(Format::Xbgr8888), false, true, 0);
    c.screen_session_event(SessionEvent::ShmFormat(Format::Argb8888), false, true, 0);
    assert_eq!(c.session_format, Some(Format::Xbgr8888), "the first byte order");
    c.screen_session_event(SessionEvent::ShmFormat(Format::Xrgb8888), false, true, 0);
    assert_eq!(c.session_format, Some(Format::Xrgb8888));
    match c.screen_session_event(SessionEvent::Done, false, true, 0) {
        imagecopy::Step::Capture(shot) => assert_eq!((shot.buffer, shot.fresh), (spec(), true)),
        _ => panic!("the first frame is asked for"),
    }
    c.buffer_made(spec());
    c.started(100, 0);
    assert_eq!(c.start_capture_ext(false, true, 0), imagecopy::Step::Nothing, "one at a time");
    c.screen_frame_event(100, FrameEvent::Damage(BufferRect { x: 1, y: 0, width: 2, height: 1 }), 0);
    assert_eq!(c.screen_frame_event(100, FrameEvent::Ready, 0), imagecopy::Step::Show);
    c.frame_ready(&mut server, &[9; 32], 50);
    assert_eq!((c.frame, c.next_at), (None, 50));
    assert_eq!(server.framebuffer.read_rect(3, 1, 1, 1, 1), [9; 4]);
    let parts = server.damage.subtract(1, 0x30);
    assert_eq!(parts.len(), 1);
    assert_eq!((parts[0].x, parts[0].y, parts[0].width, parts[0].height), (1, 0, 2, 1));
    // a buffer that does not fit is made again
    c.started(101, 0);
    assert_eq!(
        c.screen_frame_event(101, FrameEvent::Failed { constraints: true }, 0),
        imagecopy::Step::Destroy
    );
    match c.start_capture_ext(false, true, 0) {
        imagecopy::Step::Capture(shot) => assert!(shot.fresh),
        _ => panic!("another frame is asked for"),
    }
    assert_eq!(c.screen_session_event(SessionEvent::Stopped, false, true, 0), imagecopy::Step::Stopped);
    assert_eq!(cap.tick(SLOW_INTERVAL), (vec![7], SLOW_INTERVAL));
}

#[test]
fn turned_damage_is_turned_back() {
    let mut server = Server::new(Config::default());
    server.apply_output(7, &acc(b"DP-1", 4, 2, Transform::Rotate90));
    server.events.register(Client::new(1));
    server.damage.create(1, 0x30, 0, 1, &server.events);
    let mut cap = ImageCopyCapture::new();
    cap.sync_outputs(&vec![(7, Transform::Rotate90)], 0);
    let c = &mut cap.ctxs[0];
    c.buffer_made(spec());
    c.started(100, 0);
    c.screen_frame_event(100, FrameEvent::Damage(BufferRect { x: 1, y: 0, width: 2, height: 1 }), 0);
    c.frame_ready(&mut server, &[9; 32], 50);
    let parts = server.damage.subtract(1, 0x30);
    assert_eq!((parts[0].x, parts[0].y, parts[0].width, parts[0].height), (1, 1, 1, 2));
}

#[test]
fn a_cursor_is_captured_while_it_is_there() {
    let mut server = small();
    server.events.client_mut(1).unwrap().select_cursor(0x16b);
    let mut c = CursorCap::open();
    c.session_event(SessionEvent::BufferSize { width: 2, height: 1 });
    c.session_event(SessionEvent::ShmFormat(Format::Xrgb8888));
    c.session_event(SessionEvent::ShmFormat(Format::Argb8888));
    assert_eq!(c.cap_format, Some(Format::Argb8888));
    assert!(c.session_event(SessionEvent::Done).is_none(), "the pointer is elsewhere");
    let shot = c.pointer_event(&mut server, 7, PointerEvent::Enter).unwrap();
    assert!(shot.fresh);
    c.buffer_made(shot.buffer);
    c.started(100);
    c.pointer_event(&mut server, 7, PointerEvent::Position { x: 3, y: 1 });
    c.pointer_event(&mut server, 7, PointerEvent::Hotspot { x: -5, y: 70_000 });
    assert_eq!(c.frame_event(99, FrameEvent::Ready, 0), CursorStep::Destroy);
    c.frame_event(100, FrameEvent::Transform(Transform::Rotate90), 0);
    assert_eq!(c.frame_event(100, FrameEvent::Ready, 0), CursorStep::Show);
    assert!(c.frame_ready(&mut server, &[0xaabbccdd, 0x11223344]).is_some(), "the next one is asked for");
    let s = server.cursor.snapshot();
    assert_eq!((s.x, s.y, s.width, s.height, s.xhot, s.yhot), (3, 1, 1, 2, 0, 0xffff));
    assert_eq!(s.image, [0xaabbccdd, 0x11223344]);
    assert!(server.events.client_mut(1).unwrap().next_write().is_some(), "a CursorNotify");
    c.started(101);
    assert_eq!(c.frame_event(101, FrameEvent::Failed { constraints: true }, 0), CursorStep::Destroy);
    assert!(!c.retries(SLOW_INTERVAL - 1));
    assert!(c.retries(SLOW_INTERVAL));
    c.pointer_event(&mut server, 7, PointerEvent::Leave);
    assert!(c.start().is_none());
}

#[test]
fn a_stopped_cursor_session_is_opened_again() {
    let mut cap = ImageCopyCapture::new();
    cap.sync_outputs(&vec![(7, Transform::Normal)], 0);
    cap.ctxs[0].create_ext_session(false, true, 0);
    assert!(cap.ctxs[0].cursor_cap.is_some());
    cap.ctxs[0].cursor_stopped(0);
    assert!(cap.ctxs[0].cursor_cap.is_none());
    assert_eq!(cap.tick_cursors(false, true, SLOW_INTERVAL - 1), (vec![], vec![]));
    assert_eq!(cap.tick_cursors(true, true, SLOW_INTERVAL), (vec![], vec![]), "baked");
    assert_eq!(cap.tick_cursors(false, true, SLOW_INTERVAL), (vec![7], vec![]));
    assert!(cap.ctxs[0].cursor_cap.is_some());
}

#[test]
fn a_seats_capabilities_replace_the_old_ones() {
    let mut s = Seats::new(SeatChoice::Transient);
    for keyboard in [false, true, false] {
        s.seat_capabilities(3, Caps { keyboard, pointer: true });
    }
    s.seat_capabilities(4, Caps { keyboard: true, pointer: false });
    assert_eq!(s.caps, [(3, Caps { keyboard: false, pointer: true }), (4, Caps { keyboard: true, pointer: false })]);
}

#[test]
fn a_missing_head_is_told_with_those_there_are() {
    let mut c = OutputConfig::new();
    assert_eq!(c.no_head(b"DP-1"), "no zwlr_output_head_v1 named \"DP-1\" (heads: )");
    for (id, name) in [(1, "HDMI-A-1"), (2, "eDP-1")] {
        c.head_added(id);
        c.head_event(id, HeadEvent::Name(name.as_bytes().to_vec()));
    }
    assert_eq!(c.no_head(b"DP-1"), "no zwlr_output_head_v1 named \"DP-1\" (heads: HDMI-A-1, eDP-1)");
    // the name is escaped
    assert_eq!(
        c.no_head(b"a\"b\\c\n\xff"),
        format!("no zwlr_output_head_v1 named {:?} (heads: HDMI-A-1, eDP-1)", "a\"b\\c\n\u{fffd}")
    );
    let heads = vec!["x".to_string()];
    assert_eq!(no_head_message("<n>", &heads), "no zwlr_output_head_v1 named <n> (heads: x)");
}

#[test]
fn a_new_output_has_nothing_yet() {
    let mut outputs = Outputs::new();
    outputs.announced(5);
    let a = outputs.get(5).unwrap();
    assert_eq!((a.x, a.y, a.width, a.height, a.refresh_mhz, a.scale), (0, 0, 0, 0, 0, 0));
    assert_eq!((a.transform, a.logical_pos, a.logical_size), (Transform::Normal, None, None));
    assert!(a.name.is_empty());
}

#[test]
fn a_server_starts_with_what_was_asked_for() {
    let s = Server::new(Config { geometry: Some(Geometry { width: 800, height: 600 }), ..Config::default() });
    assert_eq!((s.geometry().width, s.geometry().height), (800, 600));
    assert!(s.keymap.is_none());
    assert_eq!(s.framebuffer.read_at(), None);
    let corner = s.input.fake_input(6, 0, 10, 10, None);
    assert!(corner.is_empty(), "there are no devices yet");
}
