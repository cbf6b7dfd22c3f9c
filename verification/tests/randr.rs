//! The RandR model.

use xwlrvnc::bridge::x11::randr::{ModeInfo, Output, Screen, MAX_SCREEN};

/// A screen mirroring one 1280x800 Wayland output (registry name 7).
fn screen() -> Screen {
    let mut s = Screen::new(640, 480);
    assert!(s.sync_wayland_output(7, b"HEADLESS-1", 0, 0, 1280, 800, 1280, 800, 60_000));
    s
}

fn the_output(s: &Screen) -> &Output {
    s.output_by_wl_name(7).expect("the wayland output")
}

fn native_modes(s: &Screen) -> Vec<(u16, u16)> {
    s.modes.iter().filter(|m| m.ours).map(|m| (m.info.width, m.info.height)).collect()
}

#[test]
fn wayland_output_replaces_the_default() {
    let s = screen();
    assert_eq!(s.outputs.len(), 1);
    assert_eq!((s.width, s.height), (1280, 800));
    assert_eq!(native_modes(&s), vec![(1280, 800)]);
    assert_eq!(s.mode_size(the_output(&s).mode), Some((1280, 800)));
}

#[test]
fn set_crtc_leaves_the_screen_size_alone() {
    // RRSetCrtcConfig never resizes the screen; that is RRSetScreenSize's
    // job (and RealVNC disables the CRTC before it shrinks the screen)
    let mut s = screen();
    let crtc = the_output(&s).crtc_id;
    let ts = s.config_timestamp;
    assert!(s.set_crtc(crtc, 0, 0, 0));
    assert_eq!(the_output(&s).mode, 0);
    assert_eq!((s.width, s.height), (1280, 800));
    assert_ne!(s.config_timestamp, ts);
    assert!(s.layout_rects().is_empty(), "a disabled CRTC takes no input");
    assert!(!s.set_crtc(crtc, 0, 0, 12345), "unknown mode");
    assert!(!s.set_crtc(999, 0, 0, 0), "unknown crtc");
}

#[test]
fn set_size_is_clamped() {
    let mut s = screen();
    s.set_size(0, 40_000);
    assert_eq!((s.width, s.height), (1, MAX_SCREEN));
}

#[test]
fn compositor_change_reuses_the_clients_mode_and_retires_the_native_one() {
    let mut s = screen();
    let (output, crtc) = (the_output(&s).output_id, the_output(&s).crtc_id);
    // the client's sequence: create + add a mode, disable, resize, set
    let info = ModeInfo {
        id: 0,
        width: 1024,
        height: 640,
        dot_clock: 0,
        hsync_start: 0,
        hsync_end: 0,
        htotal: 1024,
        hskew: 0,
        vsync_start: 0,
        vsync_end: 0,
        vtotal: 640,
        name_len: 0,
        mode_flags: 0,
    };
    let client_mode = s.create_mode(info, b"1024x640_vnc".to_vec());
    s.add_output_mode(output, client_mode);
    assert!(s.set_crtc(crtc, 0, 0, 0));
    s.set_size(1024, 640);
    // ... and the compositor's answer, as a wl_output change
    assert!(s.sync_wayland_output(7, b"HEADLESS-1", 0, 0, 1024, 640, 1024, 640, 60_000));
    let o = the_output(&s);
    assert_eq!((o.width, o.height), (1024, 640));
    assert_eq!(o.mode, client_mode, "the listed mode of that size is reused");
    assert_eq!((s.width, s.height), (1024, 640));
    assert!(
        native_modes(&s).is_empty(),
        "the old native mode is retired even though the CRTC was disabled"
    );
    assert!(
        s.modes.iter().any(|m| m.info.id == client_mode),
        "the client's mode is the client's to destroy"
    );
    // adopting is then a no-op
    let ts = s.config_timestamp;
    s.adopt_mode(crtc, client_mode);
    assert_eq!(s.config_timestamp, ts);
}

#[test]
fn adopt_mode_switches_to_the_clients_mode_of_the_same_size() {
    let mut s = screen();
    let crtc = the_output(&s).crtc_id;
    // the compositor changed first (a native mode was allocated), then the
    // client's own mode of that size is adopted
    assert!(s.sync_wayland_output(7, b"HEADLESS-1", 0, 0, 800, 600, 800, 600, 60_000));
    assert_eq!(native_modes(&s), vec![(800, 600)]);
    let client_mode = s.alloc_mode(800, 600, 0);
    s.modes.last_mut().unwrap().ours = false;
    s.adopt_mode(crtc, client_mode);
    assert_eq!(the_output(&s).mode, client_mode);
    assert!(native_modes(&s).is_empty(), "the native mode of that size is pruned");
    // a mode of another size is not adopted
    let other = s.alloc_mode(640, 480, 0);
    s.adopt_mode(crtc, other);
    assert_eq!(the_output(&s).mode, client_mode);
}

#[test]
fn restore_outputs_undoes_a_refused_reconfiguration() {
    let mut s = screen();
    let crtc = the_output(&s).crtc_id;
    let mode = the_output(&s).mode;
    assert!(!s.restore_outputs(), "nothing to restore");
    // the client disabled the CRTC and shrank the screen for a mode the
    // compositor then refused
    assert!(s.set_crtc(crtc, 0, 0, 0));
    s.set_size(1000, 700);
    assert!(s.restore_outputs());
    let o = the_output(&s);
    assert_eq!(o.mode, mode, "re-enabled at the output's real mode");
    assert_eq!((o.width, o.height), (1280, 800));
    assert_eq!((s.width, s.height), (1280, 800), "the screen is the outputs' bounds again");
    assert_eq!(s.layout_rects().len(), 1);
}

#[test]
fn unchanged_compositor_state_is_a_no_op() {
    let mut s = screen();
    let ts = s.config_timestamp;
    assert!(!s.sync_wayland_output(7, b"HEADLESS-1", 0, 0, 1280, 800, 1280, 800, 60_000));
    assert_eq!(s.config_timestamp, ts);
}

#[test]
fn removing_the_output_prunes_its_native_mode() {
    let mut s = screen();
    assert!(s.remove_wayland_output(7));
    assert!(s.outputs.is_empty());
    assert!(native_modes(&s).is_empty());
    assert_eq!((s.width, s.height), (1, 1));
    assert!(!s.remove_wayland_output(7));
}

#[test]
fn a_second_output_goes_beside_the_first() {
    let mut s = screen();
    // to the right of a 2x scaled output: its physical place follows the first's pixels
    assert!(s.sync_wayland_output(7, b"A", 0, 0, 640, 400, 1280, 800, 60_000));
    assert!(s.sync_wayland_output(8, b"B", 640, 0, 1024, 768, 1024, 768, 60_000));
    assert_eq!(s.physical_pos(7), Some((0, 0)));
    assert_eq!(s.physical_pos(8), Some((1280, 0)));
    assert_eq!((s.width, s.height), (2304, 800));
    assert_eq!(s.physical_pos(9), None);
}

#[test]
fn an_output_that_is_only_moved_is_put_back() {
    let mut s = Screen::new(640, 480);
    s.sync_wayland_output(7, b"A", 0, 0, 1000, 1000, 1000, 1000, 60000);
    s.sync_wayland_output(8, b"B", 1000, 0, 500, 500, 500, 500, 60000);
    let (crtc, mode) = s.output_by_wl_name(8).map(|o| (o.crtc_id, o.mode)).unwrap();
    assert!(s.set_crtc(crtc, 1000, 200, mode));
    assert!(s.restore_outputs());
    let o = s.output_by_wl_name(8).unwrap();
    assert_eq!((o.x, o.y, o.mode), (1000, 0, mode));
    assert_eq!((s.width, s.height), (1500, 1000));
    assert!(!s.restore_outputs());
}
