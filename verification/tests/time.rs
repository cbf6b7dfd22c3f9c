//! The server's clock.

use xwlrvnc::bridge::event::time::{note_selection_time, server_time_ms, time_cmp, Clock};

#[test]
fn the_clock_never_drops_below_a_selection_time() {
    let mut clock = Clock { elapsed_ms: 5000, floor: 0 };
    let ahead = server_time_ms(&clock).wrapping_add(1000);
    note_selection_time(&mut clock, ahead);
    assert!(time_cmp(server_time_ms(&clock), ahead).is_ge());
    // an older one does not pull it back
    note_selection_time(&mut clock, ahead.wrapping_sub(500));
    assert!(time_cmp(server_time_ms(&clock), ahead).is_ge());
}

#[test]
fn timestamps_compare_across_the_wrap() {
    assert!(time_cmp(1, u32::MAX).is_gt());
    assert!(time_cmp(u32::MAX, 1).is_lt());
    assert!(time_cmp(7, 7).is_eq());
}

#[test]
fn the_time_is_never_zero() {
    assert_eq!(server_time_ms(&Clock { elapsed_ms: 0, floor: 0 }), 1);
    assert_eq!(server_time_ms(&Clock { elapsed_ms: 0x1_0000_0000, floor: 0 }), 1);
    assert_eq!(server_time_ms(&Clock { elapsed_ms: 0x1_0000_0005, floor: 0 }), 5);
}
