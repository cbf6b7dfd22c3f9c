//! What a connection waits for of the selections.

use xwlrvnc::bridge::clipboard::Sel;
use xwlrvnc::bridge::event::time::{server_time_ms, Clock};
use xwlrvnc::bridge::x11::selection::{Fetch, IncrStep, Selection, MAX_FETCHES};
use xwlrvnc::bridge::x11::SELECTION_FETCH_WINDOW;

// any distinct atom numbers will do here
const CLIP: u32 = 83;
const PRI: u32 = 1;
const P1: u32 = 100;
const P2: u32 = 101;

fn fetch(kind: Sel, selection: u32, property: u32) -> Fetch {
    Fetch { kind, selection, property, owner: 0x10, time: 1 }
}

fn answered(s: &mut Selection, selection: u32, property: u32) -> Option<(Sel, u32)> {
    s.take_fetch(selection, property).map(|f| (f.kind, f.property))
}

fn clock() -> Clock {
    Clock { elapsed_ms: 100_000, floor: 0 }
}

#[test]
fn an_answer_is_matched_to_its_own_request() {
    // the same selection taken twice before either answer arrives: the
    // first answer must be the first copy, not be consumed as the second's
    let mut s = Selection::default();
    s.begin_fetch(fetch(Sel::Clipboard, CLIP, P1));
    s.begin_fetch(fetch(Sel::Clipboard, CLIP, P2));
    assert_eq!(answered(&mut s, CLIP, P1), Some((Sel::Clipboard, P1)));
    assert_eq!(answered(&mut s, CLIP, P2), Some((Sel::Clipboard, P2)));
}

#[test]
fn two_selections_in_flight_do_not_collide() {
    let mut s = Selection::default();
    s.begin_fetch(fetch(Sel::Primary, PRI, P1));
    s.begin_fetch(fetch(Sel::Clipboard, CLIP, P2));
    assert_eq!(answered(&mut s, CLIP, P2), Some((Sel::Clipboard, P2)));
    assert_eq!(answered(&mut s, PRI, P1), Some((Sel::Primary, P1)));
}

#[test]
fn a_refusal_matches_the_oldest_request_for_that_selection() {
    // a refusal names no property, and answers come back in order
    let mut s = Selection::default();
    s.begin_fetch(fetch(Sel::Clipboard, CLIP, P1));
    s.begin_fetch(fetch(Sel::Clipboard, CLIP, P2));
    assert_eq!(answered(&mut s, CLIP, 0), Some((Sel::Clipboard, P1)));
    assert_eq!(answered(&mut s, CLIP, P2), Some((Sel::Clipboard, P2)));
}

#[test]
fn an_answer_to_nothing_is_ignored() {
    let mut s = Selection::default();
    s.begin_fetch(fetch(Sel::Clipboard, CLIP, P1));
    assert_eq!(answered(&mut s, CLIP, 999), None, "not our property");
    assert_eq!(answered(&mut s, PRI, P1), None, "not our selection");
    assert_eq!(answered(&mut s, CLIP, P1), Some((Sel::Clipboard, P1)));
}

#[test]
fn owners_that_never_answer_do_not_pile_up() {
    let mut s = Selection::default();
    for i in 0..(MAX_FETCHES as u32 * 2) {
        s.begin_fetch(fetch(Sel::Clipboard, CLIP, 200 + i));
    }
    assert_eq!(s.fetches.len(), MAX_FETCHES);
    // the newest is still answerable
    let newest = 200 + (MAX_FETCHES as u32 * 2 - 1);
    assert_eq!(answered(&mut s, CLIP, newest), Some((Sel::Clipboard, newest)));
}

#[test]
fn unbridged_owners_follow_the_dix_time_rules() {
    let mut s = Selection::default();
    let clock = clock();
    let now = server_time_ms(&clock);
    assert!(s.set_owner(200, 0x10, now, &clock));
    assert_eq!(s.owner(200), Some(0x10));
    // earlier than the last change: ignored
    assert!(!s.set_owner(200, 0x11, now.wrapping_sub(1), &clock));
    assert_eq!(s.owner(200), Some(0x10));
    // the future: ignored
    assert!(!s.set_owner(200, 0x11, now.wrapping_add(60_000), &clock));
    // same time: taken, and 0 releases
    assert!(s.set_owner(200, 0, now, &clock));
    assert_eq!(s.owner(200), None);
}

#[test]
fn a_destroyed_window_loses_its_unbridged_selections() {
    let mut s = Selection::default();
    let clock = clock();
    let now = server_time_ms(&clock);
    s.set_owner(200, 0x10, now, &clock);
    s.set_owner(201, 0x11, now, &clock);
    assert_eq!(s.forget_window(0x10), [(200, now)]);
    assert_eq!(s.owner(200), None);
    assert_eq!(s.owner(201), Some(0x11));
}

#[test]
fn chunked_receives_are_kept_apart_by_property() {
    let mut s = Selection::default();
    s.begin_incr(fetch(Sel::Clipboard, CLIP, P1));
    s.begin_incr(fetch(Sel::Primary, PRI, P2));
    assert!(s.incr_chunk(SELECTION_FETCH_WINDOW, P1));
    assert!(!s.incr_chunk(SELECTION_FETCH_WINDOW, 999), "unknown property");
    assert!(!s.incr_chunk(SELECTION_FETCH_WINDOW + 1, P1), "wrong window");
    assert!(matches!(s.incr_push(P1, b"clip".to_vec()), IncrStep::More(P1)));
    assert!(matches!(s.incr_push(P2, b"pri".to_vec()), IncrStep::More(P2)));
    // an empty chunk ends that transfer, and only that one
    match s.incr_push(P1, Vec::new()) {
        IncrStep::Done(f, data) => {
            assert_eq!(f.kind, Sel::Clipboard);
            assert_eq!(data, b"clip");
        }
        _ => panic!("clipboard transfer did not finish"),
    }
    assert!(!s.incr_chunk(SELECTION_FETCH_WINDOW, P1));
    assert!(s.incr_chunk(SELECTION_FETCH_WINDOW, P2), "primary still going");
}

#[test]
fn chunks_join_whatever_comes_between() {
    let mut s = Selection::default();
    s.begin_incr(fetch(Sel::Clipboard, CLIP, P1));
    s.begin_incr(fetch(Sel::Primary, PRI, P2));
    for (property, part) in [(P1, "one "), (P2, "x"), (P1, "two "), (P2, "y"), (P1, "three")] {
        assert!(matches!(s.incr_push(property, part.as_bytes().to_vec()), IncrStep::More(p) if p == property));
    }
    match s.incr_push(P1, Vec::new()) {
        IncrStep::Done(f, data) => assert_eq!((f.property, data), (P1, b"one two three".to_vec())),
        IncrStep::More(_) => panic!("it is over"),
    }
    assert!(!s.incr_chunk(SELECTION_FETCH_WINDOW, P1));
    assert!(s.incr_chunk(SELECTION_FETCH_WINDOW, P2));
}
