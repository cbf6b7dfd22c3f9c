//! A client's outbound queue and what it wants to hear of.

use x11rb_protocol::protocol::xfixes::SelectionEventMask as Mask;
use xwlrvnc::bridge::clipboard::SelectionEvent;
use xwlrvnc::bridge::event::client::{mask_for, BrokenPipe, Client, MAX_QUEUED_BYTES};
use xwlrvnc::bridge::event::sink::EventSink;

/// A 32-byte frame with a marker byte, to tell frames apart on the wire.
fn frame(marker: u8) -> Vec<u8> {
    let mut b = vec![0u8; 32];
    b[0] = marker;
    b
}

fn seq_of(frame: &[u8]) -> u16 {
    u16::from_le_bytes([frame[2], frame[3]])
}

/// All that the client is sent.
fn written(c: &mut Client) -> Vec<u8> {
    let mut got = Vec::new();
    while let Some(b) = c.next_write() {
        got.extend_from_slice(&b);
    }
    got
}

#[test]
fn writes_arrive_in_order_with_a_monotonic_sequence() {
    let mut client = Client::new(1);
    client.write_setup(vec![0xaa; 8]).unwrap();
    // a reply at sequence 5, then an event stamped from a stale request
    // sequence of 3, which must not go backwards on the wire
    client.send_reply(5, frame(1)).unwrap();
    client.set_seq(3);
    client.send_event_bytes(frame(2));
    // and a reply that has moved on
    client.send_reply(6, frame(3)).unwrap();

    let got = written(&mut client);
    assert_eq!(got.len(), 8 + 32 * 3);
    assert_eq!(&got[..8], &[0xaa; 8]);
    let frames: Vec<&[u8]> = got[8..].chunks(32).collect();
    assert_eq!(frames.iter().map(|f| f[0]).collect::<Vec<_>>(), [1, 2, 3]);
    assert_eq!(frames.iter().map(|f| seq_of(f)).collect::<Vec<_>>(), [5, 5, 6]);
    assert!(!client.is_dead());
}

#[test]
fn close_sends_what_is_queued_then_ends_the_stream() {
    let mut client = Client::new(1);
    client.send_reply(1, frame(7)).unwrap();
    client.close();
    assert!(client.is_dead());
    assert_eq!(client.send_reply(2, frame(8)), Err(BrokenPipe));
    assert!(!client.drained());
    let got = written(&mut client);
    assert_eq!(got.len(), 32);
    assert_eq!(got[0], 7);
    assert!(client.drained());
}

#[test]
fn a_client_that_stops_reading_is_dropped_at_the_cap() {
    let mut client = Client::new(1);
    // nobody takes what is queued, so the queue grows
    let chunk = vec![0u8; 1 << 20];
    let mut sent = 0usize;
    let mut dropped = false;
    while sent <= MAX_QUEUED_BYTES + (1 << 20) {
        if client.send_reply(1, chunk.clone()).is_err() {
            dropped = true;
            break;
        }
        sent += chunk.len();
    }
    assert!(dropped, "sent {sent} bytes without being dropped");
    assert!(client.is_dead());
    assert!(client.send_reply(1, frame(1)).is_err());
    // the queue was discarded, not left holding the memory
    assert!(client.next_write().is_none());
    assert!(client.drained());
}

const CLIP: u32 = 83;
const PRI: u32 = 1;
const OWNER: u32 = 1;
const CLOSE: u32 = 4;

#[test]
fn mask_bits_are_numbered_like_the_subtypes() {
    assert_eq!(mask_for(SelectionEvent::SetSelectionOwner), OWNER);
    assert_eq!(u32::from(Mask::SET_SELECTION_OWNER), OWNER);
    assert_eq!(
        mask_for(SelectionEvent::SelectionWindowDestroy),
        u32::from(Mask::SELECTION_WINDOW_DESTROY)
    );
    assert_eq!(mask_for(SelectionEvent::SelectionClientClose), CLOSE);
    assert_eq!(u32::from(Mask::SELECTION_CLIENT_CLOSE), CLOSE);
}

#[test]
fn registrations_are_per_window_and_selection() {
    let mut c = Client::new(1);
    c.select_selection(CLIP, 0x10, OWNER);
    c.select_selection(CLIP, 0x11, OWNER | CLOSE);
    c.select_selection(PRI, 0x10, OWNER);
    let owner = SelectionEvent::SetSelectionOwner;
    assert_eq!(c.selections_for(CLIP, owner), [(0x10, CLIP), (0x11, CLIP)], "both windows are told");
    assert_eq!(c.selections_for(PRI, owner), [(0x10, PRI)]);
    // clearing one window's mask leaves the other's registration alone
    c.select_selection(CLIP, 0x10, 0);
    assert_eq!(c.selections_for(CLIP, owner), [(0x11, CLIP)]);
    // re-selecting replaces the mask rather than adding a second record
    c.select_selection(CLIP, 0x11, OWNER);
    assert_eq!(c.selections_for(CLIP, owner), [(0x11, CLIP)]);
}

#[test]
fn the_mask_picks_the_subtypes() {
    let mut c = Client::new(1);
    c.select_selection(CLIP, 0x10, CLOSE);
    assert!(c.selections_for(CLIP, SelectionEvent::SetSelectionOwner).is_empty());
    assert_eq!(c.selections_for(CLIP, SelectionEvent::SelectionClientClose), [(0x10, CLIP)]);
}

#[test]
fn a_destroyed_window_takes_its_registrations_with_it() {
    let mut c = Client::new(1);
    c.select_selection(CLIP, 0x10, OWNER);
    c.select_selection(200, 0x10, OWNER);
    c.select_selection(CLIP, 0x11, OWNER);
    c.forget_window(0x10);
    let owner = SelectionEvent::SetSelectionOwner;
    assert_eq!(c.selections_for(CLIP, owner), [(0x11, CLIP)]);
    assert!(c.selections_for(200, owner).is_empty());
}

#[test]
fn every_selection_is_found_by_its_atom() {
    // atoms are the server's, so a registration needs nothing else to
    // identify the selection it is for, bridged or not
    let mut c = Client::new(1);
    c.select_selection(200, 0x10, OWNER);
    c.select_selection(CLIP, 0x10, OWNER);
    let owner = SelectionEvent::SetSelectionOwner;
    assert_eq!(c.selections_for(200, owner), [(0x10, 200)]);
    assert_eq!(c.selections_for(CLIP, owner), [(0x10, CLIP)]);
    assert!(c.selections_for(999, owner).is_empty());
}

#[test]
fn the_registration_list_does_not_grow_without_bound() {
    let mut sink = EventSink::default();
    for id in 0..50 {
        sink.register(Client::new(id));
        sink.client_mut(id).unwrap().close();
    }
    // the last one may still be there; everything before it is gone
    let left = (0..50).filter(|id| sink.client_mut(*id).is_some()).count();
    assert!(left <= 2, "dead registrations piled up");
}

#[test]
fn only_who_asked_hears_of_a_new_screen() {
    let mut sink = EventSink::default();
    sink.register(Client::new(1));
    sink.register(Client::new(2));
    sink.client_mut(1).unwrap().select_randr(0x40);
    sink.screen_changed(800, 600, 5, 6);
    let heard = written(sink.client_mut(1).unwrap());
    assert!(!heard.is_empty());
    assert_eq!(heard.len() % 32, 0);
    assert!(written(sink.client_mut(2).unwrap()).is_empty());
}
