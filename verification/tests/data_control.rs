//! Clipboard transfers over pipes.

use xwlrvnc::bridge::clipboard::{Clipboard, DataOffer, Sel};
use xwlrvnc::bridge::clipjobs::PendingConversion;
use xwlrvnc::bridge::event::time::Clock;
use xwlrvnc::bridge::wayland::data_control::{
    queue_send, start_receive, try_init_device, Chunk, Device, OfferMimes, PendingReceive, PendingSend, Pulled, Pump,
    ReadEnd, Refusal, Written, MAX_PENDING_RECEIVES, MAX_PENDING_SENDS, SEND_TIMEOUT,
};

const SHORT: u64 = 150;
const LONG: u64 = 10_000;

/// A conversion, with the budgets spelled out.
fn receiving(idle: u64, total: u64, max: usize) -> PendingReceive {
    let conversion = PendingConversion::new(1, 0x10, 83, 84, 85, 1234, 86, false);
    let mut r = PendingReceive::new(
        3,
        Sel::Clipboard,
        "text/plain".to_string(),
        DataOffer::Ext(1),
        0,
        0,
        conversion,
    );
    r.idle = idle;
    r.total = total;
    r.max = max;
    r
}

/// A clipboard the offer is the current selection of, so a completed read is delivered
/// rather than taken for a replaced offer's instant EOF.
fn clipboard_offering() -> Clipboard {
    let mut c = Clipboard::default();
    let mut clock = Clock { elapsed_ms: 1000, floor: 0 };
    c.wayland_announced(
        Sel::Clipboard,
        Some(DataOffer::Ext(1)),
        vec!["text/plain".into()],
        &mut clock,
    );
    c
}

fn bytes(b: &[u8]) -> Chunk {
    Chunk::Bytes(b.to_vec())
}

#[test]
fn reads_until_the_writer_closes() {
    let mut r = receiving(SHORT, LONG, usize::MAX);
    assert_eq!(r.pump(bytes(b"hello "), 0), Pulled::Again);
    assert_eq!(r.pump(Chunk::Later, 0), Pulled::Later);
    assert_eq!(r.pump(bytes(b"world"), 20), Pulled::Again);
    assert_eq!(r.pump(Chunk::End, 20), Pulled::End(ReadEnd::Eof));
    assert_eq!(r.buf, b"hello world");
    // and the requestor gets it
    let a = r.finish(ReadEnd::Eof, &clipboard_offering());
    assert_eq!(a.property, 85);
    assert_eq!(a.value, Some((86, b"hello world".to_vec())));
}

#[test]
fn gives_up_on_a_source_that_never_writes() {
    // the writer stays open for the whole test, as a wedged app's would
    let mut r = receiving(SHORT, LONG, usize::MAX);
    assert_eq!(r.pump(Chunk::Later, SHORT - 1), Pulled::Later);
    assert_eq!(r.pump(Chunk::Later, SHORT), Pulled::End(ReadEnd::Stalled));
    // a refusal, not an empty paste, and the requestor is told at once
    let a = r.finish(ReadEnd::Stalled, &clipboard_offering());
    assert_eq!(a.property, 0);
    assert_eq!(a.value, None);
}

#[test]
fn gives_up_on_a_source_that_stops_partway() {
    let mut r = receiving(SHORT, LONG, usize::MAX);
    assert_eq!(r.pump(bytes(b"half a value"), 0), Pulled::Again);
    assert_eq!(r.pump(Chunk::Later, 3000), Pulled::End(ReadEnd::Stalled));
    assert_eq!(r.buf, b"half a value", "what arrived is still here");
    let a = r.finish(ReadEnd::Stalled, &clipboard_offering());
    assert_eq!(a.value, None, "half a value is worse than none: the client cannot tell");
}

#[test]
fn the_idle_budget_restarts_on_every_chunk() {
    // each write lands well inside SHORT, but the whole transfer takes
    // longer than it: a slow-but-progressing source must not be cut off
    let mut r = receiving(SHORT, LONG, usize::MAX);
    for i in 1..7 {
        assert_eq!(r.pump(bytes(b"x"), 50 * i), Pulled::Again);
        assert_eq!(r.pump(Chunk::Interrupted, 50 * i), Pulled::Again);
        assert_eq!(r.pump(Chunk::Later, 50 * i + 49), Pulled::Later, "a progressing transfer was cut short");
    }
    assert_eq!(r.pump(Chunk::End, 350), Pulled::End(ReadEnd::Eof));
    assert_eq!(r.buf, b"xxxxxx");
}

#[test]
fn the_total_budget_does_not() {
    // a trickle that never stalls still ends when the total runs out
    let mut r = receiving(SHORT, 400, usize::MAX);
    let mut now = 0;
    let end = loop {
        now += 50;
        r.pump(bytes(b"x"), now);
        if let Pulled::End(end) = r.pump(Chunk::Later, now) {
            break end;
        }
    };
    assert_eq!(end, ReadEnd::TooSlow);
    assert_eq!(now, 400);
}

#[test]
fn a_value_past_the_size_cap_is_refused() {
    let mut r = receiving(SHORT, LONG, 10_000);
    assert_eq!(r.pump(bytes(&[b'x'; 8192]), 0), Pulled::Again);
    assert_eq!(r.pump(bytes(&[b'x'; 8192]), 0), Pulled::End(ReadEnd::TooBig));
}

#[test]
fn an_empty_selection_is_a_value_but_a_replaced_offer_is_not() {
    // wl-copy '' is a real, empty selection; an offer the compositor has
    // replaced answers with an instant EOF that looks exactly like it
    let mut r = receiving(SHORT, LONG, usize::MAX);
    assert_eq!(r.pump(Chunk::End, 0), Pulled::End(ReadEnd::Eof));
    let a = r.finish(ReadEnd::Eof, &clipboard_offering());
    assert_eq!(a.value, Some((86, Vec::new())));

    let mut r = receiving(SHORT, LONG, usize::MAX);
    assert_eq!(r.pump(Chunk::End, 0), Pulled::End(ReadEnd::Eof));
    let a = r.finish(ReadEnd::Eof, &Clipboard::default()); // nothing offered any more
    assert_eq!((a.property, a.value), (0, None));
}

#[test]
fn a_dropped_transfer_still_answers_its_requestor() {
    // the event loop ending, the queue overflowing, the compositor going
    // away: whatever happens to a transfer, the X client hears back
    let a = receiving(SHORT, LONG, usize::MAX).abandon();
    assert_eq!((a.client, a.requestor, a.property), (1, 0x10, 0));
    assert_eq!(a.value, None);
}

#[test]
fn a_send_goes_on_until_all_is_written() {
    let mut s = PendingSend::new(4, b"hello".to_vec(), 0);
    assert!(!s.is_done());
    assert_eq!(s.pump(Written::Bytes(2), 10), Pump::Again);
    assert_eq!(s.pump(Written::Later, 11), Pump::Later);
    assert!(!s.is_stalled(10 + SEND_TIMEOUT - 1));
    assert!(s.is_stalled(10 + SEND_TIMEOUT));
    assert_eq!(s.pump(Written::Bytes(3), 12), Pump::Over);
    assert!(s.is_done());
    let mut s = PendingSend::new(4, b"hello".to_vec(), 0);
    assert_eq!(s.pump(Written::Failed, 1), Pump::Over);
    assert_eq!(s.pump(Written::Bytes(0), 1), Pump::Over);
}

#[test]
fn too_many_sends_drop_the_oldest() {
    let mut sends = Vec::new();
    for pipe in 0..MAX_PENDING_SENDS as i32 {
        assert!(queue_send(&mut sends, PendingSend::new(pipe, vec![1], 0)).is_none());
    }
    let dropped = queue_send(&mut sends, PendingSend::new(100, vec![1], 0));
    assert_eq!(dropped.map(|s| s.pipe), Some(0));
    assert_eq!(sends.len(), MAX_PENDING_SENDS);
    assert_eq!(sends.last().map(|s| s.pipe), Some(100));
}

#[test]
fn a_conversion_is_only_started_with_its_own_owner() {
    let c = clipboard_offering();
    let (_, generation) = c.convertible(Sel::Clipboard);
    assert_eq!(start_receive(&c, 0, Sel::Clipboard, generation), Ok(DataOffer::Ext(1)));
    assert_eq!(
        start_receive(&c, MAX_PENDING_RECEIVES, Sel::Clipboard, generation),
        Err(Refusal::TooMany)
    );
    assert_eq!(start_receive(&c, 0, Sel::Clipboard, generation + 1), Err(Refusal::NotOwner));
    assert_eq!(start_receive(&c, 0, Sel::Primary, 0), Err(Refusal::NotOwner));
}

#[test]
fn ext_is_preferred_and_replaces_wlr() {
    let wlr = Device::Wlr { version: 2 };
    assert_eq!(try_init_device(None, false, true, Some(2)), None);
    assert_eq!(try_init_device(None, true, false, Some(2)), Some(wlr));
    assert_eq!(try_init_device(Some(wlr), true, false, Some(2)), None);
    assert_eq!(try_init_device(Some(wlr), true, true, Some(2)), Some(Device::Ext));
    assert_eq!(try_init_device(Some(Device::Ext), true, true, Some(2)), None);
    assert_eq!(try_init_device(None, true, false, None), None);
    assert!(wlr.carries(Sel::Primary));
    assert!(!Device::Wlr { version: 1 }.carries(Sel::Primary));
    assert!(Device::Wlr { version: 1 }.carries(Sel::Clipboard));
}

#[test]
fn types_are_kept_with_their_offer() {
    let mut m = OfferMimes::new();
    m.offered(DataOffer::Ext(1), "a".to_string());
    m.offered(DataOffer::Ext(2), "b".to_string());
    m.offered(DataOffer::Ext(1), "c".to_string());
    assert_eq!(m.take(DataOffer::Ext(1)), ["a", "c"]);
    assert!(m.take(DataOffer::Ext(1)).is_empty());
    assert_eq!(m.take(DataOffer::Ext(2)), ["b"]);
}

#[test]
fn a_send_goes_out_whole_however_little_the_pipe_takes() {
    let mut s = PendingSend::new(4, b"a longer value".to_vec(), 0);
    let mut pipe = Vec::new();
    while !s.is_done() {
        let left = &s.data[s.offset..];
        let n = left.len().min(4);
        pipe.extend_from_slice(&left[..n]);
        s.pump(Written::Bytes(n), 1);
    }
    assert_eq!(pipe, b"a longer value");
}

#[test]
fn a_value_is_delivered_whole_however_it_is_cut_up() {
    let mut r = receiving(SHORT, LONG, usize::MAX);
    for part in [b"a lo".as_slice(), b"nger", b" val", b"ue"] {
        assert_eq!(r.pump(Chunk::Bytes(part.to_vec()), 1), Pulled::Again);
        assert_eq!(r.pump(Chunk::Interrupted, 1), Pulled::Again);
    }
    match r.pump(Chunk::End, 2) {
        Pulled::End(end) => {
            let a = r.finish(end, &clipboard_offering());
            assert_eq!(a.value, Some((86, b"a longer value".to_vec())));
        }
        _ => panic!("it is over"),
    }
}
