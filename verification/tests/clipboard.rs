//! Who owns the selections, and what each side is told.

use xwlrvnc::bridge::clipboard::{
    stale_owner_time, text_mimes, Clipboard, DataOffer, Effects, Sel, SelectionEvent, Take, Value, OWNER_WINDOW,
};
use xwlrvnc::bridge::event::time::{note_selection_time, server_time_ms, time_cmp, Clock};

const CLIENT: u64 = 1;
const OTHER: u64 = 2;

/// A clipboard with a Wayland side to post to, and the clock.
struct Fixture {
    c: Clipboard,
    clock: Clock,
}

/// `publishable` says whether the compositor's device carries both selections (a wlr
/// v1 device has no primary selection). What it publishes is read back out of the job
/// queue, which nothing drains here.
fn clipboard(publishable: bool) -> Fixture {
    let mut c = Clipboard::default();
    c.jobs_mut().set_running(true);
    c.set_publishable(Sel::Clipboard, true);
    c.set_publishable(Sel::Primary, publishable);
    Fixture { c, clock: Clock { elapsed_ms: 100_000, floor: 0 } }
}

/// The bytes an X requestor would be served for `sel`, which is `None` when there is
/// nothing to serve and the conversion is refused.
fn served(c: &Clipboard, sel: Sel) -> Option<Vec<u8>> {
    match c.value(sel) {
        Value::Here(data) => Some(data),
        Value::Nothing => None,
        Value::FromWayland => panic!("a wayland app owns {sel:?}"),
    }
}

/// The effects of a transition that must have taken.
fn took(take: Take) -> Effects {
    match take {
        Take::Took(fx) => fx,
        Take::Stale => panic!("the transition was rejected as stale"),
    }
}

/// The window and time an `XFixesSelectionNotify` would carry.
fn notified(fx: &Effects) -> Option<(u32, u32)> {
    fx.notify.map(|n| (n.owner, n.selection_timestamp))
}

impl Fixture {
    fn now(&self) -> u32 {
        server_time_ms(&self.clock)
    }

    /// A Wayland app announcing `mimes` for `sel`, as the compositor would.
    fn announce(&mut self, sel: Sel, mimes: &[String]) -> Effects {
        self.c.wayland_announced(sel, Some(DataOffer::Ext(1)), mimes.to_vec(), &mut self.clock)
    }

    fn announce_nothing(&mut self, sel: Sel) -> Effects {
        self.c.wayland_announced(sel, None, Vec::new(), &mut self.clock)
    }

    fn x_took(&mut self, sel: Sel, window: u32, client: u64, time: u32) -> Take {
        self.c.x_took(sel, window, client, time, &self.clock)
    }

    fn x_released(&mut self, sel: Sel, time: u32) -> Take {
        self.c.x_released(sel, time, &self.clock)
    }

    fn x_fetched(&mut self, sel: Sel, window: u32, time: u32, data: &[u8]) -> Option<Effects> {
        self.c.x_fetched(sel, window, time, data.to_vec(), &self.clock)
    }

    fn x_fetch_failed(&mut self, sel: Sel, window: u32, time: u32) -> Option<Effects> {
        self.c.x_fetch_failed(sel, window, time, &self.clock)
    }

    fn x_owner_gone(&mut self, sel: Sel, client: u64, window: Option<u32>) -> Option<Effects> {
        self.c.x_owner_gone(sel, client, window, SelectionEvent::SelectionClientClose, &self.clock)
    }

    /// An X owner that has just taken `sel`, for the tests that go on to publish for it.
    fn take(&mut self, sel: Sel) -> u32 {
        let t = self.now();
        took(self.x_took(sel, 0x10, CLIENT, t));
        t
    }
}

#[test]
fn dix_time_rules() {
    // in the future: ignored
    assert!(stale_owner_time(101, 100, 50));
    // before the last change: ignored
    assert!(stale_owner_time(49, 100, 50));
    // at the last change, or anywhere up to now: taken
    assert!(!stale_owner_time(50, 100, 50));
    assert!(!stale_owner_time(100, 100, 50));
    assert!(!stale_owner_time(75, 100, 50));
    // and across the clock wrap
    assert!(!stale_owner_time(1, 2, u32::MAX));
    assert!(stale_owner_time(u32::MAX, 2, 1));
}

#[test]
fn a_stale_set_selection_owner_is_ignored() {
    let mut f = clipboard(true);
    let now = f.now();
    assert!(took(f.x_took(Sel::Clipboard, 0x10, CLIENT, now)).cleared.is_none());
    assert_eq!(f.c.owner_window(Sel::Clipboard), Some(0x10));
    assert_eq!(f.c.last_changed(Sel::Clipboard), now);
    // a request from before that change loses to it
    assert!(matches!(f.x_took(Sel::Clipboard, 0x11, CLIENT, now.wrapping_sub(1)), Take::Stale));
    assert_eq!(f.c.owner_window(Sel::Clipboard), Some(0x10));
    // and one from the future is not believed either
    let future = f.now().wrapping_add(60_000);
    assert!(matches!(f.x_took(Sel::Clipboard, 0x11, CLIENT, future), Take::Stale));
    assert!(matches!(f.x_released(Sel::Clipboard, future), Take::Stale));
    assert_eq!(f.c.owner_window(Sel::Clipboard), Some(0x10));
}

#[test]
fn a_wayland_change_is_stamped_after_the_x_owners_time() {
    let mut f = clipboard(true);
    let t = f.now();
    took(f.x_took(Sel::Clipboard, 0x10, CLIENT, t));
    let fx = f.announce_nothing(Sel::Clipboard);
    let ts = f.c.last_changed(Sel::Clipboard);
    assert!(time_cmp(ts, t).is_gt());
    assert_eq!(notified(&fx), Some((0, ts)), "and watchers are told");
    // and the clock will not hand out anything earlier, so the next
    // PropertyNotify-derived SetSelectionOwner is not stale on arrival
    assert!(time_cmp(f.now(), ts).is_ge());
    let now = f.now();
    took(f.x_took(Sel::Clipboard, 0x10, CLIENT, now));
}

#[test]
fn a_new_owner_has_no_value_until_fetched() {
    let mut f = clipboard(true);
    let t = f.now();
    took(f.x_took(Sel::Clipboard, 0x10, CLIENT, t));
    assert!(f.c.mimes(Sel::Clipboard).is_empty(), "nothing to offer yet");
    assert!(f.x_fetched(Sel::Clipboard, 0x10, t, b"one").is_some());
    assert_eq!(f.c.mimes(Sel::Clipboard), text_mimes());
    // taken again (a second copy), a moment later: the first value is not the second's
    note_selection_time(&mut f.clock, t.wrapping_add(1));
    let t2 = f.now();
    assert!(time_cmp(t2, t).is_gt());
    took(f.x_took(Sel::Clipboard, 0x10, CLIENT, t2));
    assert!(served(&f.c, Sel::Clipboard).is_none(), "the old value would be a lie");
    assert_eq!(f.c.owner_window(Sel::Clipboard), Some(0x10));
    // the first fetch's late answer is not the current owner's
    assert!(f.x_fetched(Sel::Clipboard, 0x10, t, b"one").is_none());
    assert!(served(&f.c, Sel::Clipboard).is_none());
    let fx = f.x_fetched(Sel::Clipboard, 0x10, t2, b"two").expect("the current owner's answer");
    assert_eq!(
        notified(&fx),
        Some((0x10, t2)),
        "watchers hear of the acquisition, with the owner's own window"
    );
    assert_eq!(served(&f.c, Sel::Clipboard).as_deref(), Some(&b"two"[..]));
}

#[test]
fn taking_it_again_on_another_window_owes_nothing() {
    // dix sends the SelectionClear per client, not per window
    let mut f = clipboard(true);
    let now = f.now();
    took(f.x_took(Sel::Clipboard, 0x10, CLIENT, now));
    let fx = took(f.x_took(Sel::Clipboard, 0x11, CLIENT, now));
    assert!(fx.cleared.is_none(), "the same client keeps its clear");
    let fx = took(f.x_took(Sel::Clipboard, 0x20, OTHER, now));
    assert_eq!(
        fx.cleared.map(|o| o.window),
        Some(0x11),
        "another client displaces it, and is owed the news"
    );
}

#[test]
fn a_reply_after_a_wayland_takeover_is_dropped() {
    let mut f = clipboard(true);
    let t = f.now();
    took(f.x_took(Sel::Clipboard, 0x10, CLIENT, t));
    f.announce(Sel::Clipboard, &["text/html".to_string()]);
    assert!(f.x_fetched(Sel::Clipboard, 0x10, t, b"late").is_none());
    assert!(f.c.jobs().publishes().is_empty(), "nothing published over the app's");
    assert!(f.x_fetch_failed(Sel::Clipboard, 0x10, t).is_none(), "nor withdrawn");
}

#[test]
fn the_echo_of_our_own_source_is_recognised_and_changes_nothing() {
    let mut f = clipboard(true);
    let t = f.now();
    took(f.x_took(Sel::Clipboard, 0x10, CLIENT, t));
    f.x_fetched(Sel::Clipboard, 0x10, t, b"hello");
    assert_eq!(f.c.jobs().publishes().as_slice(), [(Sel::Clipboard, Some(5))]);
    // the announce is recognised by its fingerprint, and leaves the X
    // owner (and its value, and its time) exactly as it was
    let fx = f.announce(Sel::Clipboard, &text_mimes());
    assert!(notified(&fx).is_none() && fx.cleared.is_none());
    assert_eq!(fx.destroy.len(), 1, "the offer is of no use to us");
    assert_eq!(f.c.owner_window(Sel::Clipboard), Some(0x10), "the X owner stays");
    assert_eq!(f.c.last_changed(Sel::Clipboard), t, "and so does its time");
    assert_eq!(
        served(&f.c, Sel::Clipboard).as_deref(),
        Some(&b"hello"[..]),
        "served from the owner, not read back out of the compositor"
    );
    // and only once: nothing more is owed, so a second one is a foreign
    // app that happens to advertise the same mimes
    let fx = f.announce(Sel::Clipboard, &text_mimes());
    assert!(notified(&fx).is_some() && fx.cleared.is_some());
}

#[test]
fn a_foreign_offer_is_not_mistaken_for_our_echo() {
    let mut f = clipboard(true);
    let t = f.take(Sel::Clipboard);
    f.x_fetched(Sel::Clipboard, 0x10, t, b"ours");
    let foreign = vec!["text/plain".to_string(), "text/html".to_string()];
    let fx = f.announce(Sel::Clipboard, &foreign);
    assert!(fx.cleared.is_some(), "wrong mimes: a foreign app won the race at the compositor");
    assert_eq!(f.c.owner_window(Sel::Clipboard), Some(OWNER_WINDOW));
    assert_eq!(f.c.mimes(Sel::Clipboard), foreign);
    // nor is an announcement of nothing at all, while a source is owed
    assert!(notified(&f.announce_nothing(Sel::Clipboard)).is_some());
    // ours is still owed, and still recognised when it comes; with no X
    // owner left to attribute it to, it is simply what the compositor
    // shows now
    let fx = f.announce(Sel::Clipboard, &text_mimes());
    assert!(notified(&fx).is_none(), "our own source, announced late");
    assert_eq!(f.c.owner_window(Sel::Clipboard), Some(OWNER_WINDOW));
}

#[test]
fn each_publication_expects_its_own_echo() {
    let mut f = clipboard(true);
    let t = f.take(Sel::Clipboard);
    f.x_fetched(Sel::Clipboard, 0x10, t, b"one");
    let t = f.take(Sel::Clipboard);
    f.x_fetched(Sel::Clipboard, 0x10, t, b"two");
    assert!(notified(&f.announce(Sel::Clipboard, &text_mimes())).is_none());
    assert!(notified(&f.announce(Sel::Clipboard, &text_mimes())).is_none());
    assert!(
        notified(&f.announce(Sel::Clipboard, &text_mimes())).is_some(),
        "a third announce is somebody else's"
    );
}

#[test]
fn a_refusing_owner_gets_the_previous_value_withdrawn() {
    let mut f = clipboard(true);
    let t = f.take(Sel::Clipboard);
    f.x_fetched(Sel::Clipboard, 0x10, t, b"ours");
    f.announce(Sel::Clipboard, &text_mimes());
    // another X client takes it and refuses to convert: what we published
    // for the first is withdrawn, so neither side serves it as the second's
    let t2 = f.now();
    took(f.x_took(Sel::Clipboard, 0x20, OTHER, t2));
    assert!(served(&f.c, Sel::Clipboard).is_none());
    assert_eq!(
        f.x_fetch_failed(Sel::Clipboard, 0x20, t2).map(|fx| notified(&fx)),
        Some(Some((0x20, t2))),
        "watchers are owed the news"
    );
    assert_eq!(f.c.jobs().publishes().last(), Some(&(Sel::Clipboard, None)));
    // the withdrawal comes back as an announcement of nothing
    let fx = f.announce_nothing(Sel::Clipboard);
    assert!(notified(&fx).is_none(), "our own withdrawal");
    assert_eq!(f.c.owner_window(Sel::Clipboard), Some(0x20), "the X owner stays");
    // nothing to withdraw twice
    assert!(f.x_fetch_failed(Sel::Clipboard, 0x20, t2).is_some());
    assert_eq!(f.c.jobs().publishes().len(), 2);
}

#[test]
fn nothing_is_owed_when_the_compositor_was_not_told() {
    // a wlr v1 device has no primary selection to publish to
    let mut f = clipboard(false);
    let t = f.take(Sel::Primary);
    f.x_fetched(Sel::Primary, 0x10, t, b"ours");
    assert!(
        notified(&f.announce(Sel::Primary, &text_mimes())).is_some(),
        "no echo was owed, so this is somebody else's"
    );
    // and there is nothing on the compositor to withdraw either
    let t = f.take(Sel::Primary);
    assert!(f.x_fetch_failed(Sel::Primary, 0x10, t).is_some(), "the owner is still current");
    assert!(
        f.c.jobs().publishes().is_empty(),
        "nothing was ever posted for a selection the device does not carry"
    );
}

#[test]
fn a_dead_owner_is_forgotten_and_its_value_withdrawn() {
    let mut f = clipboard(true);
    let t = f.now();
    took(f.x_took(Sel::Clipboard, 0x10, CLIENT, t));
    f.x_fetched(Sel::Clipboard, 0x10, t, b"ours");
    assert!(f.x_owner_gone(Sel::Clipboard, OTHER, None).is_none(), "not its owner");
    assert!(f.x_owner_gone(Sel::Clipboard, CLIENT, Some(0x11)).is_none(), "not its window");
    let fx = f.x_owner_gone(Sel::Clipboard, CLIENT, Some(0x10)).expect("its own window");
    assert_eq!(notified(&fx), Some((0, t)), "the time stays, as in X");
    assert_eq!(f.c.owner_window(Sel::Clipboard), None);
    assert_eq!(f.c.jobs().publishes().last(), Some(&(Sel::Clipboard, None)));
    assert_eq!(f.c.last_changed(Sel::Clipboard), t);
    assert!(f.x_owner_gone(Sel::Clipboard, CLIENT, None).is_none(), "already gone");
}

#[test]
fn releasing_withdraws_and_owes_a_clear() {
    let mut f = clipboard(true);
    let t = f.now();
    took(f.x_took(Sel::Clipboard, 0x10, CLIENT, t));
    f.x_fetched(Sel::Clipboard, 0x10, t, b"ours");
    let now = f.now();
    let fx = took(f.x_released(Sel::Clipboard, now));
    assert_eq!(notified(&fx), Some((0, now)));
    assert_eq!(
        fx.cleared.map(|o| o.window),
        Some(0x10),
        "X tells the owner even when it is the same client"
    );
    assert_eq!(f.c.owner_window(Sel::Clipboard), None);
    assert_eq!(f.c.last_changed(Sel::Clipboard), now);
    assert_eq!(f.c.jobs().publishes().last(), Some(&(Sel::Clipboard, None)));
    // releasing an unowned selection is a change too, but withdraws nothing
    let fx = took(f.x_released(Sel::Clipboard, now));
    assert!(fx.cleared.is_none());
    assert_eq!(f.c.jobs().publishes().len(), 2);
}

#[test]
fn a_wayland_apps_clipboard_is_not_ours_to_clear() {
    // any X client may release any selection (dix checks nothing but the
    // time), but that must not wipe what a Wayland app is offering
    let mut f = clipboard(true);
    let mimes = vec!["text/plain".to_string()];
    f.announce(Sel::Clipboard, &mimes);
    let now = f.now();
    let fx = took(f.x_released(Sel::Clipboard, now));
    assert!(fx.cleared.is_none());
    assert_eq!(f.c.owner_window(Sel::Clipboard), Some(OWNER_WINDOW));
    assert_eq!(f.c.mimes(Sel::Clipboard), mimes);
    assert!(f.c.jobs().publishes().is_empty(), "nothing withdrawn");
}

#[test]
fn a_wayland_takeover_drops_the_x_owner_and_its_data() {
    let mut f = clipboard(true);
    let t = f.take(Sel::Clipboard);
    f.x_fetched(Sel::Clipboard, 0x10, t, b"ours");
    let fx = f.announce(Sel::Clipboard, &["text/html".to_string()]);
    assert_eq!(notified(&fx).map(|(w, _)| w), Some(OWNER_WINDOW));
    let prev = fx.cleared.expect("there was an owner");
    assert_eq!(prev.window, 0x10);
    assert!(prev.owned_by(CLIENT));
    assert!(
        matches!(f.c.value(Sel::Clipboard), Value::FromWayland),
        "the app's value, not the X owner's"
    );
}

#[test]
fn a_conversion_prepared_for_one_owner_is_refused_after_a_takeover() {
    // the mime is resolved against the owner's list on the X side and the
    // value is read on the Wayland side a pass later. Asking a new owner
    // for a mime only the old one offered is denied by the compositor as an
    // instant EOF, which would reach the requestor as an empty paste that
    // looks successful, so the generation has to make them disagree.
    let mut f = clipboard(true);
    f.announce(Sel::Clipboard, &["text/html".to_string()]);
    let (mimes, generation) = f.c.convertible(Sel::Clipboard);
    assert_eq!(mimes, ["text/html"]);
    assert!(
        f.c.offer_at(Sel::Clipboard, generation).is_some(),
        "the owner the conversion was prepared for"
    );

    // another app takes it before the job runs
    f.announce(Sel::Clipboard, &["text/plain".to_string()]);
    assert!(
        f.c.offer_at(Sel::Clipboard, generation).is_none(),
        "a different owner must not answer the old one's conversion"
    );
    let (_, after) = f.c.convertible(Sel::Clipboard);
    assert_ne!(after, generation, "the generation moved with the owner");
    assert!(f.c.offer_at(Sel::Clipboard, after).is_some());
}

#[test]
fn an_x_owner_displaces_a_wayland_apps_offer() {
    let mut f = clipboard(true);
    f.announce(Sel::Clipboard, &["text/html".to_string()]);
    let now = f.now();
    let fx = took(f.x_took(Sel::Clipboard, 0x10, CLIENT, now));
    assert!(fx.cleared.is_none(), "no X client lost anything");
    assert_eq!(fx.destroy.len(), 1, "the offer it replaced is spent");
    assert_eq!(f.c.owner_window(Sel::Clipboard), Some(0x10));
}
