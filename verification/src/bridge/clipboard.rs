//! Shared clipboard state between the Wayland data-control client and the X
//! selection handlers, in both directions.
//!
//! Wayland to X: the Wayland side records the current offer and its mime types,
//! and pipes the data out of the owning app when an X client converts the
//! selection. X to Wayland: the X side stashes the data and posts a job for the
//! Wayland side, which mints a data-control source for it.
//!
//! Nothing here talks to the compositor itself: every request that would goes
//! through [`Jobs`].

use crate::bridge::clipjobs;
use crate::bridge::clipjobs::{Job, JobView, Jobs, JobsView};
use crate::bridge::event::time;
use crate::bridge::event::time::Clock;
use crate::util::list;
use vstd::prelude::*;

verus! {

/// An offer from either ext-data-control-v1 or zwlr-data-control-v1, by the id of
/// its object.
#[derive(Clone, Copy, PartialEq, Eq, Structural, Debug)]
pub enum DataOffer {
    Ext(u64),
    Wlr(u64),
}

/// The synthetic window we report as the owner of Wayland-backed selections.
pub const OWNER_WINDOW: u32 = 0x16c;

/// Announcements we are still owed for publications of ours that the compositor
/// has not yet echoed. More than this and it is not echoing at all.
pub const MAX_ECHOES: usize = 16;

/// A selection that is bridged.
#[derive(Clone, Copy, PartialEq, Eq, Structural, Hash, Debug)]
pub enum Sel {
    Clipboard,
    Primary,
}

/// What happened to a selection, as XFixes tells it.
#[derive(Clone, Copy, PartialEq, Eq, Structural, Debug)]
pub enum SelectionEvent {
    SetSelectionOwner,
    SelectionWindowDestroy,
    SelectionClientClose,
}

/// Mime types we advertise to Wayland for X-owned text selections. Only ever
/// text: `UTF8_STRING` is the one target we ask X owners for.
pub open spec fn text_mime_names() -> Seq<Seq<char>> {
    seq!["text/plain;charset=utf-8"@, "text/plain"@, "UTF8_STRING"@, "STRING"@, "TEXT"@]
}

/// The mime types of [`text_mime_names`].
pub fn text_mimes() -> (v: Vec<String>)
    ensures
        list::texts(v@) == text_mime_names(),
{
    let mut v: Vec<String> = Vec::new();
    v.push("text/plain;charset=utf-8".to_owned());
    v.push("text/plain".to_owned());
    v.push("UTF8_STRING".to_owned());
    v.push("STRING".to_owned());
    v.push("TEXT".to_owned());
    assert(list::texts(v@) =~= text_mime_names());
    v
}

/// The X client owning a bridged selection, and everything we hold for it.
///
/// An X client that believes it owns a selection does not go and re-read it;
/// it waits for the `SelectionClear` the server owes it.
pub struct XOwner {
    pub window: u32,
    /// Its connection.
    pub client: u64,
    /// When it took the selection: its `SetSelectionOwner` time, which with
    /// the window tells this acquisition from a later one by the same window.
    pub time: u32,
    /// What it gave us when we asked it to convert the selection, once it
    /// has; `None` while the fetch is out, and for good if it refused.
    pub data: Option<Vec<u8>>,
}

#[verifier::ext_equal]
pub struct XOwnerView {
    pub window: u32,
    pub client: u64,
    pub time: u32,
    pub data: Option<Seq<u8>>,
}

impl View for XOwner {
    type V = XOwnerView;

    open spec fn view(&self) -> XOwnerView {
        XOwnerView { window: self.window, client: self.client, time: self.time, data: clipjobs::data_view(self.data) }
    }
}

impl XOwner {
    /// Whether `client` is the connection that owns the selection. X decides
    /// who is owed a `SelectionClear` per client, not per window: taking a
    /// selection you already hold, on a different window, owes you nothing.
    pub fn owned_by(&self, client: u64) -> (b: bool)
        ensures
            b == (self@.client == client),
    {
        self.client == client
    }

    /// Whether this is still the acquisition a fetch was started for. A reply
    /// landing after a Wayland app or another X client took the selection
    /// answers a question nobody is asking any more.
    pub fn is(&self, window: u32, time: u32) -> (b: bool)
        ensures
            b == (self@.window == window && self@.time == time),
    {
        self.window == window && self.time == time
    }
}

/// Who owns a selection, and so where every answer about it comes from: the
/// window `GetSelectionOwner` reports, the targets we advertise, and the bytes
/// a conversion is served from.
enum Owner {
    /// Nobody: never taken, given up, or its owner went away.
    Nobody,
    /// A Wayland app, through the offer the compositor announced for it.
    Wayland { offer: DataOffer, mimes: Vec<String> },
    /// An X client, on whichever connection.
    X(XOwner),
}

/// Who owns a selection.
#[verifier::ext_equal]
pub enum OwnerView {
    Nobody,
    Wayland { offer: DataOffer, mimes: Seq<Seq<char>> },
    X(XOwnerView),
}

impl OwnerView {
    /// The owner of an announcement from the compositor.
    pub open spec fn announced(offer: Option<DataOffer>, mimes: Seq<Seq<char>>) -> OwnerView {
        match offer {
            Some(offer) => OwnerView::Wayland { offer, mimes },
            None => OwnerView::Nobody,
        }
    }

    /// The window `GetSelectionOwner` answers with: a Wayland app's selection
    /// is ours to serve, so it gets our synthetic window.
    pub open spec fn window(self) -> Option<u32> {
        match self {
            OwnerView::Nobody => None,
            OwnerView::Wayland { .. } => Some(OWNER_WINDOW),
            OwnerView::X(o) => Some(o.window),
        }
    }

    /// The offer this owner was announced with, to destroy once it is no longer the
    /// selection.
    pub open spec fn offers(self) -> Seq<DataOffer> {
        match self {
            OwnerView::Wayland { offer, .. } => seq![offer],
            _ => Seq::empty(),
        }
    }

    /// The acquisition that a fetch was started for.
    pub open spec fn is_acquisition(self, window: u32, time: u32) -> bool {
        self matches OwnerView::X(o) && o.window == window && o.time == time
    }
}

impl View for Owner {
    type V = OwnerView;

    closed spec fn view(&self) -> OwnerView {
        match *self {
            Owner::Nobody => OwnerView::Nobody,
            Owner::Wayland { offer, mimes } => OwnerView::Wayland { offer, mimes: list::texts(mimes@) },
            Owner::X(o) => OwnerView::X(o@),
        }
    }
}

/// Whether an announcement from the compositor is one we caused, and of which
/// kind, since it carries nothing else to tell it by.
#[derive(Clone, Copy, PartialEq, Eq, Structural, Debug)]
pub enum Echo {
    /// A source of ours, advertising exactly the text mime types.
    Source,
    /// Our withdrawal: an announcement of no selection at all.
    Withdrawn,
}

/// One selection's state on both sides.
struct SelState {
    owner: Owner,
    generation: u64,
    last_changed: u32,
    echoes: Vec<Echo>,
    published: bool,
    publishable: bool,
}

/// One selection's state on both sides.
#[verifier::ext_equal]
pub struct SelView {
    /// Who owns it, and everything that follows from that.
    pub owner: OwnerView,
    /// Moves on with every ownership change, so work handed to the other side can
    /// say which owner it was prepared for.
    pub generation: u64,
    /// When the owner last changed, on the server clock: the `TIMESTAMP` target, the
    /// XFixes `selection_timestamp`, and the floor under `SetSelectionOwner` times.
    /// X keeps it when an owner goes away.
    pub last_changed: u32,
    /// Announcements the compositor still owes us, oldest first. It announces the
    /// source we published exactly as it would any other app's, so without this the
    /// X owner we just recorded looks superseded.
    pub echoes: Seq<Echo>,
    /// Whether the compositor's selection is (or is about to be) a source of ours,
    /// and so ours to withdraw.
    pub published: bool,
    /// Whether the data-control device carries this selection at all: a wlr v1
    /// device has no primary selection.
    pub publishable: bool,
}

impl View for SelState {
    type V = SelView;

    closed spec fn view(&self) -> SelView {
        SelView {
            owner: self.owner@,
            generation: self.generation,
            last_changed: self.last_changed,
            echoes: self.echoes@,
            published: self.published,
            publishable: self.publishable,
        }
    }
}

/// The next count, wrapping.
pub open spec fn next_generation(g: u64) -> u64 {
    if g == u64::MAX {
        0
    } else {
        (g + 1) as u64
    }
}

impl SelView {
    pub open spec fn initial() -> SelView {
        SelView {
            owner: OwnerView::Nobody,
            generation: 0,
            last_changed: 0,
            echoes: Seq::empty(),
            published: false,
            publishable: false,
        }
    }

    /// With a new owner.
    pub open spec fn entered(self, owner: OwnerView) -> SelView {
        SelView { owner, generation: next_generation(self.generation), ..self }
    }

    /// Whether the compositor's announcement is the echo of our own oldest
    /// publication or withdrawal. A source of ours advertises exactly the text mime
    /// types, in order, and a withdrawal is announced as no offer; anything else is
    /// a foreign app's, however many echoes we are still owed.
    pub open spec fn is_echo(self, has_offer: bool, mimes: Seq<Seq<char>>) -> bool {
        self.echoes.len() > 0 && match self.echoes[0] {
            Echo::Source => has_offer && mimes == text_mime_names(),
            Echo::Withdrawn => !has_offer,
        }
    }

    /// With the echo taken: what the compositor shows now is settled.
    pub open spec fn echoed(self, has_offer: bool) -> SelView {
        SelView { echoes: self.echoes.drop_first(), published: has_offer, ..self }
    }

    /// With an echo owed.
    pub open spec fn owing(self, echo: Echo) -> SelView {
        let kept = if self.echoes.len() >= MAX_ECHOES { self.echoes.drop_first() } else { self.echoes };
        SelView { echoes: kept.push(echo), published: echo is Source, ..self }
    }

    /// With the last echo not owed after all: nobody is going to tell the
    /// compositor.
    pub open spec fn unowing(self) -> SelView {
        SelView { echoes: self.echoes.drop_last(), published: false, ..self }
    }
}

/// An `XFixesSelectionNotify` a transition calls for. `selection_timestamp` is
/// the selection's last change, which is the event's own time for a change of
/// owner but stays put when an owner merely went away.
#[derive(Clone, Copy, PartialEq, Eq, Structural, Debug)]
pub struct Notify {
    pub subtype: SelectionEvent,
    pub owner: u32,
    pub timestamp: u32,
    pub selection_timestamp: u32,
}

/// What a transition leaves its caller to do, rather than doing it itself.
pub struct Effects {
    /// Offers the compositor has replaced; the protocol asks us to destroy them.
    pub destroy: Vec<DataOffer>,
    /// The X client the selection was taken from, owed a `SelectionClear`.
    pub cleared: Option<XOwner>,
    /// What XFixes watchers are owed, if anything. An X client's acquisition
    /// is announced only once we know whether there is anything to serve for
    /// it, so the transition that records it emits nothing.
    pub notify: Option<Notify>,
    /// When the change happened, which the `SelectionClear` carries.
    pub at: u32,
    /// Jobs that had to be dropped; the conversions among them are refused.
    pub dropped: Vec<Job>,
}

/// What a transition leaves its caller to do.
#[verifier::ext_equal]
pub struct EffectsView {
    pub destroy: Seq<DataOffer>,
    pub cleared: Option<XOwnerView>,
    pub notify: Option<Notify>,
    pub at: u32,
    pub dropped: Seq<JobView>,
}

impl View for Effects {
    type V = EffectsView;

    open spec fn view(&self) -> EffectsView {
        EffectsView {
            destroy: self.destroy@,
            cleared: match self.cleared {
                Some(o) => Some(o@),
                None => None,
            },
            notify: self.notify,
            at: self.at,
            dropped: clipjobs::job_views(self.dropped@),
        }
    }
}

impl EffectsView {
    /// Nothing to do.
    pub open spec fn nothing(at: u32) -> EffectsView {
        EffectsView { destroy: Seq::empty(), cleared: None, notify: None, at, dropped: Seq::empty() }
    }
}

impl Effects {
    fn nothing(at: u32) -> (fx: Effects)
        ensures
            fx@ == EffectsView::nothing(at),
    {
        let fx = Effects { destroy: Vec::new(), cleared: None, notify: None, at, dropped: Vec::new() };
        assert(fx@ =~= EffectsView::nothing(at));
        fx
    }
}

/// What an X client's `SetSelectionOwner` amounted to.
pub enum Take {
    /// Ignored, as X does, because its time is in the future or before the
    /// selection's last change; the client is told nothing.
    Stale,
    /// It took effect, with these to carry out.
    Took(Effects),
}

/// The value an X owner gave us for a selection, as the data-control source
/// publishing it carries it: a source keeps the bytes it was made with.
pub struct Published {
    pub sel: Sel,
    pub data: Vec<u8>,
}

/// Where the bytes answering a conversion come from.
pub enum Value {
    /// Nowhere: nobody owns the selection, or its X owner had nothing we could
    /// carry. The requestor is refused.
    Nothing,
    /// An X owner's value, which is already here.
    Here(Vec<u8>),
    /// A Wayland app's, which has to be piped out of it: the requestor waits
    /// for a [`Job::Receive`] to finish.
    FromWayland,
}

/// The clipboard and the primary selection, and the work for the Wayland side.
pub struct Clipboard {
    clipboard: SelState,
    primary: SelState,
    last_timestamp: u32,
    jobs: Jobs,
}

#[verifier::ext_equal]
pub struct ClipboardView {
    pub clipboard: SelView,
    pub primary: SelView,
    /// The X timestamp of the last selection change on either selection.
    pub last_timestamp: u32,
    /// Everything the compositor has to be told, on its way to the Wayland side.
    pub jobs: JobsView,
}

impl View for Clipboard {
    type V = ClipboardView;

    closed spec fn view(&self) -> ClipboardView {
        ClipboardView {
            clipboard: self.clipboard@,
            primary: self.primary@,
            last_timestamp: self.last_timestamp,
            jobs: self.jobs@,
        }
    }
}

impl ClipboardView {
    /// Nobody owns either selection, and nobody runs jobs yet.
    pub open spec fn initial() -> ClipboardView {
        ClipboardView {
            clipboard: SelView::initial(),
            primary: SelView::initial(),
            last_timestamp: 0,
            jobs: JobsView { queue: Seq::empty(), running: false },
        }
    }

    pub open spec fn sel(self, sel: Sel) -> SelView {
        match sel {
            Sel::Clipboard => self.clipboard,
            Sel::Primary => self.primary,
        }
    }

    pub open spec fn with_sel(self, sel: Sel, s: SelView) -> ClipboardView {
        match sel {
            Sel::Clipboard => ClipboardView { clipboard: s, ..self },
            Sel::Primary => ClipboardView { primary: s, ..self },
        }
    }

    /// The timestamp of a Wayland-side change: the server's time, pushed behind the
    /// last selection change, since a client that only takes strictly newer
    /// timestamps would drop a second change in one millisecond.
    pub open spec fn next_timestamp(self, clock: Clock) -> u32 {
        if time::is_after(clock.now(), self.last_timestamp) {
            clock.now()
        } else {
            next_time(self.last_timestamp)
        }
    }

    /// An X-side change at a time that the client chose.
    pub open spec fn changed_at(self, sel: Sel, at: u32) -> ClipboardView {
        let c = self.with_sel(sel, SelView { last_changed: at, ..self.sel(sel) });
        if time::is_after(at, self.last_timestamp) {
            ClipboardView { last_timestamp: at, ..c }
        } else {
            c
        }
    }

    /// With `data` published for `sel`, or our source withdrawn, and the jobs that
    /// this leaves to be dropped. The compositor then owes an announcement, unless
    /// it has no such selection or the job was not taken.
    pub open spec fn publishing(self, sel: Sel, data: Option<Seq<u8>>, now: u64) -> (ClipboardView, Seq<JobView>) {
        let s = self.sel(sel);
        let job = JobView::Publish(sel, data);
        if !s.publishable {
            (self, Seq::empty())
        } else {
            let owing = s.owing(if data is Some { Echo::Source } else { Echo::Withdrawn });
            let c = ClipboardView { jobs: self.jobs.posted(job, now), ..self };
            (
                c.with_sel(
                    sel,
                    if self.jobs.takes(now) {
                        owing
                    } else {
                        owing.unowing()
                    },
                ),
                self.jobs.dropped(job, now),
            )
        }
    }

    /// With what we published for `sel` withdrawn, if the compositor still shows
    /// it. Only ever ours.
    pub open spec fn withdrawing(self, sel: Sel, now: u64) -> (ClipboardView, Seq<JobView>) {
        if self.sel(sel).published {
            self.publishing(sel, None, now)
        } else {
            (self, Seq::empty())
        }
    }

    /// The compositor announced a selection: a Wayland app's, or the echo of
    /// something we published ourselves.
    pub open spec fn on_announced(self, clock: Clock, sel: Sel, offer: Option<DataOffer>, mimes: Seq<Seq<char>>) -> (
        ClipboardView,
        EffectsView,
    ) {
        let s = self.sel(sel);
        let given: Seq<DataOffer> = match offer {
            Some(o) => seq![o],
            None => Seq::empty(),
        };
        if s.is_echo(offer is Some, mimes) {
            let e = s.echoed(offer is Some);
            if s.owner is X {
                // nothing changed for X, and an offer pointing back at our own
                // source is of use to nobody
                (self.with_sel(sel, e), EffectsView { destroy: given, ..EffectsView::nothing(0) })
            } else {
                // published for an owner a foreign app displaced before the
                // compositor got to our source: this is what it shows now
                (
                    self.with_sel(sel, e.entered(OwnerView::announced(offer, mimes))),
                    EffectsView { destroy: s.owner.offers(), ..EffectsView::nothing(0) },
                )
            }
        } else {
            let at = self.next_timestamp(clock);
            let c = ClipboardView { last_timestamp: at, ..self };
            (
                c.with_sel(
                    sel,
                    SelView { last_changed: at, published: false, ..s }.entered(
                        OwnerView::announced(offer, mimes),
                    ),
                ),
                EffectsView {
                    destroy: s.owner.offers(),
                    cleared: match s.owner {
                        OwnerView::X(o) => Some(o),
                        _ => None,
                    },
                    notify: Some(
                        Notify {
                            subtype: SelectionEvent::SetSelectionOwner,
                            owner: if offer is Some { OWNER_WINDOW } else { 0 },
                            timestamp: at,
                            selection_timestamp: at,
                        },
                    ),
                    ..EffectsView::nothing(at)
                },
            )
        }
    }

    /// An X client took the selection, at a time that X does not ignore.
    pub open spec fn on_taken(self, sel: Sel, window: u32, client: u64, at: u32) -> (ClipboardView, EffectsView) {
        let s = self.sel(sel);
        let owner = OwnerView::X(XOwnerView { window, client, time: at, data: None });
        (
            self.with_sel(sel, s.entered(owner)).changed_at(sel, at),
            EffectsView {
                destroy: s.owner.offers(),
                cleared: match s.owner {
                    OwnerView::X(o) if o.client != client => Some(o),
                    _ => None,
                },
                ..EffectsView::nothing(at)
            },
        )
    }

    /// An X client gave the selection up, at a time that X does not ignore. X lets
    /// any client clear any selection, but a Wayland app's clipboard is not ours to
    /// wipe, so only an X owner is actually released.
    pub open spec fn on_released(self, clock: Clock, sel: Sel, at: u32) -> (ClipboardView, EffectsView) {
        let s = self.sel(sel);
        let notify = Some(
            Notify {
                subtype: SelectionEvent::SetSelectionOwner,
                owner: 0,
                timestamp: clock.now(),
                selection_timestamp: at,
            },
        );
        match s.owner {
            OwnerView::X(o) => {
                let (c, dropped) = self.with_sel(sel, s.entered(OwnerView::Nobody)).changed_at(sel, at).withdrawing(
                    sel,
                    clock.elapsed_ms,
                );
                (c, EffectsView { cleared: Some(o), notify, dropped, ..EffectsView::nothing(at) })
            },
            _ => (self.changed_at(sel, at), EffectsView { notify, ..EffectsView::nothing(at) }),
        }
    }

    /// What watchers are owed for an X client's acquisition, which waits until we
    /// know whether there is anything to serve for it. It carries the owner's own
    /// window and the time it used.
    pub open spec fn acquired(clock: Clock, window: u32, at: u32, dropped: Seq<JobView>) -> EffectsView {
        EffectsView {
            notify: Some(
                Notify {
                    subtype: SelectionEvent::SetSelectionOwner,
                    owner: window,
                    timestamp: clock.now(),
                    selection_timestamp: at,
                },
            ),
            dropped,
            ..EffectsView::nothing(at)
        }
    }

    /// The X owner gave us its value: it goes to both sides.
    pub open spec fn on_fetched(self, clock: Clock, sel: Sel, data: Seq<u8>) -> (ClipboardView, Seq<JobView>) {
        let s = self.sel(sel);
        let o = s.owner->X_0;
        self.with_sel(sel, SelView { owner: OwnerView::X(XOwnerView { data: Some(data), ..o }), ..s }).publishing(
            sel,
            Some(data),
            clock.elapsed_ms,
        )
    }

    /// The selection's X owner is `client` (on `window`, if given).
    pub open spec fn owned(self, sel: Sel, client: u64, window: Option<u32>) -> bool {
        self.sel(sel).owner matches OwnerView::X(o) && o.client == client && (window matches Some(w) ==> w
            == o.window)
    }

    /// The X owner of the selection went away.
    pub open spec fn on_owner_gone(self, clock: Clock, sel: Sel, subtype: SelectionEvent) -> (
        ClipboardView,
        EffectsView,
    ) {
        let s = self.sel(sel);
        let (c, dropped) = self.with_sel(sel, s.entered(OwnerView::Nobody)).withdrawing(sel, clock.elapsed_ms);
        (
            c,
            EffectsView {
                notify: Some(
                    Notify { subtype, owner: 0, timestamp: clock.now(), selection_timestamp: s.last_changed },
                ),
                dropped,
                ..EffectsView::nothing(s.last_changed)
            },
        )
    }

    /// The mime types the selection can be converted to. An X owner is only ever
    /// asked for UTF8_STRING, so what we can offer on its behalf is text and nothing
    /// else, and until its value is in nothing at all.
    pub open spec fn mimes(self, sel: Sel) -> Seq<Seq<char>> {
        match self.sel(sel).owner {
            OwnerView::Nobody => Seq::empty(),
            OwnerView::Wayland { mimes, .. } => mimes,
            OwnerView::X(o) => if o.data is Some {
                text_mime_names()
            } else {
                Seq::empty()
            },
        }
    }
}

/// The next timestamp, wrapping.
pub open spec fn next_time(t: u32) -> u32 {
    if t == u32::MAX {
        0
    } else {
        (t + 1) as u32
    }
}

/// The two rules for ignoring a `SetSelectionOwner`.
pub open spec fn is_stale(at: u32, now: u32, last_changed: u32) -> bool {
    time::is_after(at, now) || time::is_before(at, last_changed)
}

/// X's two rules for ignoring a `SetSelectionOwner`: one stamped after the
/// server's clock, or before the selection's last change, is dropped without
/// a word. The second is what makes a slow client's stale request lose to the
/// change that overtook it.
pub fn stale_owner_time(time: u32, now: u32, last_changed: u32) -> (b: bool)
    ensures
        b == is_stale(time, now, last_changed),
{
    time::after(time, now) || time::before(time, last_changed)
}

impl SelState {
    fn initial() -> (s: SelState)
        ensures
            s@ == SelView::initial(),
    {
        let s = SelState {
            owner: Owner::Nobody,
            generation: 0,
            last_changed: 0,
            echoes: Vec::new(),
            published: false,
            publishable: false,
        };
        assert(s@ =~= SelView::initial());
        s
    }

    /// Moves the selection to a new owner, returning the one it replaces.
    fn enter(&mut self, owner: Owner) -> (prev: Owner)
        ensures
            final(self)@ == old(self)@.entered(owner@),
            prev@ == old(self)@.owner,
    {
        self.generation = self.generation.wrapping_add(1);
        let mut owner = owner;
        std::mem::swap(&mut self.owner, &mut owner);
        owner
    }

    /// Whether the compositor's announcement of this selection is the echo of
    /// our own oldest publication (or withdrawal), consuming the record if so.
    fn take_echo(&mut self, has_offer: bool, mimes: &Vec<String>) -> (ours: bool)
        ensures
            ours == old(self)@.is_echo(has_offer, list::texts(mimes@)),
            ours ==> final(self)@ == old(self)@.echoed(has_offer),
            !ours ==> *final(self) == *old(self),
    {
        if self.echoes.len() == 0 {
            return false;
        }
        let ours = match self.echoes[0] {
            Echo::Source => has_offer && are_text_mimes(mimes),
            Echo::Withdrawn => !has_offer,
        };
        if ours {
            let ghost e = self.echoes@;
            self.echoes.remove(0);
            assert(self.echoes@ =~= e.drop_first());
            // what the compositor shows now is settled, whatever raced ahead
            self.published = has_offer;
        }
        ours
    }
}

/// Whether the list is exactly [`text_mime_names`].
fn are_text_mimes(mimes: &Vec<String>) -> (b: bool)
    ensures
        b == (list::texts(mimes@) == text_mime_names()),
{
    let want = text_mimes();
    let ghost a = list::texts(mimes@);
    let ghost b = text_mime_names();
    if mimes.len() != want.len() {
        assert(a.len() != b.len());
        return false;
    }
    let mut i: usize = 0;
    while i < mimes.len()
        invariant
            i <= mimes.len(),
            mimes@.len() == want@.len(),
            a == list::texts(mimes@),
            b == list::texts(want@),
            b == text_mime_names(),
            forall|j: int| 0 <= j < i ==> a[j] == b[j],
        decreases mimes.len() - i,
    {
        if mimes[i] != want[i] {
            assert(a[i as int] != b[i as int]);
            return false;
        }
        i += 1;
    }
    assert(a =~= b);
    true
}

impl Owner {
    /// The owner of an announcement from the compositor.
    fn wayland(offer: Option<DataOffer>, mimes: Vec<String>) -> (o: Owner)
        ensures
            o@ == OwnerView::announced(offer, list::texts(mimes@)),
    {
        match offer {
            Some(offer) => Owner::Wayland { offer, mimes },
            None => Owner::Nobody,
        }
    }

    /// The window `GetSelectionOwner` answers with: a Wayland app's selection
    /// is ours to serve, so it gets our synthetic window.
    fn window(&self) -> (w: Option<u32>)
        ensures
            w == self@.window(),
    {
        match self {
            Owner::Nobody => None,
            Owner::Wayland { .. } => Some(OWNER_WINDOW),
            Owner::X(o) => Some(o.window),
        }
    }

    /// The offer this owner was announced with, to destroy once it is no
    /// longer the selection.
    fn into_offer(self) -> (v: Vec<DataOffer>)
        ensures
            v@ == self@.offers(),
    {
        let mut v: Vec<DataOffer> = Vec::new();
        if let Owner::Wayland { offer, .. } = self {
            v.push(offer);
        }
        assert(v@ =~= self@.offers());
        v
    }

    fn is_x(&self) -> (b: bool)
        ensures
            b == self@ is X,
    {
        match self {
            Owner::X(_) => true,
            _ => false,
        }
    }
}

impl Default for Clipboard {
    /// Nobody owns either selection, and nobody runs jobs yet.
    fn default() -> (c: Self)
        ensures
            c@ == ClipboardView::initial(),
    {
        Clipboard {
            clipboard: SelState::initial(),
            primary: SelState::initial(),
            last_timestamp: 0,
            jobs: Jobs::default(),
        }
    }
}

impl Clipboard {
    /// The queue of work for the Wayland side.
    pub fn jobs(&self) -> (j: &Jobs)
        ensures
            j@ == self@.jobs,
    {
        &self.jobs
    }

    /// The queue of work, to post to and to drain.
    pub fn jobs_mut(&mut self) -> (j: &mut Jobs)
        ensures
            j@ == old(self)@.jobs,
            final(self)@ == (ClipboardView { jobs: final(j)@, ..old(self)@ }),
    {
        &mut self.jobs
    }

    fn sel(&self, sel: Sel) -> (s: &SelState)
        ensures
            s@ == self@.sel(sel),
    {
        match sel {
            Sel::Clipboard => &self.clipboard,
            Sel::Primary => &self.primary,
        }
    }

    fn sel_mut(&mut self, sel: Sel) -> (s: &mut SelState)
        ensures
            s@ == old(self)@.sel(sel),
            final(self)@ == old(self)@.with_sel(sel, final(s)@),
    {
        match sel {
            Sel::Clipboard => &mut self.clipboard,
            Sel::Primary => &mut self.primary,
        }
    }

    /// Records whether the data-control device the Wayland side bound carries
    /// `sel` at all.
    pub fn set_publishable(&mut self, sel: Sel, publishable: bool)
        ensures
            final(self)@ == old(self)@.with_sel(sel, SelView { publishable, ..old(self)@.sel(sel) }),
    {
        let s = self.sel_mut(sel);
        s.publishable = publishable;
    }

    /// The window `GetSelectionOwner` answers with for `sel`.
    pub fn owner_window(&self, sel: Sel) -> (w: Option<u32>)
        ensures
            w == self@.sel(sel).owner.window(),
    {
        self.sel(sel).owner.window()
    }

    /// When `sel`'s owner last changed, for the TIMESTAMP target and the
    /// XFixes `selection_timestamp`.
    pub fn last_changed(&self, sel: Sel) -> (t: u32)
        ensures
            t == self@.sel(sel).last_changed,
    {
        self.sel(sel).last_changed
    }

    /// The mime types `sel` can be converted to, which the X targets are
    /// derived from, together with the ownership generation they belong to, so
    /// that a caller which acts on the mimes later can tell whether the owner
    /// changed underneath it; see [`offer_at`](Self::offer_at).
    pub fn convertible(&self, sel: Sel) -> (r: (Vec<String>, u64))
        ensures
            list::texts(r.0@) == self@.mimes(sel),
            r.1 == self@.sel(sel).generation,
    {
        let state = self.sel(sel);
        let mimes: Vec<String> = match &state.owner {
            Owner::Nobody => Vec::new(),
            Owner::Wayland { mimes, .. } => list::copy_strings(mimes),
            Owner::X(o) => if o.data.is_some() {
                text_mimes()
            } else {
                Vec::new()
            },
        };
        assert(list::texts(mimes@) =~= self@.mimes(sel));
        (mimes, state.generation)
    }

    /// The offer a [`Job::Receive`] has to ask, or `None` if a Wayland app no
    /// longer owns `sel`, or a *different* one now does than the conversion was
    /// prepared for: either way the X client asked before the change and is
    /// refused.
    pub fn offer_at(&self, sel: Sel, generation: u64) -> (r: Option<DataOffer>)
        ensures
            r == match self@.sel(sel).owner {
                OwnerView::Wayland { offer, .. } if self@.sel(sel).generation == generation => Some(offer),
                _ => None,
            },
    {
        let state = self.sel(sel);
        match &state.owner {
            Owner::Wayland { offer, .. } => if state.generation == generation {
                Some(*offer)
            } else {
                None
            },
            _ => None,
        }
    }

    /// [`convertible`](Self::convertible) for a caller acting on the answer
    /// straight away, which has no use for the generation.
    pub fn mimes(&self, sel: Sel) -> (v: Vec<String>)
        ensures
            list::texts(v@) == self@.mimes(sel),
    {
        self.convertible(sel).0
    }

    /// Where a conversion of `sel` gets its bytes.
    ///
    /// An X owner's value is already here; reading it back out of the
    /// compositor would round-trip into our own source and serve the previous
    /// selection until the compositor announced the new one. A Wayland app's
    /// has to be piped out of it, which only the Wayland side can start.
    pub fn value(&self, sel: Sel) -> (v: Value)
        ensures
            v is Nothing <==> self@.sel(sel).owner is Nobody || (self@.sel(sel).owner matches OwnerView::X(o)
                && o.data is None),
            v is FromWayland <==> self@.sel(sel).owner is Wayland,
            v matches Value::Here(d) ==> (self@.sel(sel).owner matches OwnerView::X(o) && o.data == Some(d@)),
    {
        match &self.sel(sel).owner {
            Owner::Nobody => Value::Nothing,
            Owner::X(o) => match &o.data {
                Some(data) => Value::Here(list::copy_bytes(data.as_slice())),
                None => Value::Nothing,
            },
            Owner::Wayland { .. } => Value::FromWayland,
        }
    }

    /// The X timestamp to stamp a Wayland-side selection change with.
    ///
    /// It has to come from the same clock as every other timestamp we hand out
    /// (the TIMESTAMP target, PropertyNotify), because clients compare them. Two
    /// changes inside one millisecond are pushed apart; the server clock is told,
    /// so nothing stamped afterwards falls behind it.
    fn next_timestamp(&mut self, clock: &mut Clock) -> (ts: u32)
        ensures
            ts == old(self)@.next_timestamp(*old(clock)),
            final(self)@ == (ClipboardView { last_timestamp: ts, ..old(self)@ }),
            *final(clock) == old(clock).noting(ts),
    {
        let now: u32 = time::server_time_ms(clock);
        let ts: u32 = if time::after(now, self.last_timestamp) {
            now
        } else {
            self.last_timestamp.wrapping_add(1)
        };
        self.last_timestamp = ts;
        time::note_selection_time(clock, ts);
        ts
    }

    /// Records an X-side change at `time`, which the client chose (from a
    /// `PropertyNotify` of ours, so it is never ahead of the clock).
    fn changed_at(&mut self, sel: Sel, time: u32)
        ensures
            final(self)@ == old(self)@.changed_at(sel, time),
    {
        if time::after(time, self.last_timestamp) {
            self.last_timestamp = time;
        }
        let s = self.sel_mut(sel);
        s.last_changed = time;
    }

    /// The compositor announced a selection for `sel`: a Wayland app's, or the
    /// echo of something we published ourselves.
    pub fn wayland_announced(&mut self, sel: Sel, offer: Option<DataOffer>, mimes: Vec<String>, clock: &mut Clock) -> (fx:
        Effects)
        ensures
            (final(self)@, fx@) == old(self)@.on_announced(*old(clock), sel, offer, list::texts(mimes@)),
            *final(clock) == if old(self)@.sel(sel).is_echo(offer is Some, list::texts(mimes@)) {
                *old(clock)
            } else {
                old(clock).noting(old(self)@.next_timestamp(*old(clock)))
            },
    {
        let ghost c0 = self@;
        let ghost s0 = self@.sel(sel);
        let has_offer = offer.is_some();
        let s = self.sel_mut(sel);
        let ours = s.take_echo(has_offer, &mimes);
        if ours {
            // Nothing changed for X: the X owner we published this for was
            // announced to watchers when it took the selection, and a second
            // notification would name a foreign owner that does not exist.
            let mut fx = Effects::nothing(0);
            if self.sel(sel).owner.is_x() {
                // its value is served from the owner record, so an offer
                // pointing back at our own source is of use to nobody
                if let Some(o) = offer {
                    fx.destroy.push(o);
                }
                assert(self@ =~= c0.with_sel(sel, s0.echoed(has_offer)));
                assert(fx@ =~= c0.on_announced(*old(clock), sel, offer, list::texts(mimes@)).1);
                return fx;
            }
            let s = self.sel_mut(sel);
            let prev = s.enter(Owner::wayland(offer, mimes));
            fx.destroy = prev.into_offer();
            assert(fx@ =~= c0.on_announced(*old(clock), sel, offer, list::texts(mimes@)).1);
            assert(self@ =~= c0.on_announced(*old(clock), sel, offer, list::texts(mimes@)).0);
            return fx;
        }
        assert(self@ =~= c0);
        let at: u32 = self.next_timestamp(clock);
        let window: u32 = if has_offer { OWNER_WINDOW } else { 0 };
        let s = self.sel_mut(sel);
        s.last_changed = at;
        // whatever we had published is not what the compositor shows now, so
        // it is not ours to withdraw either
        s.published = false;
        let prev = s.enter(Owner::wayland(offer, mimes));
        let mut fx = Effects::nothing(at);
        fx.notify = Some(
            Notify {
                subtype: SelectionEvent::SetSelectionOwner,
                owner: window,
                timestamp: at,
                selection_timestamp: at,
            },
        );
        match prev {
            Owner::X(o) => {
                fx.cleared = Some(o);
            },
            other => {
                fx.destroy = other.into_offer();
            },
        }
        assert(fx@ =~= c0.on_announced(*old(clock), sel, offer, list::texts(mimes@)).1);
        assert(self@ =~= c0.on_announced(*old(clock), sel, offer, list::texts(mimes@)).0);
        fx
    }

    /// An X client took `sel` on `window` at `time`, unless X would ignore the
    /// request. Watchers are told once the fetch that follows resolves, not
    /// here: until then there is nothing to serve for it.
    pub fn x_took(&mut self, sel: Sel, window: u32, client: u64, time: u32, clock: &Clock) -> (t: Take)
        ensures
            t is Stale <==> is_stale(time, clock.now(), old(self)@.sel(sel).last_changed),
            t is Stale ==> final(self)@ == old(self)@,
            t matches Take::Took(fx) ==> (final(self)@, fx@) == old(self)@.on_taken(sel, window, client, time),
    {
        let ghost c0 = self@;
        if stale_owner_time(time, time::server_time_ms(clock), self.last_changed(sel)) {
            return Take::Stale;
        }
        // the previous owner's value goes with it: the new one's is unknown
        // until fetched, and serving the old one as it would be a lie
        let owner = Owner::X(XOwner { window, client, time, data: None });
        let s = self.sel_mut(sel);
        let prev = s.enter(owner);
        self.changed_at(sel, time);
        let mut fx = Effects::nothing(time);
        match prev {
            Owner::X(o) => {
                if !o.owned_by(client) {
                    fx.cleared = Some(o);
                }
            },
            // a Wayland app's offer is spent (X serves this owner's value now),
            // but its clipboard is not ours to clear on the compositor
            other => {
                fx.destroy = other.into_offer();
            },
        }
        assert(fx@ =~= c0.on_taken(sel, window, client, time).1);
        Take::Took(fx)
    }

    /// An X client gave `sel` up at `time` (`SetSelectionOwner` with no
    /// window), unless X would ignore the request. What we published for the
    /// owner goes with it: nobody owns the selection now.
    pub fn x_released(&mut self, sel: Sel, time: u32, clock: &Clock) -> (t: Take)
        ensures
            t is Stale <==> is_stale(time, clock.now(), old(self)@.sel(sel).last_changed),
            t is Stale ==> final(self)@ == old(self)@,
            t matches Take::Took(fx) ==> (final(self)@, fx@) == old(self)@.on_released(*clock, sel, time),
    {
        let ghost c0 = self@;
        if stale_owner_time(time, time::server_time_ms(clock), self.last_changed(sel)) {
            return Take::Stale;
        }
        let mut fx = Effects::nothing(time);
        fx.notify = Some(
            Notify {
                subtype: SelectionEvent::SetSelectionOwner,
                owner: 0,
                timestamp: time::server_time_ms(clock),
                selection_timestamp: time,
            },
        );
        // X lets any client clear any selection, but a Wayland app's clipboard is
        // not ours to wipe, so only an X owner is actually released here
        if self.sel(sel).owner.is_x() {
            let s = self.sel_mut(sel);
            let prev = s.enter(Owner::Nobody);
            // X tells the old owner even when it is the same client, since
            // the selection now has no owner at all
            if let Owner::X(o) = prev {
                fx.cleared = Some(o);
            }
            self.changed_at(sel, time);
            fx.dropped = self.withdraw(sel, clock.elapsed_ms);
        } else {
            self.changed_at(sel, time);
        }
        assert(fx@ =~= c0.on_released(*clock, sel, time).1);
        Take::Took(fx)
    }

    /// The X owner that took `sel` at `time` gave us its value: it goes to
    /// both sides, and watchers hear of the acquisition at last. A value from
    /// an owner that has since been displaced is dropped, and nobody told.
    pub fn x_fetched(&mut self, sel: Sel, window: u32, time: u32, data: Vec<u8>, clock: &Clock) -> (r: Option<Effects>)
        ensures
            r is Some <==> old(self)@.sel(sel).owner.is_acquisition(window, time),
            r is None ==> final(self)@ == old(self)@,
            r matches Some(fx) ==> ({
                let (c, dropped) = old(self)@.on_fetched(*clock, sel, data@);
                final(self)@ == c && fx@ == ClipboardView::acquired(*clock, window, time, dropped)
            }),
    {
        let ghost c0 = self@;
        if !self.is_acquisition(sel, window, time) {
            return None;
        }
        let copy = list::copy_bytes(data.as_slice());
        let s = self.sel_mut(sel);
        let ghost s0 = s@;
        match &mut s.owner {
            Owner::X(o) => {
                o.data = Some(data);
            },
            _ => {},
        }
        assert(self@ =~= c0.with_sel(
            sel,
            SelView { owner: OwnerView::X(XOwnerView { data: Some(data@), ..s0.owner->X_0 }), ..s0 },
        ));
        let dropped = self.publish(sel, Some(copy), clock.elapsed_ms);
        Some(acquired(clock, window, time, dropped))
    }

    /// Whether the selection's owner is the acquisition that a fetch was started
    /// for.
    fn is_acquisition(&self, sel: Sel, window: u32, time: u32) -> (b: bool)
        ensures
            b == self@.sel(sel).owner.is_acquisition(window, time),
    {
        match &self.sel(sel).owner {
            Owner::X(o) => o.is(window, time),
            _ => false,
        }
    }

    /// The X owner that took `sel` at `time` would not give us its value:
    /// withdraws what we published for the owner before it, so that neither
    /// side keeps handing out the *previous* clipboard item for a selection
    /// somebody else now owns. Only what we put there, though: any X owner holding
    /// something other than text refuses, and wiping a Wayland app's own clipboard
    /// for that would lose user data that is still perfectly good.
    pub fn x_fetch_failed(&mut self, sel: Sel, window: u32, time: u32, clock: &Clock) -> (r: Option<Effects>)
        ensures
            r is Some <==> old(self)@.sel(sel).owner.is_acquisition(window, time),
            r is None ==> final(self)@ == old(self)@,
            r matches Some(fx) ==> ({
                let (c, dropped) = old(self)@.withdrawing(sel, clock.elapsed_ms);
                final(self)@ == c && fx@ == ClipboardView::acquired(*clock, window, time, dropped)
            }),
    {
        if !self.is_acquisition(sel, window, time) {
            return None;
        }
        let dropped = self.withdraw(sel, clock.elapsed_ms);
        Some(acquired(clock, window, time, dropped))
    }

    /// Forgets the X owner of `sel` if it is `client` (on `window`, if given),
    /// which is going away, and withdraws what we published for it. X reverts
    /// a dead owner's selections to `None` and tells XFixes watchers with
    /// `subtype`, leaving the selection's timestamp as it was.
    pub fn x_owner_gone(
        &mut self,
        sel: Sel,
        client: u64,
        window: Option<u32>,
        subtype: SelectionEvent,
        clock: &Clock,
    ) -> (r: Option<Effects>)
        ensures
            r is Some <==> old(self)@.owned(sel, client, window),
            r is None ==> final(self)@ == old(self)@,
            r matches Some(fx) ==> (final(self)@, fx@) == old(self)@.on_owner_gone(*clock, sel, subtype),
    {
        let ghost c0 = self@;
        let ours = match &self.sel(sel).owner {
            Owner::X(o) => o.owned_by(client) && match window {
                Some(w) => w == o.window,
                None => true,
            },
            _ => false,
        };
        if !ours {
            return None;
        }
        let last_changed: u32 = self.last_changed(sel);
        let s = self.sel_mut(sel);
        s.enter(Owner::Nobody);
        let mut fx = Effects::nothing(last_changed);
        fx.dropped = self.withdraw(sel, clock.elapsed_ms);
        fx.notify = Some(
            Notify {
                subtype,
                owner: 0,
                timestamp: time::server_time_ms(clock),
                selection_timestamp: last_changed,
            },
        );
        assert(fx@ =~= c0.on_owner_gone(*clock, sel, subtype).1);
        Some(fx)
    }

    /// Publishes `data` for `sel`, or withdraws our source with `None`, and
    /// records the announcement the compositor then owes us.
    fn publish(&mut self, sel: Sel, data: Option<Vec<u8>>, now: u64) -> (dropped: Vec<Job>)
        ensures
            (final(self)@, clipjobs::job_views(dropped@)) == old(self)@.publishing(
                sel,
                clipjobs::data_view(data),
                now,
            ),
    {
        let ghost c0 = self@;
        let ghost s0 = self@.sel(sel);
        if !self.sel(sel).publishable {
            let none: Vec<Job> = Vec::new();
            assert(clipjobs::job_views(none@) =~= Seq::empty());
            return none;
        }
        let echo = if data.is_some() { Echo::Source } else { Echo::Withdrawn };
        let job = Job::Publish(sel, data);
        let ghost jv = job@;
        let (taken, dropped) = self.jobs.post(job, now);
        let s = self.sel_mut(sel);
        if s.echoes.len() >= MAX_ECHOES {
            s.echoes.remove(0);
            assert(s.echoes@ =~= s0.echoes.drop_first());
        }
        s.echoes.push(echo);
        s.published = echo == Echo::Source;
        assert(s@ =~= s0.owing(echo));
        if !taken {
            // nobody is going to tell the compositor, so it owes us nothing
            s.echoes.pop();
            s.published = false;
            assert(s@ =~= s0.owing(echo).unowing());
        }
        assert(self@ =~= c0.publishing(sel, clipjobs::data_view(data), now).0);
        dropped
    }

    /// Withdraws what we published for `sel`, if the compositor still shows it.
    fn withdraw(&mut self, sel: Sel, now: u64) -> (dropped: Vec<Job>)
        ensures
            (final(self)@, clipjobs::job_views(dropped@)) == old(self)@.withdrawing(sel, now),
    {
        if !self.sel(sel).published {
            let none: Vec<Job> = Vec::new();
            assert(clipjobs::job_views(none@) =~= Seq::empty());
            return none;
        }
        self.publish(sel, None, now)
    }

    /// Whether `offer` is still the one the compositor announced for `sel`. A
    /// request on an offer it has replaced is dropped on the floor, which
    /// reads as an instant EOF, and that must not reach a requestor as an
    /// empty selection.
    pub fn is_current(&self, sel: Sel, offer: DataOffer) -> (b: bool)
        ensures
            b == (self@.sel(sel).owner matches OwnerView::Wayland { offer: o, .. } && o == offer),
    {
        match &self.sel(sel).owner {
            Owner::Wayland { offer: cur, .. } => *cur == offer,
            _ => false,
        }
    }
}

/// The notification watchers are owed for an X client's acquisition.
fn acquired(clock: &Clock, window: u32, time: u32, dropped: Vec<Job>) -> (fx: Effects)
    ensures
        fx@ == ClipboardView::acquired(*clock, window, time, clipjobs::job_views(dropped@)),
{
    let mut fx = Effects::nothing(time);
    fx.dropped = dropped;
    fx.notify = Some(
        Notify {
            subtype: SelectionEvent::SetSelectionOwner,
            owner: window,
            timestamp: time::server_time_ms(clock),
            selection_timestamp: time,
        },
    );
    fx
}

/// One thing that a transition asks for, in the order in which it has to be done.
pub enum Outgoing {
    /// Destroy an offer that the compositor has replaced.
    Destroy(DataOffer),
    /// A `SelectionClear` to the client that lost the selection.
    Clear { client: u64, time: u32, owner: u32, selection: u32 },
    /// An `XFixesSelectionNotify` to every client that watches the selection.
    Changed { selection: u32, notify: Notify },
    /// Drop a job; a conversion is refused.
    Drop(Job),
}

/// One thing that a transition asks for.
#[verifier::ext_equal]
pub enum OutgoingView {
    Destroy(DataOffer),
    Clear { client: u64, time: u32, owner: u32, selection: u32 },
    Changed { selection: u32, notify: Notify },
    Drop(JobView),
}

impl View for Outgoing {
    type V = OutgoingView;

    open spec fn view(&self) -> OutgoingView {
        match *self {
            Outgoing::Destroy(o) => OutgoingView::Destroy(o),
            Outgoing::Clear { client, time, owner, selection } => OutgoingView::Clear { client, time, owner, selection },
            Outgoing::Changed { selection, notify } => OutgoingView::Changed { selection, notify },
            Outgoing::Drop(j) => OutgoingView::Drop(j@),
        }
    }
}

/// What each of them is.
pub open spec fn outgoing_views(s: Seq<Outgoing>) -> Seq<OutgoingView> {
    s.map_values(|o: Outgoing| o@)
}

impl EffectsView {
    /// The events that clients are owed, in the order they need them: the old owner
    /// hears it lost the selection before watchers hear that it changed.
    pub open spec fn events(self, selection: u32) -> Seq<OutgoingView> {
        (match self.cleared {
            Some(o) => seq![
                (OutgoingView::Clear { client: o.client, time: self.at, owner: o.window, selection }),
            ],
            None => Seq::empty(),
        }) + (match self.notify {
            Some(notify) => seq![(OutgoingView::Changed { selection, notify })],
            None => Seq::empty(),
        })
    }

    /// The work that is dropped.
    pub open spec fn drops(jobs: Seq<JobView>) -> Seq<OutgoingView> {
        jobs.map_values(|j: JobView| OutgoingView::Drop(j))
    }

    /// What carrying the effects out asks for. The offers are destroyed by the
    /// Wayland side, through a job; where nobody drains the queue they are destroyed
    /// on the spot, since an offer nobody destroys is a leak.
    pub open spec fn outgoing(self, jobs: JobsView, selection: u32, now: u64) -> Seq<OutgoingView> {
        let first = Self::drops(self.dropped);
        let destroyed = if self.destroy.len() == 0 {
            Seq::empty()
        } else if jobs.running {
            Self::drops(jobs.dropped(JobView::Destroy(self.destroy), now))
        } else {
            self.destroy.map_values(|o: DataOffer| OutgoingView::Destroy(o))
        };
        first + destroyed + self.events(selection)
    }
}

/// The work that has to be dropped.
fn push_drops(out: &mut Vec<Outgoing>, jobs: Vec<Job>)
    ensures
        outgoing_views(final(out)@) == outgoing_views(old(out)@) + EffectsView::drops(clipjobs::job_views(jobs@)),
{
    let ghost o0 = out@;
    let ghost js = clipjobs::job_views(jobs@);
    let mut jobs = jobs;
    let ghost mut done: int = 0;
    while jobs.len() > 0
        invariant
            0 <= done <= js.len(),
            clipjobs::job_views(jobs@) == js.skip(done),
            outgoing_views(out@) == outgoing_views(o0) + EffectsView::drops(js.take(done)),
        decreases jobs.len(),
    {
        assert(clipjobs::job_views(jobs@).len() == jobs@.len());
        let ghost before = out@;
        let ghost waiting = jobs@;
        let j = jobs.remove(0);
        proof {
            assert(j@ == js.skip(done)[0]);
            assert forall|i: int| 0 <= i < jobs@.len() implies #[trigger] clipjobs::job_views(jobs@)[i] == js.skip(
                done + 1,
            )[i] by {
                assert(jobs@[i] == waiting[i + 1]);
                assert(clipjobs::job_views(waiting)[i + 1] == js.skip(done)[i + 1]);
            }
            assert(clipjobs::job_views(jobs@) =~= js.skip(done + 1));
            assert(EffectsView::drops(js.take(done + 1)) =~= EffectsView::drops(js.take(done)).push(
                OutgoingView::Drop(js[done]),
            ));
        }
        out.push(Outgoing::Drop(j));
        assert(outgoing_views(out@) =~= outgoing_views(before).push(OutgoingView::Drop(js[done])));
        proof {
            done = done + 1;
        }
    }
    assert(clipjobs::job_views(jobs@).len() == jobs@.len());
    assert(js.take(done) =~= js);
}

/// The work that has to be dropped, as something to be done.
pub fn drops_of(jobs: Vec<Job>) -> (out: Vec<Outgoing>)
    ensures
        outgoing_views(out@) == EffectsView::drops(clipjobs::job_views(jobs@)),
{
    let mut out: Vec<Outgoing> = Vec::new();
    let ghost js = clipjobs::job_views(jobs@);
    assert(outgoing_views(out@) =~= Seq::empty());
    push_drops(&mut out, jobs);
    assert(outgoing_views(out@) =~= EffectsView::drops(js));
    out
}

impl Effects {
    /// Hands the offers back to the Wayland side and gives what is left to do, in
    /// the order in which clients need it: the old owner hears it lost the
    /// selection before watchers hear that it changed (a client that still believes
    /// it owns the selection ignores the notification, and never asks for the new
    /// value).
    pub fn apply(self, clipboard: &mut Clipboard, selection: u32, now: u64) -> (out: Vec<Outgoing>)
        ensures
            outgoing_views(out@) == self@.outgoing(old(clipboard)@.jobs, selection, now),
            final(clipboard)@ == (ClipboardView {
                jobs: if self@.destroy.len() > 0 && old(clipboard)@.jobs.running {
                    old(clipboard)@.jobs.posted(JobView::Destroy(self@.destroy), now)
                } else {
                    old(clipboard)@.jobs
                },
                ..old(clipboard)@
            }),
    {
        let ghost c0 = clipboard@;
        let ghost fx = self@;
        let mut out: Vec<Outgoing> = Vec::new();
        let Effects { destroy, cleared, notify, at, dropped } = self;
        assert(outgoing_views(out@) =~= Seq::empty());
        push_drops(&mut out, dropped);
        assert(outgoing_views(out@) =~= EffectsView::drops(fx.dropped));
        let ghost o1 = outgoing_views(out@);
        if destroy.len() > 0 {
            if clipboard.jobs.running() {
                let job = Job::Destroy(destroy);
                let (_, refused) = clipboard.jobs.post(job, now);
                push_drops(&mut out, refused);
            } else {
                let mut i: usize = 0;
                assert(fx.destroy.take(0).map_values(|o: DataOffer| OutgoingView::Destroy(o)) =~= Seq::empty());
                assert(o1 + Seq::<OutgoingView>::empty() =~= o1);
                while i < destroy.len()
                    invariant
                        i <= destroy.len(),
                        destroy@ == fx.destroy,
                        outgoing_views(out@) == o1 + fx.destroy.take(i as int).map_values(
                            |o: DataOffer| OutgoingView::Destroy(o),
                        ),
                    decreases destroy.len() - i,
                {
                    let ghost before = out@;
                    out.push(Outgoing::Destroy(destroy[i]));
                    proof {
                        assert(outgoing_views(out@) =~= outgoing_views(before).push(
                            OutgoingView::Destroy(fx.destroy[i as int]),
                        ));
                        assert(fx.destroy.take(i as int + 1).map_values(|o: DataOffer| OutgoingView::Destroy(o))
                            =~= fx.destroy.take(i as int).map_values(|o: DataOffer| OutgoingView::Destroy(o)).push(
                            OutgoingView::Destroy(fx.destroy[i as int]),
                        ));
                    }
                    i += 1;
                }
                assert(fx.destroy.take(i as int) =~= fx.destroy);
            }
        }
        let ghost o2 = outgoing_views(out@);
        if let Some(o) = cleared {
            let ghost before = out@;
            out.push(Outgoing::Clear { client: o.client, time: at, owner: o.window, selection });
            assert(outgoing_views(out@) =~= outgoing_views(before).push(
                OutgoingView::Clear { client: o.client, time: at, owner: o.window, selection },
            ));
        }
        if let Some(notify) = notify {
            let ghost before = out@;
            out.push(Outgoing::Changed { selection, notify });
            assert(outgoing_views(out@) =~= outgoing_views(before).push(OutgoingView::Changed { selection, notify }));
        }
        assert(outgoing_views(out@) =~= o2 + fx.events(selection));
        assert(outgoing_views(out@) =~= fx.outgoing(c0.jobs, selection, now));
        out
    }
}

/// The echo of our own source leaves the X owner, its value and its time exactly as
/// they were, and tells nobody.
pub proof fn law_echo_changes_nothing_for_x(
    c: ClipboardView,
    clock: Clock,
    sel: Sel,
    offer: Option<DataOffer>,
    mimes: Seq<Seq<char>>,
)
    requires
        c.sel(sel).is_echo(offer is Some, mimes),
        c.sel(sel).owner is X,
    ensures
        ({
            let (d, fx) = c.on_announced(clock, sel, offer, mimes);
            &&& d.sel(sel).owner == c.sel(sel).owner
            &&& d.sel(sel).last_changed == c.sel(sel).last_changed
            &&& d.sel(sel).generation == c.sel(sel).generation
            &&& d.jobs == c.jobs
            &&& fx.notify is None && fx.cleared is None
        }),
{
}

/// Each publication expects its own echo: with none owed before, the announcement of
/// our source is recognised once, and a second one is somebody else's.
pub proof fn law_each_publication_expects_its_own_echo(
    c: ClipboardView,
    clock: Clock,
    sel: Sel,
    data: Seq<u8>,
    offer: DataOffer,
)
    requires
        c.sel(sel).publishable,
        c.sel(sel).echoes.len() == 0,
        c.jobs.takes(clock.elapsed_ms),
    ensures
        ({
            let d = c.publishing(sel, Some(data), clock.elapsed_ms).0;
            let e = d.on_announced(clock, sel, Some(offer), text_mime_names()).0;
            &&& d.sel(sel).is_echo(true, text_mime_names())
            &&& !e.sel(sel).is_echo(true, text_mime_names())
        }),
{
    let d = c.publishing(sel, Some(data), clock.elapsed_ms).0;
    assert(d.sel(sel).echoes[0] == Echo::Source);
}

/// A foreign app's announcement is never taken for our echo, whatever we are owed.
pub proof fn law_foreign_offers_are_not_echoes(s: SelView, mimes: Seq<Seq<char>>)
    requires
        mimes != text_mime_names(),
    ensures
        !s.is_echo(true, mimes),
{
}

/// Nothing is owed when the compositor was not told: publishing to a selection that
/// it does not carry, or a job that nobody takes, leaves no echo behind.
pub proof fn law_nothing_is_owed_for_what_was_not_told(c: ClipboardView, sel: Sel, data: Option<Seq<u8>>, now: u64)
    requires
        !c.sel(sel).publishable || !c.jobs.takes(now),
        c.sel(sel).echoes.len() < MAX_ECHOES,
    ensures
        c.publishing(sel, data, now).0.sel(sel).echoes == c.sel(sel).echoes,
{
    let e = c.sel(sel).echoes;
    assert(e.push(Echo::Source).drop_last() =~= e);
    assert(e.push(Echo::Withdrawn).drop_last() =~= e);
}

/// What an X client put on a selection is what the Wayland apps are offered, and what the
/// other X clients are given: the value that its owner gave us is posted to be published,
/// unchanged, and kept.
pub proof fn law_x_value_goes_to_both_sides(c: ClipboardView, clock: Clock, sel: Sel, data: Seq<u8>)
    requires
        c.sel(sel).owner is X,
        c.sel(sel).publishable,
        c.jobs.takes(clock.elapsed_ms),
    ensures
        ({
            let (after, _) = c.on_fetched(clock, sel, data);
            &&& after.jobs.queue.last() == JobView::Publish(sel, Some(data))
            &&& after.sel(sel).owner matches OwnerView::X(o) && o.data == Some(data)
        }),
{
}

/// We never wait for more echoes than the limit.
pub proof fn law_echoes_are_bounded(c: ClipboardView, sel: Sel, data: Option<Seq<u8>>, now: u64)
    requires
        c.sel(sel).echoes.len() <= MAX_ECHOES,
    ensures
        c.publishing(sel, data, now).0.sel(sel).echoes.len() <= MAX_ECHOES,
{
}

/// The generation moves with every change of owner, so a conversion prepared for one
/// owner is never answered by another.
pub proof fn law_generation_moves_with_the_owner(
    c: ClipboardView,
    clock: Clock,
    sel: Sel,
    offer: Option<DataOffer>,
    mimes: Seq<Seq<char>>,
    window: u32,
    client: u64,
    at: u32,
)
    ensures
        !(c.sel(sel).is_echo(offer is Some, mimes) && c.sel(sel).owner is X) ==> c.on_announced(
            clock,
            sel,
            offer,
            mimes,
        ).0.sel(sel).generation != c.sel(sel).generation,
        c.on_taken(sel, window, client, at).0.sel(sel).generation != c.sel(sel).generation,
        c.sel(sel).owner is X ==> c.on_released(clock, sel, at).0.sel(sel).generation != c.sel(sel).generation,
        c.on_owner_gone(clock, sel, SelectionEvent::SelectionClientClose).0.sel(sel).generation != c.sel(
            sel,
        ).generation,
{
}

/// A Wayland-side change is stamped after every selection change before it, and the
/// clock hands out nothing earlier afterwards.
pub proof fn law_wayland_changes_are_stamped_later(
    c: ClipboardView,
    clock: Clock,
    sel: Sel,
    offer: Option<DataOffer>,
    mimes: Seq<Seq<char>>,
)
    requires
        !c.sel(sel).is_echo(offer is Some, mimes),
    ensures
        ({
            let d = c.on_announced(clock, sel, offer, mimes).0;
            &&& time::is_after(d.sel(sel).last_changed, c.last_timestamp)
            &&& d.last_timestamp == d.sel(sel).last_changed
        }),
{
}

/// A Wayland app's clipboard is not ours to clear: an X client's release leaves its
/// offer where it is and posts nothing.
pub proof fn law_wayland_clipboard_survives_a_release(c: ClipboardView, clock: Clock, sel: Sel, at: u32)
    requires
        c.sel(sel).owner is Wayland,
    ensures
        ({
            let (d, fx) = c.on_released(clock, sel, at);
            &&& d.sel(sel).owner == c.sel(sel).owner
            &&& d.jobs == c.jobs
            &&& fx.cleared is None
            &&& fx.destroy.len() == 0
        }),
{
}

/// What we did not publish is not withdrawn.
pub proof fn law_only_our_own_source_is_withdrawn(c: ClipboardView, sel: Sel, now: u64)
    requires
        !c.sel(sel).published,
    ensures
        c.withdrawing(sel, now).0 == c,
{
}

/// A new owner has no value until it is fetched.
pub proof fn law_new_owner_has_no_value(c: ClipboardView, sel: Sel, window: u32, client: u64, at: u32)
    ensures
        c.on_taken(sel, window, client, at).0.mimes(sel).len() == 0,
        c.on_taken(sel, window, client, at).0.sel(sel).owner.window() == Some(window),
        c.on_taken(sel, window, client, at).0.sel(sel).last_changed == at,
{
}

/// Taking a selection again, on another window, owes the same client nothing; another
/// client's takeover owes it a clear.
pub proof fn law_clear_is_owed_per_client(
    c: ClipboardView,
    sel: Sel,
    window: u32,
    client: u64,
    at: u32,
    window2: u32,
    client2: u64,
    at2: u32,
)
    ensures
        ({
            let d = c.on_taken(sel, window, client, at).0;
            let fx = d.on_taken(sel, window2, client2, at2).1;
            &&& client2 == client ==> fx.cleared is None
            &&& client2 != client ==> (fx.cleared matches Some(o) && o.window == window && o.client == client)
        }),
{
}

/// A reply that lands after a takeover answers a question nobody is asking any more:
/// it is not the current acquisition.
pub proof fn law_late_replies_are_not_current(
    c: ClipboardView,
    clock: Clock,
    sel: Sel,
    offer: Option<DataOffer>,
    mimes: Seq<Seq<char>>,
    window: u32,
    at: u32,
)
    requires
        !c.sel(sel).is_echo(offer is Some, mimes),
    ensures
        !c.on_announced(clock, sel, offer, mimes).0.sel(sel).owner.is_acquisition(window, at),
{
}

/// The client that lost a selection hears of it before the watchers do.
pub proof fn law_clear_goes_before_the_notification(fx: EffectsView, selection: u32)
    requires
        fx.cleared is Some,
        fx.notify is Some,
    ensures
        fx.events(selection).len() == 2,
        fx.events(selection)[0] is Clear,
        fx.events(selection)[1] is Changed,
{
}

/// The two selections are kept apart: what is set of one is what is found of it, and the
/// other stays.
pub proof fn law_selections_are_kept_apart(c: ClipboardView, s: SelView)
    ensures
        c.with_sel(Sel::Primary, s).primary == s && c.with_sel(Sel::Primary, s).clipboard == c.clipboard,
        c.with_sel(Sel::Clipboard, s).clipboard == s && c.with_sel(Sel::Clipboard, s).primary == c.primary,
        c.sel(Sel::Primary) == c.primary,
        c.sel(Sel::Clipboard) == c.clipboard,
{
}

/// A new owner on either side is there at once: a Wayland app's offer with what it says it
/// has, or nobody where there is no offer.
pub proof fn law_foreign_offers_are_owned(
    c: ClipboardView,
    clock: Clock,
    sel: Sel,
    offer: Option<DataOffer>,
    mimes: Seq<Seq<char>>,
)
    requires
        !c.sel(sel).is_echo(offer is Some, mimes),
    ensures
        ({
            let after = c.on_announced(clock, sel, offer, mimes).0.sel(sel);
            match offer {
                Some(o) => after.owner == (OwnerView::Wayland { offer: o, mimes }),
                None => after.owner is Nobody,
            }
        }),
        c.on_announced(clock, sel, offer, mimes).1.notify matches Some(n) && n.owner == (if offer is Some {
            OWNER_WINDOW
        } else {
            0
        }) && n.timestamp == n.selection_timestamp && n.subtype is SetSelectionOwner,
{
}

/// An owner that goes away leaves nobody, and the time of the last change as it was.
pub proof fn law_gone_owners_leave_nobody(c: ClipboardView, clock: Clock, sel: Sel, subtype: SelectionEvent)
    ensures
        c.on_owner_gone(clock, sel, subtype).0.sel(sel).owner is Nobody,
        c.on_owner_gone(clock, sel, subtype).0.sel(sel).last_changed == c.sel(sel).last_changed,
        c.on_owner_gone(clock, sel, subtype).1.notify matches Some(n) && n.owner == 0 && n.subtype == subtype
            && n.selection_timestamp == c.sel(sel).last_changed,
{
}

/// A selection that its X owner's side gives up has no owner from then on; the owner is
/// told, whoever gave it up, and the watchers hear that nobody owns it.
pub proof fn law_released_selection_has_no_owner(c: ClipboardView, clock: Clock, sel: Sel, at: u32, o: XOwnerView)
    requires
        c.sel(sel).owner == OwnerView::X(o),
    ensures
        ({
            let (d, fx) = c.on_released(clock, sel, at);
            &&& d.sel(sel).owner is Nobody
            &&& d.sel(sel).last_changed == at
            &&& fx.cleared == Some(o)
            &&& fx.at == at
            &&& fx.notify matches Some(n) && n.owner == 0 && n.subtype is SetSelectionOwner && n.selection_timestamp == at
                && n.timestamp == clock.now()
        }),
{
}

/// What was published for a selection is withdrawn where the compositor shows it: it is
/// told, and its announcement of that is expected.
pub proof fn law_withdrawals_are_posted(c: ClipboardView, sel: Sel, now: u64)
    requires
        c.sel(sel).published,
        c.sel(sel).publishable,
        c.jobs.takes(now),
    ensures
        ({
            let d = c.withdrawing(sel, now).0;
            &&& d.jobs.queue.last() == JobView::Publish(sel, None)
            &&& d.sel(sel).echoes.last() == Echo::Withdrawn
            &&& !d.sel(sel).published
            &&& d.sel(sel).owner == c.sel(sel).owner
        }),
{
}

/// Whoever is displaced is let go: an X owner is told, and a Wayland app's offer is
/// destroyed.
pub proof fn law_displaced_owners_are_let_go(
    c: ClipboardView,
    clock: Clock,
    sel: Sel,
    offer: Option<DataOffer>,
    mimes: Seq<Seq<char>>,
    window: u32,
    client: u64,
    at: u32,
)
    requires
        !c.sel(sel).is_echo(offer is Some, mimes),
    ensures
        ({
            let fx = c.on_announced(clock, sel, offer, mimes).1;
            let taken = c.on_taken(sel, window, client, at).1;
            match c.sel(sel).owner {
                OwnerView::X(o) => fx.cleared == Some(o) && fx.destroy.len() == 0 && taken.destroy.len() == 0,
                OwnerView::Wayland { offer: old_one, .. } => fx.cleared is None && fx.destroy == seq![old_one]
                    && taken.destroy == seq![old_one] && taken.cleared is None,
                OwnerView::Nobody => fx.cleared is None && fx.destroy.len() == 0 && taken.destroy.len() == 0
                    && taken.cleared is None,
            }
        }),
{
}

/// Watchers of an acquisition hear who took the selection and when, once its value is in.
pub proof fn law_acquisitions_are_told_with_their_time(clock: Clock, window: u32, at: u32, dropped: Seq<JobView>)
    ensures
        ClipboardView::acquired(clock, window, at, dropped).notify matches Some(n) && n.owner == window
            && n.selection_timestamp == at && n.timestamp == clock.now() && n.subtype is SetSelectionOwner,
        ClipboardView::acquired(clock, window, at, dropped).cleared is None,
        ClipboardView::acquired(clock, window, at, dropped).dropped == dropped,
{
}

/// A time that is ahead of the server's, or behind the last change, is stale; one from the
/// last change to now is not.
pub proof fn law_times_from_the_last_change_to_now_count(now: u32, last_changed: u32, d: int)
    requires
        0 < d < 0x8000_0000,
        0 <= now - last_changed < 0x8000_0000,
    ensures
        is_stale(((now + d) % 0x1_0000_0000) as u32, now, last_changed),
        is_stale(((last_changed - d) % 0x1_0000_0000) as u32, now, last_changed),
        last_changed + d <= now ==> !is_stale((last_changed + d) as u32, now, last_changed),
        !is_stale(now, now, last_changed),
        !is_stale(last_changed, now, last_changed),
{
}

/// The client that lost a selection is told which one, on which window and when; the
/// watchers hear of the same selection.
pub proof fn law_effects_are_told_of_their_selection(fx: EffectsView, selection: u32, o: XOwnerView, n: Notify)
    requires
        fx.cleared == Some(o),
        fx.notify == Some(n),
    ensures
        fx.events(selection)[0] == (OutgoingView::Clear { client: o.client, time: fx.at, owner: o.window, selection }),
        fx.events(selection)[1] == (OutgoingView::Changed { selection, notify: n }),
{
}

/// What we publish is text, under each of the names that text goes by.
pub proof fn law_published_text_goes_by_its_names()
    ensures
        text_mime_names().len() == 5,
        text_mime_names().contains("text/plain;charset=utf-8"@),
        text_mime_names().contains("text/plain"@),
        text_mime_names().contains("UTF8_STRING"@),
        text_mime_names().contains("STRING"@),
        text_mime_names().contains("TEXT"@),
{
    let m = text_mime_names();
    assert(m[0] == "text/plain;charset=utf-8"@ && m[1] == "text/plain"@ && m[2] == "UTF8_STRING"@ && m[3] == "STRING"@
        && m[4] == "TEXT"@);
}

} // verus!
