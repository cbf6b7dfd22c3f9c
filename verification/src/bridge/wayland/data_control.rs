//! The clipboard bridge over the data-control protocols: `ext-data-control-v1`
//! (preferred) or `zwlr-data-control-v1` (fallback).
//!
//! Serving an X-owned selection to Wayland goes through [`PendingSend`], which keeps the
//! write off the event loop's critical path. Serving a Wayland-owned selection to X is
//! its mirror image, [`PendingReceive`]. Both are pumped: a pipe is read or written until
//! it would block, and each result is fed in here, which says whether to go on.
//!
//! Times are in milliseconds.

use crate::bridge::clipboard::{Clipboard, ClipboardView, DataOffer, EffectsView, OwnerView, Sel};
use crate::bridge::clipjobs;
use crate::bridge::clipjobs::{Answer, PendingConversion};
use crate::bridge::dynres::DynResView;
use crate::bridge::server;
use crate::bridge::server::{Server, ServerView};
use crate::bridge::x11::targets;
use crate::util::list;
use vstd::prelude::*;

verus! {

/// How many sends may be in flight before the oldest is dropped. A receiver that asks
/// for the selection and never reads it would otherwise pin a pipe forever, and a paste
/// storm would pin one each.
pub const MAX_PENDING_SENDS: usize = 8;

/// How long a send may make no progress before we give up on it and close the pipe (the
/// receiver sees a truncated value, which beats holding the pipe).
pub const SEND_TIMEOUT: u64 = 10_000;

/// How many conversions may be reading from Wayland apps at once. One X client polling a
/// wedged app is the realistic case; past this the rest are refused rather than queued,
/// which is what X does when nobody answers.
pub const MAX_PENDING_RECEIVES: usize = 8;

/// How long a receive may make no progress before we give up on it. The app is handed
/// the write end of a pipe and can simply never use it, but the X client is waiting for
/// its `SelectionNotify`.
pub const RECEIVE_IDLE_TIMEOUT: u64 = 5_000;

/// How long a conversion may take in all, queueing included, however steadily it
/// progresses. The idle budget alone lets an app that trickles a byte every few seconds
/// hold a pipe (and the requestor) indefinitely.
pub const RECEIVE_TIMEOUT: u64 = 30_000;

/// The largest selection we will carry in either direction. It is buffered whole, then
/// copied into a property and a `GetProperty` reply; it matches the per-client outbox
/// cap, past which the reply could not be delivered anyway.
pub const MAX_SELECTION_BYTES: usize = 67_108_864;

/// One send in flight: the value being fed into the receiving app's pipe, and when we
/// last managed to write something.
pub struct PendingSend {
    /// The pipe.
    pub pipe: i32,
    pub data: Vec<u8>,
    pub offset: usize,
    pub progress_at: u64,
}

/// What a write to a pipe came to.
#[derive(Clone, Copy, PartialEq, Eq, Structural, Debug)]
pub enum Written {
    /// So many bytes.
    Bytes(usize),
    /// The pipe is full, or the write was interrupted.
    Later,
    /// The receiver closed its end, or worse.
    Failed,
}

/// Whether a transfer goes on.
#[derive(Clone, Copy, PartialEq, Eq, Structural, Debug)]
pub enum Pump {
    /// Write what is left.
    Again,
    /// Come back to it.
    Later,
    /// It is over.
    Over,
}

/// A send before and after `n` bytes of what was left were written.
pub open spec fn wrote(before: PendingSend, after: PendingSend, n: usize) -> bool {
    &&& before.wf() && n <= before.data@.len() - before.offset
    &&& after.pipe == before.pipe && after.data == before.data
    &&& after.offset == before.offset + n
}

/// What a pipe got by a run of writes: with each the first bytes of what was left.
pub open spec fn piped(run: Seq<PendingSend>, counts: Seq<usize>) -> Seq<u8>
    decreases counts.len(),
{
    if counts.len() == 0 {
        Seq::empty()
    } else {
        let s = run[counts.len() - 1];
        piped(run, counts.drop_last()) + s.data@.subrange(s.offset as int, s.offset + counts.last())
    }
}

impl PendingSend {
    pub open spec fn wf(self) -> bool {
        self.offset <= self.data@.len()
    }

    pub fn new(pipe: i32, data: Vec<u8>, now: u64) -> (s: PendingSend)
        ensures
            s.wf(),
            s.pipe == pipe && s.data@ == data@ && s.offset == 0 && s.progress_at == now,
    {
        PendingSend { pipe, data, offset: 0, progress_at: now }
    }

    /// Whether anything is left to be written.
    pub fn is_done(&self) -> (b: bool)
        requires
            self.wf(),
        ensures
            b == (self.offset == self.data@.len()),
    {
        self.offset >= self.data.len()
    }

    /// Takes note of a write of what is left, and says whether to go on. A write of no
    /// bytes cannot happen on a pipe, but is not to be repeated either.
    pub fn pump(&mut self, written: Written, now: u64) -> (p: Pump)
        requires
            old(self).wf(),
            written matches Written::Bytes(n) ==> n <= old(self).data@.len() - old(self).offset,
        ensures
            final(self).wf(),
            match written {
                Written::Bytes(n) => if n == 0 {
                    p == Pump::Over && *final(self) == *old(self)
                } else {
                    &&& wrote(*old(self), *final(self), n)
                    &&& final(self).progress_at == now
                    &&& p == (if old(self).offset + n == old(self).data@.len() {
                        Pump::Over
                    } else {
                        Pump::Again
                    })
                },
                Written::Later => p == Pump::Later && *final(self) == *old(self),
                Written::Failed => p == Pump::Over && *final(self) == *old(self),
            },
    {
        match written {
            Written::Bytes(n) => {
                if n == 0 {
                    return Pump::Over;
                }
                assert(self.data.len() == self.data@.len());
                self.offset = self.offset + n;
                self.progress_at = now;
                if self.offset >= self.data.len() {
                    Pump::Over
                } else {
                    Pump::Again
                }
            },
            Written::Later => Pump::Later,
            Written::Failed => Pump::Over,
        }
    }

    /// Whether the send has made no progress for too long.
    pub fn is_stalled(&self, now: u64) -> (b: bool)
        ensures
            b == (now - self.progress_at >= SEND_TIMEOUT),
    {
        now.saturating_sub(self.progress_at) >= SEND_TIMEOUT
    }
}

/// Queues a send that did not fit its pipe. With too many in flight the oldest is
/// dropped, and returned so that its pipe can be closed.
pub fn queue_send(sends: &mut Vec<PendingSend>, send: PendingSend) -> (dropped: Option<PendingSend>)
    ensures
        if old(sends)@.len() >= MAX_PENDING_SENDS {
            &&& dropped == Some(old(sends)@[0])
            &&& final(sends)@ == old(sends)@.skip(1).push(send)
        } else {
            &&& dropped is None
            &&& final(sends)@ == old(sends)@.push(send)
        },
{
    let mut dropped: Option<PendingSend> = None;
    if sends.len() >= MAX_PENDING_SENDS {
        dropped = Some(sends.remove(0));
        assert(sends@ =~= old(sends)@.skip(1));
    }
    sends.push(send);
    dropped
}

/// One conversion in flight: what has arrived so far in the pipe the owning app is
/// writing its value into, and the X requestor waiting for it.
pub struct PendingReceive {
    /// The pipe.
    pub pipe: i32,
    pub sel: Sel,
    pub mime: String,
    /// The offer we asked, to tell an offer replaced under us from an app that really has
    /// nothing to say.
    pub offer: DataOffer,
    pub buf: Vec<u8>,
    /// When the X client asked, not when the transfer began: the total budget covers the
    /// wait for that as well.
    pub since: u64,
    pub progress_at: u64,
    /// The budgets.
    pub idle: u64,
    pub total: u64,
    pub max: usize,
    pub conversion: PendingConversion,
}

/// What a read from a pipe came to.
pub enum Chunk {
    Bytes(Vec<u8>),
    /// There is nothing right now.
    Later,
    /// The read was interrupted.
    Interrupted,
    /// Every writer is done, or there is nothing left to read from.
    End,
}

/// Why a [`PendingReceive`] stopped.
#[derive(Clone, Copy, PartialEq, Eq, Structural, Debug)]
pub enum ReadEnd {
    /// Every writer closed its end: the value is complete.
    Eof,
    /// Nothing arrived for the idle budget.
    Stalled,
    /// The total budget ran out, however steadily it came.
    TooSlow,
    /// More than [`MAX_SELECTION_BYTES`].
    TooBig,
}

/// Whether a conversion goes on.
#[derive(Clone, Copy, PartialEq, Eq, Structural, Debug)]
pub enum Pulled {
    /// Read on.
    Again,
    /// Come back to it.
    Later,
    /// It is over.
    End(ReadEnd),
}

/// The value that a conversion is answered with: anything short of a clean end is a
/// refusal rather than a truncated value, since the client would have no way of telling
/// that the tail of its paste had been lost. A request on an offer that the compositor
/// has replaced is dropped on the floor, which reads as an instant end; delivering that
/// as an empty selection would wipe the requestor's paste.
pub open spec fn delivered(c: ClipboardView, sel: Sel, offer: DataOffer, buf: Seq<u8>, end: ReadEnd) -> Option<Seq<u8>> {
    if end != ReadEnd::Eof {
        None
    } else if buf.len() == 0 && !(c.sel(sel).owner matches OwnerView::Wayland { offer: o, .. } && o == offer) {
        None
    } else {
        Some(buf)
    }
}

impl PendingReceive {
    pub fn new(pipe: i32, sel: Sel, mime: String, offer: DataOffer, since: u64, now: u64, conversion: PendingConversion) -> (r:
        PendingReceive)
        ensures
            r.pipe == pipe && r.sel == sel && r.mime == mime && r.offer == offer && r.since == since && r.conversion
                == conversion,
            r.buf@ == Seq::<u8>::empty(),
            r.progress_at == now,
            r.idle == RECEIVE_IDLE_TIMEOUT && r.total == RECEIVE_TIMEOUT && r.max == MAX_SELECTION_BYTES,
    {
        PendingReceive {
            pipe,
            sel,
            mime,
            offer,
            buf: Vec::new(),
            since,
            progress_at: now,
            idle: RECEIVE_IDLE_TIMEOUT,
            total: RECEIVE_TIMEOUT,
            max: MAX_SELECTION_BYTES,
            conversion,
        }
    }

    /// Takes note of a read, and says whether to go on. The idle budget restarts on every
    /// byte, so a large but slow transfer is only ever cut short by the total.
    pub fn pump(&mut self, chunk: Chunk, now: u64) -> (p: Pulled)
        ensures
            final(self).buf@ == buffered(old(self).buf@, chunk),
            match chunk {
                Chunk::Bytes(b) => {
                    &&& *final(self) == (PendingReceive { buf: final(self).buf, progress_at: now, ..*old(self) })
                    &&& p == (if old(self).buf@.len() + b@.len() > old(self).max {
                        Pulled::End(ReadEnd::TooBig)
                    } else {
                        Pulled::Again
                    })
                },
                Chunk::End => p == Pulled::End(ReadEnd::Eof) && *final(self) == *old(self),
                Chunk::Interrupted => p == Pulled::Again && *final(self) == *old(self),
                Chunk::Later => {
                    &&& *final(self) == *old(self)
                    &&& p == (if now - old(self).since >= old(self).total || old(self).total == 0 {
                        Pulled::End(ReadEnd::TooSlow)
                    } else if now - old(self).progress_at >= old(self).idle || old(self).idle == 0 {
                        Pulled::End(ReadEnd::Stalled)
                    } else {
                        Pulled::Later
                    })
                },
            },
    {
        match chunk {
            Chunk::Bytes(b) => {
                list::append_bytes(&mut self.buf, b.as_slice());
                self.progress_at = now;
                if self.buf.len() > self.max {
                    Pulled::End(ReadEnd::TooBig)
                } else {
                    Pulled::Again
                }
            },
            Chunk::End => Pulled::End(ReadEnd::Eof),
            Chunk::Interrupted => Pulled::Again,
            Chunk::Later => {
                if now.saturating_sub(self.since) >= self.total {
                    Pulled::End(ReadEnd::TooSlow)
                } else if now.saturating_sub(self.progress_at) >= self.idle {
                    Pulled::End(ReadEnd::Stalled)
                } else {
                    Pulled::Later
                }
            },
        }
    }

    /// Answers the requestor.
    pub fn finish(self, end: ReadEnd, clipboard: &Clipboard) -> (a: Answer)
        ensures
            match delivered(clipboard@, self.sel, self.offer, self.buf@, end) {
                None => self.conversion.answered_by(a, 0) && a.value is None,
                Some(d) => {
                    &&& self.conversion.answered_by(a, self.conversion.property)
                    &&& a.value matches Some((type_, bytes)) && type_ == self.conversion.type_ && bytes@ == (
                    if self.conversion.latin1 {
                        targets::utf8_lossy(d).map_values(|c: char| targets::latin1_byte(c))
                    } else {
                        d
                    })
                },
            },
    {
        if end != ReadEnd::Eof {
            return self.conversion.finish(None);
        }
        if self.buf.len() == 0 && !clipboard.is_current(self.sel, self.offer) {
            return self.conversion.finish(None);
        }
        self.conversion.finish(Some(self.buf))
    }

    /// Refuses a conversion whose transfer is dropped: whatever happens to it, the X
    /// client hears back.
    pub fn abandon(self) -> (a: Answer)
        ensures
            self.conversion.answered_by(a, 0),
            a.value is None,
    {
        self.conversion.refuse()
    }
}

/// Why a conversion is not started.
#[derive(Clone, Copy, PartialEq, Eq, Structural, Debug)]
pub enum Refusal {
    /// Either no Wayland app owns the selection any more, or a different one does: asking
    /// a new owner for a type resolved against the old one is refused by the compositor
    /// as an instant end, which would reach the requestor as a successful empty paste.
    NotOwner,
    /// Too many are reading at once.
    TooMany,
}

/// The offer that a conversion is to ask for its value.
pub fn start_receive(clipboard: &Clipboard, in_flight: usize, sel: Sel, generation: u64) -> (r: Result<
    DataOffer,
    Refusal,
>)
    ensures
        match clipboard@.sel(sel).owner {
            OwnerView::Wayland { offer, .. } if clipboard@.sel(sel).generation == generation => if in_flight
                >= MAX_PENDING_RECEIVES {
                r == Err::<DataOffer, Refusal>(Refusal::TooMany)
            } else {
                r == Ok::<DataOffer, Refusal>(offer)
            },
            _ => r == Err::<DataOffer, Refusal>(Refusal::NotOwner),
        },
{
    match clipboard.offer_at(sel, generation) {
        None => Err(Refusal::NotOwner),
        Some(offer) => {
            if in_flight >= MAX_PENDING_RECEIVES {
                Err(Refusal::TooMany)
            } else {
                Ok(offer)
            }
        },
    }
}

/// The protocol of the data-control device.
#[derive(Clone, Copy, PartialEq, Eq, Structural, Debug)]
pub enum Device {
    Ext,
    Wlr { version: u32 },
}

impl Device {
    /// Whether the device has the selection at all: a wlr device of the first version has
    /// no primary selection.
    pub fn carries(self, sel: Sel) -> (b: bool)
        ensures
            b == (self is Ext || sel == Sel::Clipboard || (self matches Device::Wlr { version } && version >= 2)),
    {
        match self {
            Device::Ext => true,
            Device::Wlr { version } => sel == Sel::Clipboard || version >= 2,
        }
    }
}

/// The device to make now, if any: ext is preferred, and replaces a wlr device there
/// is, which is then to be destroyed. Dropping it alone would leave the compositor
/// announcing every selection change on both devices.
pub fn try_init_device(current: Option<Device>, has_seat: bool, has_ext: bool, wlr: Option<u32>) -> (r: Option<Device>)
    ensures
        r == (if !has_seat || current == Some(Device::Ext) {
            None
        } else if has_ext {
            Some(Device::Ext)
        } else {
            match wlr {
                Some(version) if current is None => Some(Device::Wlr { version }),
                _ => None,
            }
        }),
{
    if let Some(Device::Ext) = current {
        return None;
    }
    if !has_seat {
        return None;
    }
    if has_ext {
        return Some(Device::Ext);
    }
    if current.is_some() {
        return None;
    }
    match wlr {
        Some(version) => Some(Device::Wlr { version }),
        None => None,
    }
}

/// The types of the offers that are not a selection yet.
pub struct OfferMimes {
    pub offers: Vec<(DataOffer, Vec<String>)>,
}

/// Offers and their types.
pub open spec fn offer_views(s: Seq<(DataOffer, Vec<String>)>) -> Seq<(DataOffer, Seq<Seq<char>>)> {
    Seq::new(s.len(), |i: int| (s[i].0, list::texts(s[i].1@)))
}

pub open spec fn offer_is(o: DataOffer) -> spec_fn((DataOffer, Seq<Seq<char>>)) -> bool {
    |e: (DataOffer, Seq<Seq<char>>)| e.0 == o
}

impl View for OfferMimes {
    type V = Seq<(DataOffer, Seq<Seq<char>>)>;

    open spec fn view(&self) -> Seq<(DataOffer, Seq<Seq<char>>)> {
        offer_views(self.offers@)
    }
}

impl OfferMimes {
    pub fn new() -> (m: Self)
        ensures
            m@.len() == 0,
    {
        OfferMimes { offers: Vec::new() }
    }

    fn find(&self, o: DataOffer) -> (r: Option<usize>)
        ensures
            match r {
                Some(i) => i < self.offers@.len() && list::first_index(self@, offer_is(o)) == Some(i as int),
                None => list::first_index(self@, offer_is(o)) is None,
            },
    {
        let mut i: usize = 0;
        while i < self.offers.len()
            invariant
                i <= self.offers.len(),
                forall|j: int| 0 <= j < i ==> !offer_is(o)(#[trigger] self@[j]),
            decreases self.offers.len() - i,
        {
            if self.offers[i].0 == o {
                proof {
                    list::lemma_first_index_is(self@, offer_is(o), i as int);
                }
                return Some(i);
            }
            i += 1;
        }
        proof {
            list::lemma_first_index_none(self@, offer_is(o));
        }
        None
    }

    /// The offer has this type too.
    pub fn offered(&mut self, o: DataOffer, mime: String)
        ensures
            final(self)@ == (match list::first_index(old(self)@, offer_is(o)) {
                Some(i) => old(self)@.update(i, (o, old(self)@[i].1.push(mime@))),
                None => old(self)@.push((o, seq![mime@])),
            }),
    {
        match self.find(o) {
            Some(i) => {
                proof {
                    list::lemma_first_index(self@, offer_is(o));
                }
                let ghost before = self.offers@[i as int].1@;
                self.offers[i].1.push(mime);
                assert(list::texts(self.offers@[i as int].1@) =~= list::texts(before).push(mime@));
                assert(self@ =~= old(self)@.update(i as int, (o, old(self)@[i as int].1.push(mime@))));
            },
            None => {
                let mut mimes: Vec<String> = Vec::new();
                mimes.push(mime);
                assert(list::texts(mimes@) =~= seq![mime@]);
                self.offers.push((o, mimes));
                assert(self@ =~= old(self)@.push((o, seq![mime@])));
            },
        }
    }

    /// Takes the types of an offer: none if it said none.
    pub fn take(&mut self, o: DataOffer) -> (mimes: Vec<String>)
        ensures
            match list::first_index(old(self)@, offer_is(o)) {
                Some(i) => list::texts(mimes@) == old(self)@[i].1 && final(self)@ == old(self)@.remove(i),
                None => mimes@.len() == 0 && final(self)@ == old(self)@,
            },
    {
        match self.find(o) {
            Some(i) => {
                let (_, mimes) = self.offers.remove(i);
                assert(self@ =~= old(self)@.remove(i as int));
                mimes
            },
            None => Vec::new(),
        }
    }
}

impl ServerView {
    /// A selection change has been recorded, and the X clients watching it know; with
    /// `-noprimary` one of PRIMARY is ignored. The offers are left to be destroyed.
    pub open spec fn selection_announced(self, sel: Sel, offer: Option<DataOffer>, mimes: Seq<Seq<char>>) -> (
        ServerView,
        Seq<DataOffer>,
    ) {
        if sel == Sel::Primary && self.config.noprimary {
            (
                self,
                match offer {
                    Some(o) => seq![o],
                    None => Seq::empty(),
                },
            )
        } else {
            let (clipboard, fx) = self.clipboard.on_announced(self.clock, sel, offer, mimes);
            let clock = if self.clipboard.sel(sel).is_echo(offer is Some, mimes) {
                self.clock
            } else {
                self.clock.noting(self.clipboard.next_timestamp(self.clock))
            };
            ServerView { clipboard, clock, ..self }.carrying(fx, sel)
        }
    }
}

impl Server {
    /// Records a selection change and notifies the X clients watching it. The compositor
    /// announces the source we published (and the one we withdrew) through here too,
    /// which the clipboard tells apart. Returns the offers that are left to be destroyed.
    pub fn update_selection(&mut self, sel: Sel, offer: Option<DataOffer>, mimes: Vec<String>) -> (destroy: Vec<DataOffer>)
        requires
            old(self).wf(),
        ensures
            final(self).wf(),
            final(self).framebuffer == old(self).framebuffer,
            (final(self)@, destroy@) == old(self)@.selection_announced(sel, offer, list::texts(mimes@)),
    {
        if sel == Sel::Primary && self.config.noprimary {
            let mut destroy: Vec<DataOffer> = Vec::new();
            if let Some(o) = offer {
                destroy.push(o);
            }
            assert(destroy@ =~= (match offer {
                Some(o) => seq![o],
                None => Seq::empty(),
            }));
            return destroy;
        }
        let fx = self.clipboard.wayland_announced(sel, offer, mimes, &mut self.clock);
        self.carry_out(fx, sel)
    }

    /// The compositor is gone: nothing will answer a resolution change or carry a
    /// clipboard job any more. What is queued is refused now, and what is posted later is
    /// refused on the spot, rather than leaving X requestors waiting for an answer
    /// forever. Returns the offers that are left to be destroyed.
    pub fn wayland_lost(&mut self) -> (destroy: Vec<DataOffer>)
        requires
            old(self).wf(),
        ensures
            final(self).wf(),
            final(self).framebuffer == old(self).framebuffer,
            final(self)@ == (ServerView {
                dynres: DynResView { available: false, ..old(self)@.dynres },
                clipboard: ClipboardView {
                    jobs: clipjobs::JobsView { queue: Seq::empty(), running: false },
                    ..old(self)@.clipboard
                },
                events: server::refused(old(self)@.events, old(self)@.clipboard.jobs.queue),
                ..old(self)@
            }),
            destroy@ == server::discarded(EffectsView::drops(old(self)@.clipboard.jobs.queue)),
    {
        self.dynres.set_available(false);
        let ghost before = self@;
        let jobs = self.clipboard.jobs_mut().set_running(false);
        assert(self@ =~= (ServerView {
            clipboard: ClipboardView {
                jobs: clipjobs::JobsView { queue: Seq::empty(), running: false },
                ..before.clipboard
            },
            ..before
        }));
        self.refuse(jobs)
    }
}

/// A conversion that is cut short is refused, however much of it has arrived.
pub proof fn law_no_truncated_values(c: ClipboardView, sel: Sel, offer: DataOffer, buf: Seq<u8>, end: ReadEnd)
    requires
        end != ReadEnd::Eof,
    ensures
        delivered(c, sel, offer, buf, end) is None,
{
}

/// A value goes out whole and in order, however little the pipe takes at a time: what has
/// been written is what comes before the offset, and with nothing left it is all of it.
pub proof fn law_sends_are_in_order(run: Seq<PendingSend>, counts: Seq<usize>)
    requires
        run.len() == counts.len() + 1,
        run[0].offset == 0,
        run[0].wf(),
        forall|i: int| 0 <= i < counts.len() ==> wrote(run[i], run[i + 1], #[trigger] counts[i]),
    ensures
        ({
            let last = run[counts.len() as int];
            &&& last.wf() && last.data@ == run[0].data@
            &&& piped(run, counts) == last.data@.take(last.offset as int)
            &&& last.offset == last.data@.len() ==> piped(run, counts) == run[0].data@
        }),
    decreases counts.len(),
{
    let n = counts.len() as int;
    let last = run[n];
    if n > 0 {
        let fewer = run.drop_last();
        assert forall|i: int| 0 <= i < counts.drop_last().len() implies wrote(
            fewer[i],
            fewer[i + 1],
            #[trigger] counts.drop_last()[i],
        ) by {
            assert(fewer[i] == run[i] && fewer[i + 1] == run[i + 1]);
            assert(counts.drop_last()[i] == counts[i]);
        }
        law_sends_are_in_order(fewer, counts.drop_last());
        lemma_piped_prefix(run, fewer, counts.drop_last());
        let s = run[n - 1];
        assert(wrote(s, last, counts[n - 1]));
        assert(fewer[n - 1] == s);
        assert(s.data@.take(s.offset as int) + s.data@.subrange(s.offset as int, s.offset + counts.last())
            =~= s.data@.take(last.offset as int));
    }
    assert(last.data@.take(last.data@.len() as int) =~= last.data@);
}

/// What was written does not depend on what came after.
proof fn lemma_piped_prefix(run: Seq<PendingSend>, fewer: Seq<PendingSend>, counts: Seq<usize>)
    requires
        counts.len() <= fewer.len() <= run.len(),
        forall|i: int| 0 <= i < fewer.len() ==> #[trigger] fewer[i] == run[i],
    ensures
        piped(run, counts) == piped(fewer, counts),
    decreases counts.len(),
{
    if counts.len() > 0 {
        lemma_piped_prefix(run, fewer, counts.drop_last());
        assert(fewer[counts.len() - 1] == run[counts.len() - 1]);
    }
}

/// What a conversion has of a value after a read.
pub open spec fn buffered(buf: Seq<u8>, read: Chunk) -> Seq<u8> {
    match read {
        Chunk::Bytes(b) => buf + b@,
        _ => buf,
    }
}

/// What a conversion has of a value after some reads.
pub open spec fn buffered_all(reads: Seq<Chunk>) -> Seq<u8>
    decreases reads.len(),
{
    if reads.len() == 0 {
        Seq::empty()
    } else {
        buffered(buffered_all(reads.drop_last()), reads.last())
    }
}

/// What a read brought.
pub open spec fn brought() -> spec_fn(Chunk) -> Seq<u8> {
    |c: Chunk|
        match c {
            Chunk::Bytes(b) => b@,
            _ => Seq::empty(),
        }
}

/// A value that ends cleanly is delivered whole: all that the reads brought, in order,
/// however they cut it up.
pub proof fn law_received_values_are_whole(c: ClipboardView, sel: Sel, offer: DataOffer, reads: Seq<Chunk>)
    requires
        buffered_all(reads).len() > 0,
    ensures
        delivered(c, sel, offer, buffered_all(reads), ReadEnd::Eof) == Some(reads.map_values(brought()).flatten()),
{
    lemma_reads_join(reads);
    reads.map_values(brought()).lemma_flatten_and_flatten_alt_are_equivalent();
}

proof fn lemma_reads_join(reads: Seq<Chunk>)
    ensures
        buffered_all(reads) == reads.map_values(brought()).flatten_alt(),
    decreases reads.len(),
{
    if reads.len() > 0 {
        lemma_reads_join(reads.drop_last());
        let all = reads.map_values(brought());
        assert(all.drop_last() =~= reads.drop_last().map_values(brought()));
        assert(all.last() == brought()(reads.last()));
        assert(buffered_all(reads) =~= all.drop_last().flatten_alt() + all.last());
    } else {
        assert(buffered_all(reads) =~= reads.map_values(brought()).flatten_alt());
    }
}

/// An empty selection is a value, but an offer that was replaced is not.
pub proof fn law_empty_values_need_their_offer(c: ClipboardView, sel: Sel, offer: DataOffer)
    ensures
        delivered(c, sel, offer, Seq::empty(), ReadEnd::Eof) is Some <==> (c.sel(sel).owner matches OwnerView::Wayland {
            offer: o,
            ..
        } && o == offer),
{
}

/// With `-noprimary` the primary selection is ignored entirely.
pub proof fn law_ignored_primary_changes_nothing(s: ServerView, offer: Option<DataOffer>, mimes: Seq<Seq<char>>)
    requires
        s.config.noprimary,
    ensures
        s.selection_announced(Sel::Primary, offer, mimes).0 == s,
{
}

} // verus!
