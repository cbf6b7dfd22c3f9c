//! One connection as the event side sees it: the outbound queue to its socket, and
//! what the client has asked to be notified about.

use crate::bridge::clipboard::SelectionEvent;
use crate::bridge::x11::wire;
use crate::util::list;
use vstd::prelude::*;

verus! {

/// How much may be queued for one client before it is given up on. A client that
/// stops reading (stopped, or wedged) only ever costs memory, up to this much,
/// rather than stalling capture and the clipboard for every other client. A
/// full-screen `GetImage` reply is tens of MB on a big screen, so this allows a few
/// of those in flight; a single write is never refused on its own, however large.
pub const MAX_QUEUED_BYTES: usize = 0x400_0000;

/// One XFixes selection registration: X keeps one per `(selection, client,
/// window)` with its own event mask, so a client watching from two windows is
/// told twice, and clearing one window's mask leaves the other's alone.
#[derive(Clone, Copy, PartialEq, Eq, Structural, Debug)]
pub struct SelReg {
    /// The selection watched, by its atom. Atoms are server-global, so this is
    /// the same number for every connection and for the event we send back.
    pub atom: u32,
    pub window: u32,
    pub mask: u32,
}

/// The code of an XFixes selection event.
pub open spec fn subtype_code(subtype: SelectionEvent) -> u8 {
    match subtype {
        SelectionEvent::SetSelectionOwner => 0,
        SelectionEvent::SelectionWindowDestroy => 1,
        SelectionEvent::SelectionClientClose => 2,
    }
}

pub fn code_of(subtype: SelectionEvent) -> (c: u8)
    ensures
        c == subtype_code(subtype),
{
    match subtype {
        SelectionEvent::SetSelectionOwner => 0,
        SelectionEvent::SelectionWindowDestroy => 1,
        SelectionEvent::SelectionClientClose => 2,
    }
}

/// The mask bit that lets a subtype through: the bits are numbered like the
/// subtypes.
pub open spec fn mask_bit(subtype: SelectionEvent) -> u32 {
    match subtype {
        SelectionEvent::SetSelectionOwner => 1,
        SelectionEvent::SelectionWindowDestroy => 2,
        SelectionEvent::SelectionClientClose => 4,
    }
}

/// The mask bit that lets `subtype` through.
pub fn mask_for(subtype: SelectionEvent) -> (m: u32)
    ensures
        m == mask_bit(subtype),
{
    match subtype {
        SelectionEvent::SetSelectionOwner => 1,
        SelectionEvent::SelectionWindowDestroy => 2,
        SelectionEvent::SelectionClientClose => 4,
    }
}

/// The mask bits are numbered like the subtypes.
pub proof fn law_mask_bits_are_numbered_like_the_subtypes(subtype: SelectionEvent)
    ensures
        mask_bit(subtype) == 1u32 << subtype_code(subtype),
{
    assert(1u32 << 0u8 == 1) by (bit_vector);
    assert(1u32 << 1u8 == 2) by (bit_vector);
    assert(1u32 << 2u8 == 4) by (bit_vector);
}

/// Nothing more goes out: the client is gone.
#[derive(Clone, Copy, PartialEq, Eq, Structural, Debug)]
pub struct BrokenPipe;

/// The outbound queue, plus the last 16-bit sequence stamped into it, and what the
/// client wants to hear of.
///
/// libxcb widens the wire sequence to 64-bit and assumes a wrap whenever it
/// appears to go *backwards*. An event carrying a sequence lower than a reply
/// already written would therefore be widened past the last request the client
/// sent, and libxcb aborts. So every write is stamped as it is queued, and sent in
/// that order.
pub struct Client {
    id: u64,
    queue: Vec<Vec<u8>>,
    bytes: usize,
    last_seq: u16,
    closed: bool,
    seq: u16,
    randr_window: u32,
    cursor_window: u32,
    selections: Vec<SelReg>,
    dead: bool,
    root_structure: bool,
}

/// What a client's state is.
#[verifier::ext_equal]
pub struct ClientView {
    /// The connection's number.
    pub id: u64,
    /// What waits to be written, oldest first.
    pub queue: Seq<Seq<u8>>,
    /// The last sequence number that was stamped.
    pub last_seq: u16,
    /// No more will be queued: the connection ended, or the client was dropped.
    pub closed: bool,
    /// The client's most recent request.
    pub seq: u16,
    /// The window selected for RandR ScreenChangeNotify, 0 if none.
    pub randr_window: u32,
    /// The window selected for XFixes cursor changes, 0 if none.
    pub cursor_window: u32,
    pub selections: Seq<SelReg>,
    pub dead: bool,
    /// Whether the client selected StructureNotify on the root window, and so wants
    /// a root ConfigureNotify on resize.
    pub root_structure: bool,
}

/// How many bytes are queued.
pub open spec fn total(q: Seq<Seq<u8>>) -> nat
    decreases q.len(),
{
    if q.len() == 0 {
        0
    } else {
        total(q.drop_last()) + q.last().len()
    }
}

proof fn lemma_total_first(q: Seq<Seq<u8>>)
    requires
        q.len() > 0,
    ensures
        total(q) == q[0].len() + total(q.drop_first()),
    decreases q.len(),
{
    if q.len() == 1 {
        assert(q.drop_last() =~= Seq::empty());
        assert(q.drop_first() =~= Seq::empty());
        assert(total(q.drop_last()) == 0);
        assert(total(q.drop_first()) == 0);
    } else {
        lemma_total_first(q.drop_last());
        assert(q.drop_last().drop_first() =~= q.drop_first().drop_last());
    }
}

/// Whether `seq` is behind `last` on the wrapping 16-bit counter.
pub open spec fn behind(seq: u16, last: u16) -> bool {
    (seq - last) % 0x1_0000 >= 0x8000
}

impl ClientView {
    /// A client of which nothing has been written.
    pub open spec fn fresh(id: u64) -> ClientView {
        ClientView {
            id,
            queue: Seq::empty(),
            last_seq: 0,
            closed: false,
            seq: 0,
            randr_window: 0,
            cursor_window: 0,
            selections: Seq::empty(),
            dead: false,
            root_structure: false,
        }
    }

    /// The sequence that is stamped for `seq`: it never goes back.
    pub open spec fn stamp(self, seq: u16) -> u16 {
        if behind(seq, self.last_seq) {
            self.last_seq
        } else {
            seq
        }
    }

    /// Whether what waits and `n` more bytes are more than a client is allowed. An
    /// empty queue takes any write.
    pub open spec fn overflows(self, n: int) -> bool {
        total(self.queue) > 0 && total(self.queue) + n > MAX_QUEUED_BYTES
    }

    /// With the bytes queued; a client that has fallen too far behind is dropped
    /// with what waited for it.
    pub open spec fn queued(self, b: Seq<u8>) -> ClientView {
        if self.closed {
            self
        } else if self.overflows(b.len() as int) {
            ClientView { queue: Seq::empty(), closed: true, dead: true, ..self }
        } else {
            ClientView { queue: self.queue.push(b), ..self }
        }
    }

    /// The bytes with the sequence in them.
    pub open spec fn stamped(b: Seq<u8>, seq: u16) -> Seq<u8> {
        b.take(2) + wire::le16(seq) + b.skip(4)
    }

    /// With a framed reply, error or event queued under a sequence.
    pub open spec fn sent(self, seq: u16, b: Seq<u8>) -> ClientView {
        let s = self.stamp(seq);
        ClientView { last_seq: s, ..self }.queued(Self::stamped(b, s))
    }

    /// With an event queued, under the client's most recent request.
    pub open spec fn notified(self, b: Seq<u8>) -> ClientView {
        self.sent(self.seq, b)
    }
}

impl View for Client {
    type V = ClientView;

    closed spec fn view(&self) -> ClientView {
        ClientView {
            id: self.id,
            queue: self.queue@.map_values(|b: Vec<u8>| b@),
            last_seq: self.last_seq,
            closed: self.closed,
            seq: self.seq,
            randr_window: self.randr_window,
            cursor_window: self.cursor_window,
            selections: self.selections@,
            dead: self.dead,
            root_structure: self.root_structure,
        }
    }
}

/// Registrations for the selection whose mask lets the subtype through.
pub open spec fn watching(atom: u32, subtype: SelectionEvent) -> spec_fn(SelReg) -> bool {
    |r: SelReg| r.atom == atom && r.mask & mask_bit(subtype) == mask_bit(subtype)
}

/// Registrations other than that of the selection and window.
pub open spec fn not_registration(atom: u32, window: u32) -> spec_fn(SelReg) -> bool {
    |r: SelReg| !(r.atom == atom && r.window == window)
}

/// The client with its event mask for a selection, from a window; an empty one drops the
/// registration.
pub open spec fn watching_from(atom: u32, window: u32, mask: u32) -> spec_fn(ClientView) -> ClientView {
    |c: ClientView|
        {
            let kept = list::only(c.selections, not_registration(atom, window));
            ClientView {
                selections: if mask != 0 {
                    kept.push(SelReg { atom, window, mask })
                } else {
                    kept
                },
                ..c
            }
        }
}

/// Registrations of other windows.
pub open spec fn not_window(window: u32) -> spec_fn(SelReg) -> bool {
    |r: SelReg| r.window != window
}

impl Client {
    /// The count of queued bytes is right.
    pub closed spec fn wf(self) -> bool {
        self.bytes == total(self@.queue)
    }

    pub fn new(id: u64) -> (c: Client)
        ensures
            c.wf(),
            c@ == ClientView::fresh(id),
    {
        let c = Client {
            id,
            queue: Vec::new(),
            bytes: 0,
            last_seq: 0,
            closed: false,
            seq: 0,
            randr_window: 0,
            cursor_window: 0,
            selections: Vec::new(),
            dead: false,
            root_structure: false,
        };
        assert(c@ =~= ClientView::fresh(id));
        c
    }

    /// Clamps `seq` so the wire sequence never decreases: if `seq` is behind
    /// the last one (within half the 16-bit range), that is used again.
    fn monotonic(&self, seq: u16) -> (s: u16)
        ensures
            s == self@.stamp(seq),
    {
        if seq.wrapping_sub(self.last_seq) < 0x8000 {
            seq
        } else {
            self.last_seq
        }
    }

    /// Queues `buf`, or drops the client if it has fallen too far behind.
    fn enqueue(&mut self, buf: Vec<u8>)
        requires
            old(self).wf(),
        ensures
            final(self).wf(),
            final(self)@ == old(self)@.queued(buf@),
    {
        let ghost c0 = self@;
        if self.closed {
            return ;
        }
        // an empty queue always takes the write: the cap is about a backlog,
        // and one oversize reply (a huge GetImage) is not one
        if self.bytes > 0 && (self.bytes > MAX_QUEUED_BYTES || buf.len() > MAX_QUEUED_BYTES - self.bytes) {
            self.dead = true;
            self.closed = true;
            self.queue = Vec::new();
            self.bytes = 0;
            assert(self@ =~= c0.queued(buf@));
            return ;
        }
        self.bytes = self.bytes + buf.len();
        let ghost b = buf@;
        let ghost q0 = self.queue@;
        self.queue.push(buf);
        assert(self@.queue =~= c0.queue.push(b));
        assert(self@.queue.drop_last() =~= c0.queue);
    }

    /// Takes what is next to be written, `None` if nothing waits. Once the queue is
    /// closed and empty, nothing will follow.
    pub fn next_write(&mut self) -> (r: Option<Vec<u8>>)
        requires
            old(self).wf(),
        ensures
            final(self).wf(),
            r is Some <==> old(self)@.queue.len() > 0,
            r matches Some(b) ==> b@ == old(self)@.queue[0] && final(self)@ == (ClientView {
                queue: old(self)@.queue.drop_first(),
                ..old(self)@
            }),
            r is None ==> final(self)@ == old(self)@,
    {
        let ghost c0 = self@;
        assert(c0.queue.len() == self.queue@.len());
        if self.queue.len() == 0 {
            return None;
        }
        proof {
            lemma_total_first(c0.queue);
        }
        let ghost q0 = self.queue@;
        let b = self.queue.remove(0);
        assert(c0.queue[0] == b@);
        self.bytes = self.bytes - b.len();
        assert(self@.queue =~= c0.queue.drop_first());
        Some(b)
    }

    /// Whether everything has been written and nothing will follow.
    pub fn drained(&self) -> (b: bool)
        ensures
            b == (self@.closed && self@.queue.len() == 0),
    {
        assert(self@.queue.len() == self.queue@.len());
        self.closed && self.queue.len() == 0
    }

    /// Marks the client dead and discards anything still queued: a write to it
    /// failed.
    pub fn drop_client(&mut self)
        requires
            old(self).wf(),
        ensures
            final(self).wf(),
            final(self)@ == (ClientView { queue: Seq::empty(), closed: true, dead: true, ..old(self)@ }),
    {
        self.dead = true;
        self.closed = true;
        self.queue = Vec::new();
        self.bytes = 0;
        assert(self@.queue =~= Seq::empty());
    }

    /// Ends the queue once the connection is done: whatever is queued still
    /// goes out, and nothing after it.
    pub fn close(&mut self)
        requires
            old(self).wf(),
        ensures
            final(self).wf(),
            final(self)@ == (ClientView { closed: true, dead: true, ..old(self)@ }),
    {
        self.dead = true;
        self.closed = true;
    }

    fn check_open(&self) -> (r: Result<(), BrokenPipe>)
        ensures
            r is Err <==> self@.closed,
    {
        if self.closed {
            Err(BrokenPipe)
        } else {
            Ok(())
        }
    }

    /// Queues the connection-setup bytes, the only write with no sequence.
    pub fn write_setup(&mut self, bytes: Vec<u8>) -> (r: Result<(), BrokenPipe>)
        requires
            old(self).wf(),
        ensures
            final(self).wf(),
            final(self)@ == old(self)@.queued(bytes@),
            r is Err <==> final(self)@.closed,
    {
        self.enqueue(bytes);
        self.check_open()
    }

    /// Puts `seq` at `[2..4]` and queues the bytes.
    fn stamp_and_queue(&mut self, seq: u16, buf: Vec<u8>)
        requires
            old(self).wf(),
            buf@.len() >= 4,
        ensures
            final(self).wf(),
            final(self)@ == old(self)@.sent(seq, buf@),
    {
        let ghost b0 = buf@;
        let ghost c0 = self@;
        let s: u16 = self.monotonic(seq);
        let mut buf = buf;
        buf[2] = (s % 256) as u8;
        buf[3] = (s / 256) as u8;
        assert(buf@ =~= ClientView::stamped(b0, s));
        self.last_seq = s;
        assert(self@ =~= (ClientView { last_seq: s, ..c0 }));
        self.enqueue(buf);
    }

    /// Queues a framed reply or error, stamping `seq` (clamped monotonic) into
    /// its sequence field at `[2..4]`. Fails once the client is gone, which is
    /// the connection's cue to stop.
    pub fn send_reply(&mut self, seq: u16, buf: Vec<u8>) -> (r: Result<(), BrokenPipe>)
        requires
            old(self).wf(),
            buf@.len() >= 4,
        ensures
            final(self).wf(),
            final(self)@ == old(self)@.sent(seq, buf@),
            r is Err <==> final(self)@.closed,
    {
        self.stamp_and_queue(seq, buf);
        self.check_open()
    }

    /// Queues a server-initiated event, stamping the client's current request
    /// sequence.
    pub fn send_event_bytes(&mut self, buf: Vec<u8>)
        requires
            old(self).wf(),
            buf@.len() >= 4,
        ensures
            final(self).wf(),
            final(self)@ == old(self)@.notified(buf@),
    {
        let seq: u16 = self.seq;
        self.stamp_and_queue(seq, buf);
    }

    pub fn id(&self) -> (id: u64)
        ensures
            id == self@.id,
    {
        self.id
    }

    pub fn set_seq(&mut self, seq: u16)
        requires
            old(self).wf(),
        ensures
            final(self).wf(),
            final(self)@ == (ClientView { seq, ..old(self)@ }),
    {
        self.seq = seq;
    }

    pub fn seq(&self) -> (s: u16)
        ensures
            s == self@.seq,
    {
        self.seq
    }

    pub fn mark_dead(&mut self)
        requires
            old(self).wf(),
        ensures
            final(self).wf(),
            final(self)@ == (ClientView { dead: true, ..old(self)@ }),
    {
        self.dead = true;
    }

    pub fn is_dead(&self) -> (b: bool)
        ensures
            b == self@.dead,
    {
        self.dead
    }

    pub fn select_randr(&mut self, window: u32)
        requires
            old(self).wf(),
        ensures
            final(self).wf(),
            final(self)@ == (ClientView { randr_window: window, ..old(self)@ }),
    {
        self.randr_window = window;
    }

    pub fn select_cursor(&mut self, window: u32)
        requires
            old(self).wf(),
        ensures
            final(self).wf(),
            final(self)@ == (ClientView { cursor_window: window, ..old(self)@ }),
    {
        self.cursor_window = window;
    }

    pub fn select_root_structure(&mut self, enable: bool)
        requires
            old(self).wf(),
        ensures
            final(self).wf(),
            final(self)@ == (ClientView { root_structure: enable, ..old(self)@ }),
    {
        self.root_structure = enable;
    }

    pub fn randr_window(&self) -> (w: u32)
        ensures
            w == self@.randr_window,
    {
        self.randr_window
    }

    pub fn cursor_window(&self) -> (w: u32)
        ensures
            w == self@.cursor_window,
    {
        self.cursor_window
    }

    pub fn wants_root_structure(&self) -> (b: bool)
        ensures
            b == self@.root_structure,
    {
        self.root_structure
    }

    /// Sets the XFixes selection event mask for `window` on the selection
    /// `atom`; an empty mask drops that registration and no other.
    pub fn select_selection(&mut self, atom: u32, window: u32, mask: u32)
        requires
            old(self).wf(),
        ensures
            final(self).wf(),
            final(self)@ == watching_from(atom, window, mask)(old(self)@),
    {
        self.keep(atom, window, false);
        if mask != 0 {
            self.selections.push(SelReg { atom, window, mask });
        }
    }

    /// Drops every registration made from `window`, which was destroyed.
    pub fn forget_window(&mut self, window: u32)
        requires
            old(self).wf(),
        ensures
            final(self).wf(),
            final(self)@ == (ClientView {
                selections: list::only(old(self)@.selections, not_window(window)),
                ..old(self)@
            }),
    {
        self.keep(0, window, true);
    }

    /// Drops the registrations of `window`: for all selections, or for `atom` alone.
    fn keep(&mut self, atom: u32, window: u32, all: bool)
        requires
            old(self).wf(),
        ensures
            final(self).wf(),
            final(self)@ == (ClientView {
                selections: list::only(
                    old(self)@.selections,
                    if all {
                        not_window(window)
                    } else {
                        not_registration(atom, window)
                    },
                ),
                ..old(self)@
            }),
    {
        let ghost p = if all { not_window(window) } else { not_registration(atom, window) };
        let mut keep: Vec<bool> = Vec::new();
        let mut i: usize = 0;
        while i < self.selections.len()
            invariant
                i <= self.selections.len(),
                keep@.len() == i,
                p == if all {
                    not_window(window)
                } else {
                    not_registration(atom, window)
                },
                forall|j: int| 0 <= j < i ==> #[trigger] keep@[j] == p(self.selections@[j]),
            decreases self.selections.len() - i,
        {
            let r = self.selections[i];
            keep.push(if all { r.window != window } else { !(r.atom == atom && r.window == window) });
            i += 1;
        }
        let ghost s0 = self.selections@;
        let ghost id = |r: SelReg| r;
        list::retain(&mut self.selections, &keep);
        proof {
            list::lemma_kept_is_only(s0, id, keep@, p);
            assert(list::kept(s0, keep@).map_values(id) =~= list::kept(s0, keep@));
            assert(s0.map_values(id) =~= s0);
        }
    }

    /// The `(window, atom)` of each registration for the selection `atom`
    /// whose mask lets `subtype` through.
    pub fn selections_for(&self, atom: u32, subtype: SelectionEvent) -> (v: Vec<(u32, u32)>)
        ensures
            v@ == list::only(self@.selections, watching(atom, subtype)).map_values(|r: SelReg| (r.window, r.atom)),
    {
        let ghost f = |r: SelReg| (r.window, r.atom);
        let ghost p = watching(atom, subtype);
        let ghost s = self@.selections;
        let bit: u32 = mask_for(subtype);
        let mut v: Vec<(u32, u32)> = Vec::new();
        let mut i: usize = 0;
        assert(s.take(0) =~= Seq::empty());
        assert(v@ =~= list::only(s.take(0), p).map_values(f));
        while i < self.selections.len()
            invariant
                i <= self.selections.len(),
                s == self.selections@,
                p == watching(atom, subtype),
                f == (|r: SelReg| (r.window, r.atom)),
                bit == mask_bit(subtype),
                v@ == list::only(s.take(i as int), p).map_values(f),
            decreases self.selections.len() - i,
        {
            let r = self.selections[i];
            assert(s.take(i as int + 1).drop_last() =~= s.take(i as int));
            if r.atom == atom && r.mask & bit == bit {
                v.push((r.window, r.atom));
                assert(v@ =~= list::only(s.take(i as int), p).push(r).map_values(f));
            }
            i += 1;
        }
        assert(s.take(i as int) =~= s);
        v
    }
}

/// The wire sequence never goes backwards, whatever is sent.
pub proof fn law_wire_sequence_never_decreases(c: ClientView, seq: u16, b: Seq<u8>)
    ensures
        !behind(c.sent(seq, b).last_seq, c.last_seq),
        c.sent(seq, b).queue.len() > c.queue.len() ==> c.sent(seq, b).queue.last() == ClientView::stamped(
            b,
            c.sent(seq, b).last_seq,
        ),
{
}

/// Writes go out in the order in which they were queued.
pub proof fn law_writes_keep_their_order(c: ClientView, seq: u16, b: Seq<u8>, i: int)
    requires
        0 <= i < c.queue.len(),
        !c.sent(seq, b).dead,
    ensures
        i < c.sent(seq, b).queue.len(),
        c.sent(seq, b).queue[i] == c.queue[i],
{
}

/// A backlog is bounded: a queue with more than one write in it never holds more
/// than the cap.
pub proof fn law_backlog_is_bounded(c: ClientView, b: Seq<u8>)
    requires
        total(c.queue) <= MAX_QUEUED_BYTES,
    ensures
        total(c.queued(b).queue) <= MAX_QUEUED_BYTES || total(c.queue) == 0,
{
    assert(c.queue.push(b).drop_last() =~= c.queue);
}

/// Once closed, a client takes nothing more.
pub proof fn law_closed_clients_take_nothing(c: ClientView, b: Seq<u8>)
    requires
        c.closed,
    ensures
        c.queued(b) == c,
{
}

/// Clearing one window's mask leaves every other registration alone.
pub proof fn law_registrations_are_apart(s: Seq<SelReg>, atom: u32, window: u32, r: SelReg)
    requires
        !(r.atom == atom && r.window == window),
    ensures
        list::only(s, not_registration(atom, window)).contains(r) <==> s.contains(r),
{
    list::lemma_only_holds(s, not_registration(atom, window));
}

/// A number that is less than half the 16 bits ahead of the last one on the wire goes out as
/// it is; any other is behind it, and goes out as the last one did. What is written into a
/// message is that number, and nothing else of it changes.
pub proof fn law_numbers_go_out_in_order(c: ClientView, seq: u16, b: Seq<u8>, d: int, i: int)
    requires
        0 <= d < 0x1_0000,
        seq == (c.last_seq + d) % 0x1_0000,
        b.len() >= 4,
        0 <= i < b.len(),
    ensures
        d < 0x8000 ==> c.stamp(seq) == seq,
        d >= 0x8000 ==> c.stamp(seq) == c.last_seq,
        ClientView::stamped(b, seq).len() == b.len(),
        wire::u16_at(ClientView::stamped(b, seq), 2) == seq,
        i < 2 || i >= 4 ==> ClientView::stamped(b, seq)[i] == b[i],
{
    let s = ClientView::stamped(b, seq);
    assert(s.subrange(2, 4) =~= wire::le16(seq));
    wire::lemma_reads_16(s, 2, seq);
}

} // verus!
