//! Who is told what: the events that go to every client that asked for them.

use crate::bridge::clipboard::{Notify, SelectionEvent};
use crate::bridge::event::body;
use crate::bridge::event::client;
use crate::bridge::event::client::{BrokenPipe, Client, ClientView, SelReg};
use crate::bridge::event::time;
use crate::bridge::event::time::Clock;
use crate::bridge::x11::ext::{RANDR_FIRST_EVENT, XFIXES_FIRST_EVENT};
use crate::bridge::x11::ROOT_WINDOW;
use crate::util::geometry;
use crate::bridge::x11::wire;
use crate::util::list;
use vstd::prelude::*;

verus! {

/// The clients that are connected, or that still have something to be written.
pub struct EventSink {
    clients: Vec<Client>,
}

impl View for EventSink {
    type V = Seq<ClientView>;

    closed spec fn view(&self) -> Seq<ClientView> {
        self.clients@.map_values(|c: Client| c@)
    }
}

/// A client that is dead and has nothing left to be written is forgotten.
pub open spec fn remembered() -> spec_fn(ClientView) -> bool {
    |c: ClientView| !(c.dead && c.closed && c.queue.len() == 0)
}

/// The clients that are remembered.
pub open spec fn swept(s: Seq<ClientView>) -> Seq<ClientView> {
    list::only(s, remembered())
}

/// The client with the number.
pub open spec fn numbered(id: u64) -> spec_fn(ClientView) -> bool {
    |c: ClientView| c.id == id
}

/// `f` of every client that is connected.
pub open spec fn each_live(s: Seq<ClientView>, f: spec_fn(ClientView) -> ClientView) -> Seq<ClientView> {
    swept(s).map_values(
        |c: ClientView|
            if c.dead {
                c
            } else {
                f(c)
            },
    )
}

/// The client hears that the screen changed: RRScreenChangeNotify if it selected
/// RandR input, and a root ConfigureNotify if it selected StructureNotify on the
/// root.
pub open spec fn hears_screen(width: u16, height: u16, timestamp: u32, config_timestamp: u32) -> spec_fn(
    ClientView,
) -> ClientView {
    |c: ClientView|
        {
            let a = if c.randr_window != 0 {
                c.notified(
                    body::screen_change_bytes(
                        RANDR_FIRST_EVENT,
                        timestamp,
                        config_timestamp,
                        ROOT_WINDOW,
                        c.randr_window,
                        width,
                        height,
                        (width * 254 / 960) as u16,
                        (height * 254 / 960) as u16,
                    ),
                )
            } else {
                c
            };
            if a.root_structure {
                a.notified(body::configure_notify_bytes(ROOT_WINDOW, width, height))
            } else {
                a
            }
        }
}

/// The client hears of the cursor if it called SelectCursorInput.
pub open spec fn hears_cursor(serial: u32, timestamp: u32) -> spec_fn(ClientView) -> ClientView {
    |c: ClientView|
        if c.cursor_window != 0 {
            c.notified(
                body::cursor_changed_bytes((XFIXES_FIRST_EVENT + 1) as u8, c.cursor_window, serial, timestamp),
            )
        } else {
            c
        }
}

/// The client hears that both keyboard tables changed. MappingNotify is unmaskable.
pub open spec fn hears_mapping(first_keycode: u8, count: u8) -> spec_fn(ClientView) -> ClientView {
    |c: ClientView|
        c.notified(body::mapping_notify_bytes(1, first_keycode, count)).notified(
            body::mapping_notify_bytes(0, first_keycode, count),
        )
}

/// One XFixesSelectionNotify for each registration.
pub open spec fn told(c: ClientView, regs: Seq<(u32, u32)>, n: Notify) -> ClientView
    decreases regs.len(),
{
    if regs.len() == 0 {
        c
    } else {
        told(c, regs.drop_last(), n).notified(
            body::owner_changed_bytes(
                XFIXES_FIRST_EVENT,
                client::subtype_code(n.subtype),
                regs.last().0,
                n.owner,
                regs.last().1,
                n.timestamp,
                n.selection_timestamp,
            ),
        )
    }
}

/// The `(window, atom)` of the registrations that hear of it.
pub open spec fn hearing(c: ClientView, atom: u32, subtype: SelectionEvent) -> Seq<(u32, u32)> {
    list::only(c.selections, client::watching(atom, subtype)).map_values(|r: SelReg| (r.window, r.atom))
}

/// The client hears of a selection's owner, once per registration.
pub open spec fn hears_selection(atom: u32, n: Notify) -> spec_fn(ClientView) -> ClientView {
    |c: ClientView| told(c, hearing(c, atom, n.subtype), n)
}

/// XFixesSelectionNotify to one client, for each `(window, atom)` it registered.
pub fn selection_notify(c: &mut Client, regs: &Vec<(u32, u32)>, n: Notify)
    requires
        old(c).wf(),
    ensures
        final(c).wf(),
        final(c)@ == told(old(c)@, regs@, n),
{
    let ghost c0 = c@;
    let mut i: usize = 0;
    assert(regs@.take(0) =~= Seq::empty());
    while i < regs.len()
        invariant
            i <= regs.len(),
            c.wf(),
            c@ == told(c0, regs@.take(i as int), n),
        decreases regs.len() - i,
    {
        assert(regs@.take(i as int + 1).drop_last() =~= regs@.take(i as int));
        let (window, atom) = regs[i];
        c.send_event_bytes(
            body::owner_changed(
                XFIXES_FIRST_EVENT,
                client::code_of(n.subtype),
                window,
                n.owner,
                atom,
                n.timestamp,
                n.selection_timestamp,
            ),
        );
        i += 1;
    }
    assert(regs@.take(i as int) =~= regs@);
}

impl Default for EventSink {
    fn default() -> (s: Self)
        ensures
            s.wf(),
            s@ == Seq::<ClientView>::empty(),
    {
        let s = EventSink { clients: Vec::new() };
        assert(s@ =~= Seq::empty());
        s
    }
}

impl EventSink {
    pub closed spec fn wf(self) -> bool {
        forall|i: int| 0 <= i < self.clients@.len() ==> (#[trigger] self.clients@[i]).wf()
    }

    /// Forgets the clients that are gone.
    fn sweep(&mut self)
        requires
            old(self).wf(),
        ensures
            final(self).wf(),
            final(self)@ == swept(old(self)@),
    {
        let mut keep: Vec<bool> = Vec::new();
        let mut i: usize = 0;
        while i < self.clients.len()
            invariant
                i <= self.clients.len(),
                keep@.len() == i,
                forall|j: int| 0 <= j < i ==> #[trigger] keep@[j] == remembered()(self.clients@[j]@),
            decreases self.clients.len() - i,
        {
            keep.push(!(self.clients[i].is_dead() && self.clients[i].drained()));
            i += 1;
        }
        let ghost c0 = self.clients@;
        list::retain(&mut self.clients, &keep);
        proof {
            list::lemma_kept_is_only(c0, |c: Client| c@, keep@, remembered());
            lemma_kept_wf(c0, keep@);
        }
    }

    /// Adds a client. The list is bounded by the connections that overlap in time
    /// rather than by every connection there has ever been.
    pub fn register(&mut self, client: Client)
        requires
            old(self).wf(),
            client.wf(),
        ensures
            final(self).wf(),
            final(self)@ == swept(old(self)@).push(client@),
    {
        self.sweep();
        let ghost s0 = self@;
        let ghost cv = client@;
        self.clients.push(client);
        assert(self@ =~= s0.push(cv));
    }

    /// The index of the client with the number.
    fn index(&self, id: u64) -> (r: Option<usize>)
        ensures
            r matches Some(i) ==> list::first_index(self@, numbered(id)) == Some(i as int) && i < self.clients@.len(),
            r is None ==> list::first_index(self@, numbered(id)) is None,
    {
        let mut i: usize = 0;
        while i < self.clients.len()
            invariant
                i <= self.clients.len(),
                forall|j: int| 0 <= j < i ==> !numbered(id)(#[trigger] self@[j]),
            decreases self.clients.len() - i,
        {
            if self.clients[i].id() == id {
                proof {
                    list::lemma_first_index_is(self@, numbered(id), i as int);
                }
                return Some(i);
            }
            i += 1;
        }
        proof {
            list::lemma_first_index_none(self@, numbered(id));
        }
        None
    }

    /// Whether the client is gone: dead, or not known.
    pub fn is_gone(&self, id: u64) -> (b: bool)
        ensures
            b == gone(self@, id),
    {
        match self.index(id) {
            Some(i) => {
                assert(self@[i as int] == self.clients@[i as int]@);
                self.clients[i].is_dead()
            },
            None => true,
        }
    }

    /// The client with the number, if it is known.
    pub fn client_mut(&mut self, id: u64) -> (r: Option<&mut Client>)
        requires
            old(self).wf(),
        ensures
            r is Some == list::first_index(old(self)@, numbered(id)) is Some,
            r matches Some(c) ==> ({
                let i = list::first_index(old(self)@, numbered(id))->0;
                &&& c.wf()
                &&& c@ == old(self)@[i]
                &&& final(c).wf() ==> final(self).wf()
                &&& final(self)@ == old(self)@.update(i, final(c)@)
            }),
            r is None ==> *final(self) == *old(self),
    {
        match self.index(id) {
            Some(i) => Some(&mut self.clients[i]),
            None => None,
        }
    }

    /// Queues an event for one client, if it is known.
    pub fn send(&mut self, id: u64, event: Vec<u8>)
        requires
            old(self).wf(),
            event@.len() >= 4,
        ensures
            final(self).wf(),
            final(self)@ == sent_to(old(self)@, id, event@),
    {
        let ghost s0 = self@;
        match self.client_mut(id) {
            Some(c) => {
                c.send_event_bytes(event);
            },
            None => {},
        }
    }

    /// Queues a framed reply or error for one client. Fails once the client is gone.
    pub fn reply(&mut self, id: u64, seq: u16, buf: Vec<u8>) -> (r: Result<(), BrokenPipe>)
        requires
            old(self).wf(),
            buf@.len() >= 4,
        ensures
            final(self).wf(),
            final(self)@ == replied_to(old(self)@, id, seq, buf@),
            r is Err <==> stopped(final(self)@, id),
    {
        let ghost s0 = self@;
        let ghost b0 = buf@;
        let r = match self.client_mut(id) {
            Some(c) => c.send_reply(seq, buf),
            None => Err(BrokenPipe),
        };
        proof {
            if let Some(i) = list::first_index(s0, numbered(id)) {
                list::lemma_first_index(s0, numbered(id));
                assert(self@ =~= replied_to(s0, id, seq, b0));
                assert forall|j: int| 0 <= j < i implies !numbered(id)(#[trigger] self@[j]) by {
                    assert(self@[j] == s0[j]);
                }
                list::lemma_first_index_is(self@, numbered(id), i);
            }
        }
        r
    }

    /// XFixesSelectionNotify to one client, if it watches the selection `atom` for it.
    pub fn tell(&mut self, id: u64, atom: u32, notify: Notify)
        requires
            old(self).wf(),
        ensures
            final(self).wf(),
            final(self)@ == with_client(old(self)@, id, hears_selection(atom, notify)),
    {
        match self.client_mut(id) {
            Some(c) => {
                let regs = c.selections_for(atom, notify.subtype);
                selection_notify(c, &regs, notify);
            },
            None => {},
        }
    }

    /// RRScreenChangeNotify to clients that selected RandR input, and a root
    /// ConfigureNotify to those that selected StructureNotify on the root.
    pub fn screen_changed(&mut self, width: u16, height: u16, timestamp: u32, config_timestamp: u32)
        requires
            old(self).wf(),
        ensures
            final(self).wf(),
            final(self)@ == each_live(old(self)@, hears_screen(width, height, timestamp, config_timestamp)),
    {
        self.sweep();
        let ghost s0 = self@;
        let ghost f = hears_screen(width, height, timestamp, config_timestamp);
        let n: usize = self.clients.len();
        let mut i: usize = 0;
        while i < n
            invariant
                i <= n,
                n == self.clients@.len(),
                self.wf(),
                s0.len() == n,
                f == hears_screen(width, height, timestamp, config_timestamp),
                forall|j: int| 0 <= j < i ==> #[trigger] self@[j] == (if s0[j].dead { s0[j] } else { f(s0[j]) }),
                forall|j: int| i <= j < n ==> #[trigger] self@[j] == s0[j],
            decreases n - i,
        {
            let ghost before = self@;
            assert(before[i as int] == s0[i as int]);
            let c = &mut self.clients[i];
            if !c.is_dead() {
                let window: u32 = c.randr_window();
                if window != 0 {
                    c.send_event_bytes(
                        body::screen_change(
                            RANDR_FIRST_EVENT,
                            timestamp,
                            config_timestamp,
                            ROOT_WINDOW,
                            window,
                            width,
                            height,
                            geometry::mm(width) as u16,
                            geometry::mm(height) as u16,
                        ),
                    );
                }
                if c.wants_root_structure() {
                    // StructureNotify on root, so event == window == root
                    c.send_event_bytes(body::configure_notify(ROOT_WINDOW, width, height));
                }
            }
            assert(self@ =~= before.update(i as int, if s0[i as int].dead { s0[i as int] } else { f(s0[i as int]) }));
            i += 1;
        }
        assert(self@ =~= s0.map_values(|c: ClientView| if c.dead { c } else { f(c) }));
    }

    /// XFixesCursorNotify to clients that called SelectCursorInput.
    pub fn cursor_changed(&mut self, serial: u32, clock: &Clock)
        requires
            old(self).wf(),
        ensures
            final(self).wf(),
            final(self)@ == each_live(old(self)@, hears_cursor(serial, clock.now())),
    {
        let timestamp: u32 = time::server_time_ms(clock);
        self.sweep();
        let ghost s0 = self@;
        let ghost f = hears_cursor(serial, timestamp);
        let n: usize = self.clients.len();
        let mut i: usize = 0;
        while i < n
            invariant
                i <= n,
                n == self.clients@.len(),
                self.wf(),
                s0.len() == n,
                f == hears_cursor(serial, timestamp),
                forall|j: int| 0 <= j < i ==> #[trigger] self@[j] == (if s0[j].dead { s0[j] } else { f(s0[j]) }),
                forall|j: int| i <= j < n ==> #[trigger] self@[j] == s0[j],
            decreases n - i,
        {
            let ghost before = self@;
            assert(before[i as int] == s0[i as int]);
            let c = &mut self.clients[i];
            let window: u32 = c.cursor_window();
            if !c.is_dead() && window != 0 {
                c.send_event_bytes(body::cursor_changed(XFIXES_FIRST_EVENT + 1, window, serial, timestamp));
            }
            assert(self@ =~= before.update(i as int, if s0[i as int].dead { s0[i as int] } else { f(s0[i as int]) }));
            i += 1;
        }
        assert(self@ =~= s0.map_values(|c: ClientView| if c.dead { c } else { f(c) }));
    }

    /// XFixesSelectionNotify to every client watching the selection `atom` for it.
    pub fn selection_changed(&mut self, atom: u32, notify: Notify)
        requires
            old(self).wf(),
        ensures
            final(self).wf(),
            final(self)@ == each_live(old(self)@, hears_selection(atom, notify)),
    {
        self.sweep();
        let ghost s0 = self@;
        let ghost f = hears_selection(atom, notify);
        let n: usize = self.clients.len();
        let mut i: usize = 0;
        while i < n
            invariant
                i <= n,
                n == self.clients@.len(),
                self.wf(),
                s0.len() == n,
                f == hears_selection(atom, notify),
                forall|j: int| 0 <= j < i ==> #[trigger] self@[j] == (if s0[j].dead { s0[j] } else { f(s0[j]) }),
                forall|j: int| i <= j < n ==> #[trigger] self@[j] == s0[j],
            decreases n - i,
        {
            let ghost before = self@;
            assert(before[i as int] == s0[i as int]);
            let c = &mut self.clients[i];
            if !c.is_dead() {
                let regs = c.selections_for(atom, notify.subtype);
                selection_notify(c, &regs, notify);
            }
            assert(self@ =~= before.update(i as int, if s0[i as int].dead { s0[i as int] } else { f(s0[i as int]) }));
            i += 1;
        }
        assert(self@ =~= s0.map_values(|c: ClientView| if c.dead { c } else { f(c) }));
    }

    /// MappingNotify(Keyboard) and MappingNotify(Modifier) to every client, so
    /// they re-read both tables. Without it a compositor layout switch leaves clients
    /// with a stale keycode->keysym table, typing the wrong characters.
    pub fn keyboard_mapping_changed(&mut self, first_keycode: u8, count: u8)
        requires
            old(self).wf(),
        ensures
            final(self).wf(),
            final(self)@ == each_live(old(self)@, hears_mapping(first_keycode, count)),
    {
        self.sweep();
        let ghost s0 = self@;
        let ghost f = hears_mapping(first_keycode, count);
        let n: usize = self.clients.len();
        let mut i: usize = 0;
        while i < n
            invariant
                i <= n,
                n == self.clients@.len(),
                self.wf(),
                s0.len() == n,
                f == hears_mapping(first_keycode, count),
                forall|j: int| 0 <= j < i ==> #[trigger] self@[j] == (if s0[j].dead { s0[j] } else { f(s0[j]) }),
                forall|j: int| i <= j < n ==> #[trigger] self@[j] == s0[j],
            decreases n - i,
        {
            let ghost before = self@;
            assert(before[i as int] == s0[i as int]);
            let c = &mut self.clients[i];
            if !c.is_dead() {
                c.send_event_bytes(body::mapping_notify(1, first_keycode, count));
                c.send_event_bytes(body::mapping_notify(0, first_keycode, count));
            }
            assert(self@ =~= before.update(i as int, if s0[i as int].dead { s0[i as int] } else { f(s0[i as int]) }));
            i += 1;
        }
        assert(self@ =~= s0.map_values(|c: ClientView| if c.dead { c } else { f(c) }));
    }
}

/// The client is dead, or not known.
pub open spec fn gone(s: Seq<ClientView>, id: u64) -> bool {
    match list::first_index(s, numbered(id)) {
        Some(i) => s[i].dead,
        None => true,
    }
}

/// With an event queued for one client.
pub open spec fn sent_to(s: Seq<ClientView>, id: u64, event: Seq<u8>) -> Seq<ClientView> {
    match list::first_index(s, numbered(id)) {
        Some(i) => s.update(i, s[i].notified(event)),
        None => s,
    }
}

/// With a framed reply or error queued for one client.
pub open spec fn replied_to(s: Seq<ClientView>, id: u64, seq: u16, b: Seq<u8>) -> Seq<ClientView> {
    match list::first_index(s, numbered(id)) {
        Some(i) => s.update(i, s[i].sent(seq, b)),
        None => s,
    }
}

/// Nothing more goes out to the client.
pub open spec fn stopped(s: Seq<ClientView>, id: u64) -> bool {
    match list::first_index(s, numbered(id)) {
        Some(i) => s[i].closed,
        None => true,
    }
}

/// With one client changed.
pub open spec fn with_client(s: Seq<ClientView>, id: u64, f: spec_fn(ClientView) -> ClientView) -> Seq<ClientView> {
    match list::first_index(s, numbered(id)) {
        Some(i) => s.update(i, f(s[i])),
        None => s,
    }
}

proof fn lemma_kept_wf(s: Seq<Client>, keep: Seq<bool>)
    requires
        forall|i: int| 0 <= i < s.len() ==> (#[trigger] s[i]).wf(),
    ensures
        forall|i: int| 0 <= i < list::kept(s, keep).len() ==> (#[trigger] list::kept(s, keep)[i]).wf(),
    decreases s.len(),
{
    if s.len() > 0 {
        let r = s.drop_last();
        assert forall|i: int| 0 <= i < r.len() implies (#[trigger] r[i]).wf() by {
            assert(r[i] == s[i]);
        }
        lemma_kept_wf(r, keep);
        assert(s[s.len() - 1].wf());
        let k = list::kept(r, keep);
        assert forall|i: int| 0 <= i < list::kept(s, keep).len() implies (#[trigger] list::kept(s, keep)[i]).wf() by {
            if i < k.len() {
                assert(list::kept(s, keep)[i] == k[i]);
            }
        }
    }
}

/// A dead client hears nothing.
pub proof fn law_dead_clients_hear_nothing(s: Seq<ClientView>, f: spec_fn(ClientView) -> ClientView, i: int)
    requires
        0 <= i < swept(s).len(),
        swept(s)[i].dead,
    ensures
        each_live(s, f)[i] == swept(s)[i],
{
}

/// Both windows of a client that watches a selection from two are told.
pub proof fn law_every_registration_is_told(c: ClientView, atom: u32, n: Notify, r: SelReg)
    requires
        c.selections.contains(r),
        client::watching(atom, n.subtype)(r),
    ensures
        hearing(c, atom, n.subtype).contains((r.window, r.atom)),
{
    let p = client::watching(atom, n.subtype);
    list::lemma_only_holds(c.selections, p);
    assert(list::only(c.selections, p).contains(r));
    let i = list::only(c.selections, p).index_of(r);
    assert(hearing(c, atom, n.subtype)[i] == (r.window, r.atom));
}

/// A client that is to hear of the screen hears its size: by RandR's event where it
/// selected that, from the window that it selected it on.
pub proof fn law_screen_size_is_heard(c: ClientView, width: u16, height: u16, timestamp: u32, config_timestamp: u32)
    requires
        !c.closed,
        client::total(c.queue) + 64 <= client::MAX_QUEUED_BYTES,
        c.randr_window != 0,
        !c.root_structure,
    ensures
        ({
            let d = hears_screen(width, height, timestamp, config_timestamp)(c);
            &&& d.queue.len() == c.queue.len() + 1
            &&& d.queue.last()[0] == RANDR_FIRST_EVENT
            &&& wire::u32_at(d.queue.last(), 4) == timestamp
            &&& wire::u32_at(d.queue.last(), 8) == config_timestamp
            &&& wire::u32_at(d.queue.last(), 16) == c.randr_window
            &&& wire::u16_at(d.queue.last(), 24) == width
            &&& wire::u16_at(d.queue.last(), 26) == height
        }),
{
    let b = body::screen_change_bytes(
        RANDR_FIRST_EVENT,
        timestamp,
        config_timestamp,
        ROOT_WINDOW,
        c.randr_window,
        width,
        height,
        (width * 254 / 960) as u16,
        (height * 254 / 960) as u16,
    );
    body::law_screen_change_fields(
        RANDR_FIRST_EVENT,
        timestamp,
        config_timestamp,
        ROOT_WINDOW,
        c.randr_window,
        width,
        height,
        (width * 254 / 960) as u16,
        (height * 254 / 960) as u16,
    );
    lemma_stamped(b, c.stamp(c.seq));
}

/// One that selected the structure of the root hears of it as of a window's size.
pub proof fn law_root_size_is_heard(c: ClientView, width: u16, height: u16, timestamp: u32, config_timestamp: u32)
    requires
        !c.closed,
        client::total(c.queue) + 64 <= client::MAX_QUEUED_BYTES,
        c.randr_window == 0,
    ensures
        ({
            let d = hears_screen(width, height, timestamp, config_timestamp)(c);
            &&& !c.root_structure ==> d == c
            &&& c.root_structure ==> {
                &&& d.queue.len() == c.queue.len() + 1
                &&& d.queue.last()[0] == 22
                &&& wire::u32_at(d.queue.last(), 4) == ROOT_WINDOW
                &&& wire::u16_at(d.queue.last(), 20) == width
                &&& wire::u16_at(d.queue.last(), 22) == height
            }
        }),
{
    let b = body::configure_notify_bytes(ROOT_WINDOW, width, height);
    body::law_configure_notify_fields(ROOT_WINDOW, width, height);
    lemma_stamped(b, c.stamp(c.seq));
}

/// A client that watches the cursor hears of each image by its serial, and one that does
/// not hears nothing.
pub proof fn law_cursor_is_heard_of(c: ClientView, serial: u32, timestamp: u32)
    requires
        !c.closed,
        client::total(c.queue) + 64 <= client::MAX_QUEUED_BYTES,
    ensures
        ({
            let d = hears_cursor(serial, timestamp)(c);
            &&& c.cursor_window == 0 ==> d == c
            &&& c.cursor_window != 0 ==> {
                &&& d.queue.len() == c.queue.len() + 1
                &&& d.queue.last()[0] == XFIXES_FIRST_EVENT + 1
                &&& wire::u32_at(d.queue.last(), 4) == c.cursor_window
                &&& wire::u32_at(d.queue.last(), 8) == serial
                &&& wire::u32_at(d.queue.last(), 12) == timestamp
            }
        }),
{
    let b = body::cursor_changed_bytes((XFIXES_FIRST_EVENT + 1) as u8, c.cursor_window, serial, timestamp);
    body::law_cursor_changed_fields((XFIXES_FIRST_EVENT + 1) as u8, c.cursor_window, serial, timestamp);
    lemma_stamped(b, c.stamp(c.seq));
}

/// What a registration hears of a selection: its own window, the selection, who owns it
/// and since when.
pub proof fn law_registration_hears_of_the_owner(c: ClientView, window: u32, atom: u32, n: Notify)
    requires
        !c.closed,
        client::total(c.queue) + 64 <= client::MAX_QUEUED_BYTES,
    ensures
        ({
            let d = told(c, seq![(window, atom)], n);
            &&& d.queue.len() == c.queue.len() + 1
            &&& d.queue.last()[0] == XFIXES_FIRST_EVENT
            &&& d.queue.last()[1] == client::subtype_code(n.subtype)
            &&& wire::u32_at(d.queue.last(), 4) == window
            &&& wire::u32_at(d.queue.last(), 8) == n.owner
            &&& wire::u32_at(d.queue.last(), 12) == atom
            &&& wire::u32_at(d.queue.last(), 16) == n.timestamp
            &&& wire::u32_at(d.queue.last(), 20) == n.selection_timestamp
        }),
{
    let code = client::subtype_code(n.subtype);
    let b = body::owner_changed_bytes(
        XFIXES_FIRST_EVENT,
        code,
        window,
        n.owner,
        atom,
        n.timestamp,
        n.selection_timestamp,
    );
    body::law_owner_changed_fields(
        XFIXES_FIRST_EVENT,
        code,
        window,
        n.owner,
        atom,
        n.timestamp,
        n.selection_timestamp,
    );
    lemma_stamped(b, c.stamp(c.seq));
    assert(seq![(window, atom)].drop_last() =~= Seq::<(u32, u32)>::empty());
    reveal_with_fuel(told, 2);
    assert(told(c, seq![(window, atom)], n) == c.notified(b));
}

/// An event that is sent to one client goes to that one, and to no other.
pub proof fn law_events_go_to_their_client(s: Seq<ClientView>, id: u64, event: Seq<u8>, i: int)
    requires
        0 <= i < s.len(),
    ensures
        sent_to(s, id, event).len() == s.len(),
        s[i].id != id ==> sent_to(s, id, event)[i] == s[i],
        s[i].id == id && (forall|k: int| 0 <= k < i ==> (#[trigger] s[k]).id != id) ==> sent_to(s, id, event)[i]
            == s[i].notified(event),
{
    list::lemma_first_index(s, numbered(id));
    if let Some(k) = list::first_index(s, numbered(id)) {
        assert(numbered(id)(s[k]));
    }
    if s[i].id == id && (forall|k: int| 0 <= k < i ==> (#[trigger] s[k]).id != id) {
        assert forall|k: int| 0 <= k < i implies !numbered(id)(#[trigger] s[k]) by {
            assert(s[k].id != id);
        }
        list::lemma_first_index_is(s, numbered(id), i);
    }
}

/// Stamping an event changes its sequence number and nothing else.
pub proof fn lemma_stamped(b: Seq<u8>, seq: u16)
    requires
        b.len() == 32,
    ensures
        ClientView::stamped(b, seq).len() == 32,
        ClientView::stamped(b, seq)[0] == b[0],
        ClientView::stamped(b, seq)[1] == b[1],
        wire::u16_at(ClientView::stamped(b, seq), 2) == seq,
        forall|i: int| 4 <= i <= 28 ==> #[trigger] wire::u32_at(ClientView::stamped(b, seq), i) == wire::u32_at(b, i),
        forall|i: int| 4 <= i <= 30 ==> #[trigger] wire::u16_at(ClientView::stamped(b, seq), i) == wire::u16_at(b, i),
{
    let s = ClientView::stamped(b, seq);
    assert(s.subrange(2, 4) =~= wire::le16(seq));
    wire::lemma_reads_16(s, 2, seq);
    assert(forall|i: int| 4 <= i < 32 ==> #[trigger] s[i] == b[i]);
}

/// A client hears of a new keymap that both of its tables are new, for the keycodes that
/// changed.
pub proof fn law_both_keyboard_tables_are_heard_of(c: ClientView, first_keycode: u8, count: u8)
    requires
        !c.closed,
        client::total(c.queue) + 64 <= client::MAX_QUEUED_BYTES,
    ensures
        ({
            let d = hears_mapping(first_keycode, count)(c);
            let n = c.queue.len() as int;
            &&& d.queue.len() == n + 2
            &&& d.queue[n][0] == 34 && d.queue[n][4] == 1 && d.queue[n][5] == first_keycode && d.queue[n][6] == count
            &&& d.queue[n + 1][0] == 34 && d.queue[n + 1][4] == 0 && d.queue[n + 1][5] == first_keycode && d.queue[n + 1][6]
                == count
        }),
{
    body::law_mapping_notify_fields(1, first_keycode, count);
    body::law_mapping_notify_fields(0, first_keycode, count);
    let a = body::mapping_notify_bytes(1, first_keycode, count);
    let b = body::mapping_notify_bytes(0, first_keycode, count);
    lemma_stamped(a, c.stamp(c.seq));
    let d = c.notified(a);
    lemma_stamped(b, d.stamp(d.seq));
    let e = ClientView::stamped(a, c.stamp(c.seq));
    assert(d.queue == c.queue.push(e));
    assert(d.queue.drop_last() =~= c.queue);
    assert(client::total(d.queue) == client::total(c.queue) + 32);
}

} // verus!
