//! Which seat input goes to, and which one the clipboard follows.
//!
//! Seats show up in any order and say their names and capabilities later, so each event
//! is held against what has been heard so far.
//!
//! With `-seat transient` the compositor is asked for a seat of our own, so that remote
//! input has its own focus, cursor and keyboard state instead of sharing the local
//! seat's. The compositor creates it as a fresh global and names that in `ready`; the
//! global and the event can land in either order, and whichever comes second makes it
//! ours. Only input moves to the new seat. Selections are per seat, so the clipboard
//! stays on the first real seat (falling back to ours if the compositor has none), which
//! is what the apps on screen are using. Without the protocol, or if the compositor
//! denies the seat, the first seat is used rather than leaving input dead.

use crate::config::{SeatChoice, SeatChoiceView};
use crate::util::list;
use vstd::prelude::*;

verus! {

/// What a seat has.
#[derive(Clone, Copy, PartialEq, Eq, Structural, Debug)]
pub struct Caps {
    pub keyboard: bool,
    pub pointer: bool,
}

/// What has been heard of the seats, which are known by the names of their globals.
pub struct Seats {
    /// How the input seat is chosen; reverts to the first if a transient seat cannot be
    /// had.
    pub mode: SeatChoice,
    /// The seat the virtual input devices go on, and whose keymap and pointer (for cursor
    /// sessions) we follow.
    pub seat: Option<u32>,
    /// The seat the clipboard follows. The same as `seat`, except with `-seat transient`,
    /// where it is the first real seat: selections are per seat, and the apps on screen
    /// use the real one.
    pub clipboard_seat: Option<u32>,
    /// The transient seat that was asked for, with the name of its global once the
    /// compositor has said it.
    pub transient: Option<Option<u32>>,
    /// Seats not chosen, held while we wait for the one to select.
    pub pending: Vec<u32>,
    /// The last capabilities of every seat. Kept for the ones not yet chosen, since the
    /// event may land before the name that selects the seat.
    pub caps: Vec<(u32, Caps)>,
    /// Whether the seat's keyboard and pointer have been asked for. Each is made once and
    /// kept across capability changes.
    pub keyboard: bool,
    pub pointer: bool,
}

#[verifier::ext_equal]
pub struct SeatsView {
    pub mode: SeatChoiceView,
    pub seat: Option<u32>,
    pub clipboard_seat: Option<u32>,
    pub transient: Option<Option<u32>>,
    pub pending: Seq<u32>,
    pub caps: Seq<(u32, Caps)>,
    pub keyboard: bool,
    pub pointer: bool,
}

impl View for Seats {
    type V = SeatsView;

    open spec fn view(&self) -> SeatsView {
        SeatsView {
            mode: self.mode@,
            seat: self.seat,
            clipboard_seat: self.clipboard_seat,
            transient: self.transient,
            pending: self.pending@,
            caps: self.caps@,
            keyboard: self.keyboard,
            pointer: self.pointer,
        }
    }
}

/// What an event leads to.
#[derive(Clone, Copy, PartialEq, Eq, Structural, Debug)]
pub struct SeatWork {
    /// A seat was selected: the data device and the virtual input devices go on it, and
    /// the other ones are let go.
    pub selected: Option<u32>,
    /// Its keyboard is to be asked for.
    pub keyboard: bool,
    /// Its pointer is to be asked for.
    pub pointer: bool,
    /// The request for a transient seat is over.
    pub drop_transient: bool,
}

/// The smallest of the names.
pub open spec fn smallest(s: Seq<u32>) -> Option<u32>
    decreases s.len(),
{
    if s.len() == 0 {
        None
    } else {
        match smallest(s.drop_last()) {
            Some(m) => Some(
                if s.last() < m {
                    s.last()
                } else {
                    m
                },
            ),
            None => Some(s.last()),
        }
    }
}

/// The capabilities of a seat, as last heard: behind the others.
pub open spec fn caps_of(s: Seq<(u32, Caps)>, name: u32) -> Option<Caps>
    decreases s.len(),
{
    if s.len() == 0 {
        None
    } else if s.last().0 == name {
        Some(s.last().1)
    } else {
        caps_of(s.drop_last(), name)
    }
}

/// What is known of other seats.
pub open spec fn caps_of_others(name: u32) -> spec_fn((u32, Caps)) -> bool {
    |c: (u32, Caps)| c.0 != name
}

/// Names other than that one.
pub open spec fn others(name: u32) -> spec_fn(u32) -> bool {
    |n: u32| n != name
}

impl SeatWork {
    /// Nothing.
    pub open spec fn none() -> SeatWork {
        SeatWork { selected: None, keyboard: false, pointer: false, drop_transient: false }
    }
}

impl SeatsView {
    /// With the keyboard and the pointer of the chosen seat asked for, once it has the
    /// matching capability. Asking before then is a protocol error, which would kill the
    /// whole connection; a headless compositor with no input devices only gains the
    /// capabilities once our virtual devices exist.
    pub open spec fn synced(self, caps: Caps) -> (SeatsView, SeatWork) {
        let k = caps.keyboard && !self.keyboard;
        let p = caps.pointer && !self.pointer;
        if self.seat is None {
            (self, SeatWork::none())
        } else {
            (
                SeatsView { keyboard: self.keyboard || k, pointer: self.pointer || p, ..self },
                SeatWork { keyboard: k, pointer: p, ..SeatWork::none() },
            )
        }
    }

    /// With a seat selected for input. The clipboard follows it too unless a seat was
    /// already chosen for that. Any other pending seats are dropped.
    pub open spec fn selecting(self, name: u32) -> (SeatsView, SeatWork) {
        let s = SeatsView {
            clipboard_seat: match self.clipboard_seat {
                Some(c) => Some(c),
                None => Some(name),
            },
            seat: Some(name),
            pending: Seq::empty(),
            ..self
        };
        match caps_of(self.caps, name) {
            Some(caps) => {
                let (t, w) = s.synced(caps);
                (t, SeatWork { selected: Some(name), ..w })
            },
            None => (s, SeatWork { selected: Some(name), ..SeatWork::none() }),
        }
    }

    /// With a pending seat selected, if it is there.
    pub open spec fn adopting(self, name: u32) -> (SeatsView, SeatWork) {
        if self.pending.contains(name) {
            self.selecting(name)
        } else {
            (self, SeatWork::none())
        }
    }

    /// With a seat that has arrived.
    pub open spec fn announced(self, name: u32) -> (SeatsView, SeatWork) {
        let held = SeatsView { pending: self.pending.push(name), ..self };
        match self.mode {
            // take the first one we see
            SeatChoiceView::First => if self.seat is None {
                self.selecting(name)
            } else {
                (self, SeatWork::none())
            },
            // wait for its name
            SeatChoiceView::Named(_) => (held, SeatWork::none()),
            // wait for the transient seat's `ready` to name its global
            SeatChoiceView::Transient => if self.transient == Some(Some(name)) {
                held.adopting(name)
            } else {
                (held, SeatWork::none())
            },
        }
    }

    /// With the name of a seat.
    pub open spec fn named(self, name: u32, text: Seq<char>) -> (SeatsView, SeatWork) {
        if self.mode == SeatChoiceView::Named(text) && self.seat is None {
            self.adopting(name)
        } else {
            (self, SeatWork::none())
        }
    }

    /// With the capabilities of a seat.
    pub open spec fn with_caps(self, name: u32, caps: Caps) -> (SeatsView, SeatWork) {
        let s = SeatsView { caps: list::only(self.caps, caps_of_others(name)).push((name, caps)), ..self };
        if self.seat == Some(name) {
            s.synced(caps)
        } else {
            (s, SeatWork::none())
        }
    }

    /// With the transient seat there. The clipboard seat is picked from the real ones
    /// first, since selecting ours would otherwise claim it.
    pub open spec fn ready(self, global: u32) -> (SeatsView, SeatWork) {
        if self.transient is None {
            (self, SeatWork::none())
        } else {
            SeatsView {
                transient: Some(Some(global)),
                clipboard_seat: match self.clipboard_seat {
                    Some(c) => Some(c),
                    None => smallest(list::only(self.pending, others(global))),
                },
                ..self
            }.adopting(global)
        }
    }

    /// With the transient seat given up, as if `-seat` was not given.
    pub open spec fn fallen_back(self) -> (SeatsView, SeatWork) {
        let s = SeatsView { mode: SeatChoiceView::First, transient: None, ..self };
        let dropped = self.transient is Some;
        match smallest(self.pending) {
            Some(name) if self.seat is None => {
                let (t, w) = s.selecting(name);
                (t, SeatWork { drop_transient: dropped, ..w })
            },
            _ => (s, SeatWork { drop_transient: dropped, ..SeatWork::none() }),
        }
    }
}

fn no_work() -> (w: SeatWork)
    ensures
        w == SeatWork::none(),
{
    SeatWork { selected: None, keyboard: false, pointer: false, drop_transient: false }
}

/// The smallest of the names, leaving one out.
fn smallest_but(s: &Vec<u32>, skip: Option<u32>) -> (r: Option<u32>)
    ensures
        skip is None ==> r == smallest(s@),
        skip matches Some(g) ==> r == smallest(list::only(s@, others(g))),
{
    let mut m: Option<u32> = None;
    let mut i: usize = 0;
    assert(s@.take(0) =~= Seq::empty());
    proof {
        if let Some(g) = skip {
            assert(list::only(s@.take(0), others(g)) =~= Seq::empty());
        }
    }
    while i < s.len()
        invariant
            i <= s.len(),
            skip is None ==> m == smallest(s@.take(i as int)),
            skip matches Some(g) ==> m == smallest(list::only(s@.take(i as int), others(g))),
        decreases s.len() - i,
    {
        let n: u32 = s[i];
        let ghost before = s@.take(i as int);
        assert(s@.take(i as int + 1).drop_last() =~= before);
        let skipped = match skip {
            Some(g) => g == n,
            None => false,
        };
        proof {
            if let Some(g) = skip {
                let kept = list::only(before, others(g));
                if g != n {
                    assert(list::only(s@.take(i as int + 1), others(g)) == kept.push(n));
                    assert(kept.push(n).drop_last() =~= kept);
                }
            }
        }
        if !skipped {
            m = match m {
                Some(k) => Some(if n < k { n } else { k }),
                None => Some(n),
            };
        }
        i += 1;
    }
    assert(s@.take(i as int) =~= s@);
    m
}

impl Seats {
    pub fn new(mode: SeatChoice) -> (s: Seats)
        ensures
            s@ == (SeatsView {
                mode: mode@,
                seat: None,
                clipboard_seat: None,
                transient: None,
                pending: Seq::empty(),
                caps: Seq::empty(),
                keyboard: false,
                pointer: false,
            }),
    {
        Seats {
            mode,
            seat: None,
            clipboard_seat: None,
            transient: None,
            pending: Vec::new(),
            caps: Vec::new(),
            keyboard: false,
            pointer: false,
        }
    }

    fn last_caps(&self, name: u32) -> (r: Option<Caps>)
        ensures
            r == caps_of(self@.caps, name),
    {
        let mut i: usize = self.caps.len();
        assert(self.caps@.take(i as int) =~= self.caps@);
        while i > 0
            invariant
                i <= self.caps.len(),
                caps_of(self.caps@, name) == caps_of(self.caps@.take(i as int), name),
            decreases i,
        {
            let (n, c) = self.caps[i - 1];
            assert(self.caps@.take(i as int).drop_last() =~= self.caps@.take(i as int - 1));
            if n == name {
                return Some(c);
            }
            i -= 1;
        }
        None
    }

    fn sync_seat_devices(&mut self, caps: Caps) -> (w: SeatWork)
        ensures
            (final(self)@, w) == old(self)@.synced(caps),
    {
        if self.seat.is_none() {
            return no_work();
        }
        let keyboard = caps.keyboard && !self.keyboard;
        let pointer = caps.pointer && !self.pointer;
        self.keyboard = self.keyboard || keyboard;
        self.pointer = self.pointer || pointer;
        SeatWork { selected: None, keyboard, pointer, drop_transient: false }
    }

    /// Commits to a seat for input.
    fn select_seat(&mut self, name: u32) -> (w: SeatWork)
        ensures
            (final(self)@, w) == old(self)@.selecting(name),
    {
        if self.clipboard_seat.is_none() {
            self.clipboard_seat = Some(name);
        }
        self.seat = Some(name);
        self.pending = Vec::new();
        assert(self.pending@ =~= Seq::empty());
        match self.last_caps(name) {
            Some(caps) => {
                let w = self.sync_seat_devices(caps);
                SeatWork { selected: Some(name), keyboard: w.keyboard, pointer: w.pointer, drop_transient: false }
            },
            None => SeatWork { selected: Some(name), keyboard: false, pointer: false, drop_transient: false },
        }
    }

    fn adopt(&mut self, name: u32) -> (w: SeatWork)
        ensures
            (final(self)@, w) == old(self)@.adopting(name),
    {
        if list::holds(&self.pending, name) {
            self.select_seat(name)
        } else {
            no_work()
        }
    }

    /// A seat arrived: select it, or hold it until we know whether it is the one.
    pub fn seat_announced(&mut self, name: u32) -> (w: SeatWork)
        ensures
            (final(self)@, w) == old(self)@.announced(name),
    {
        match &self.mode {
            SeatChoice::First => {
                if self.seat.is_none() {
                    self.select_seat(name)
                } else {
                    no_work()
                }
            },
            SeatChoice::Named(_) => {
                self.pending.push(name);
                no_work()
            },
            SeatChoice::Transient => {
                self.pending.push(name);
                let ours = match self.transient {
                    Some(Some(global)) => global == name,
                    _ => false,
                };
                if ours {
                    self.adopt(name)
                } else {
                    no_work()
                }
            },
        }
    }

    /// A seat said its name, which matters for `-seat NAME`; once a seat is chosen the
    /// rest are dropped and this does nothing.
    pub fn seat_named(&mut self, name: u32, text: &String) -> (w: SeatWork)
        ensures
            (final(self)@, w) == old(self)@.named(name, text@),
    {
        let wanted = match &self.mode {
            SeatChoice::Named(n) => *n == *text,
            _ => false,
        };
        if wanted && self.seat.is_none() {
            self.adopt(name)
        } else {
            no_work()
        }
    }

    /// A seat said what it has.
    pub fn seat_capabilities(&mut self, name: u32, caps: Caps) -> (w: SeatWork)
        ensures
            (final(self)@, w) == old(self)@.with_caps(name, caps),
    {
        let mut keep: Vec<bool> = Vec::new();
        let mut i: usize = 0;
        while i < self.caps.len()
            invariant
                i <= self.caps.len(),
                keep@.len() == i,
                forall|j: int| 0 <= j < i ==> #[trigger] keep@[j] == caps_of_others(name)(self.caps@[j]),
            decreases self.caps.len() - i,
        {
            keep.push(self.caps[i].0 != name);
            i += 1;
        }
        let ghost c0 = self.caps@;
        list::retain(&mut self.caps, &keep);
        proof {
            let id = |c: (u32, Caps)| c;
            list::lemma_kept_is_only(c0, id, keep@, caps_of_others(name));
            assert(list::kept(c0, keep@).map_values(id) =~= list::kept(c0, keep@));
            assert(c0.map_values(id) =~= c0);
        }
        self.caps.push((name, caps));
        let chosen = match self.seat {
            Some(s) => s == name,
            None => false,
        };
        if chosen {
            self.sync_seat_devices(caps)
        } else {
            no_work()
        }
    }

    /// A transient seat was asked for.
    pub fn transient_requested(&mut self)
        ensures
            final(self)@ == (SeatsView { transient: Some(None), ..old(self)@ }),
    {
        self.transient = Some(None);
    }

    /// The transient seat exists.
    pub fn transient_ready(&mut self, global: u32) -> (w: SeatWork)
        ensures
            (final(self)@, w) == old(self)@.ready(global),
    {
        if self.transient.is_none() {
            return no_work();
        }
        self.transient = Some(Some(global));
        if self.clipboard_seat.is_none() {
            self.clipboard_seat = smallest_but(&self.pending, Some(global));
        }
        self.adopt(global)
    }

    /// Gives up on the transient seat and behaves as if `-seat` was not given.
    pub fn transient_fallback(&mut self) -> (w: SeatWork)
        ensures
            (final(self)@, w) == old(self)@.fallen_back(),
    {
        self.mode = SeatChoice::First;
        let dropped = self.transient.is_some();
        self.transient = None;
        if self.seat.is_none() {
            if let Some(name) = smallest_but(&self.pending, None) {
                let w = self.select_seat(name);
                return SeatWork {
                    selected: w.selected,
                    keyboard: w.keyboard,
                    pointer: w.pointer,
                    drop_transient: dropped,
                };
            }
        }
        SeatWork { selected: None, keyboard: false, pointer: false, drop_transient: dropped }
    }

    /// The initial globals have all arrived: with `-seat transient` and no manager among
    /// them, falls back now rather than wait forever. `None` where there is no need to.
    pub fn transient_settled(&mut self) -> (r: Option<SeatWork>)
        ensures
            r is Some == (old(self)@.mode is Transient && old(self)@.transient is None),
            r matches Some(w) ==> (final(self)@, w) == old(self)@.fallen_back(),
            r is None ==> final(self)@ == old(self)@,
    {
        let waiting = match &self.mode {
            SeatChoice::Transient => self.transient.is_none(),
            _ => false,
        };
        if waiting {
            Some(self.transient_fallback())
        } else {
            None
        }
    }

    /// After setup: whether no seat was selected, so that input will not work. A
    /// transient seat is still on its way at this point (its own path warns if that
    /// fails), so only the modes that wait on the compositor's seats speak.
    pub fn is_without_seat(&self) -> (b: bool)
        ensures
            b == (self@.seat is None && !(self@.mode is Transient)),
    {
        if self.seat.is_some() {
            return false;
        }
        match &self.mode {
            SeatChoice::Transient => false,
            _ => true,
        }
    }
}

/// The transient seat is ours whichever comes first, its global or the event that names
/// it; and the clipboard stays on a real seat if there is one.
pub proof fn law_transient_seat_in_either_order(s: SeatsView, global: u32)
    requires
        s.mode is Transient,
        s.transient == Some(None::<u32>),
        s.seat is None,
        !s.pending.contains(global),
    ensures
        ({
            let first = s.announced(global).0.ready(global).0;
            let second = s.ready(global).0.announced(global).0;
            let clipboard = match (s.clipboard_seat, smallest(list::only(s.pending, others(global)))) {
                (Some(c), _) => Some(c),
                (None, Some(c)) => Some(c),
                (None, None) => Some(global),
            };
            &&& first.seat == Some(global)
            &&& second.seat == Some(global)
            &&& first.clipboard_seat == clipboard
            &&& second.clipboard_seat == clipboard
        }),
{
    assert(s.pending.push(global).drop_last() =~= s.pending);
    assert(list::only(s.pending.push(global), others(global)) == list::only(s.pending, others(global)));
    let held = SeatsView { pending: s.pending.push(global), ..s };
    assert(held.pending[s.pending.len() as int] == global);
    assert(held.pending.contains(global));
    let after = s.ready(global).0;
    assert(after.pending == s.pending);
    let again = SeatsView { pending: after.pending.push(global), ..after };
    assert(again.pending[s.pending.len() as int] == global);
}

/// A seat's devices are asked for once: repeating its capabilities asks for nothing.
pub proof fn law_devices_are_asked_for_once(s: SeatsView, name: u32, caps: Caps)
    requires
        s.seat == Some(name),
    ensures
        ({
            let (t, _) = s.with_caps(name, caps);
            t.with_caps(name, caps).1 == SeatWork::none()
        }),
{
}

/// Nothing is asked for that the seat has not said it has.
pub proof fn law_devices_wait_for_their_capability(s: SeatsView, name: u32, caps: Caps)
    ensures
        ({
            let (_, w) = s.with_caps(name, caps);
            &&& w.keyboard ==> caps.keyboard
            &&& w.pointer ==> caps.pointer
        }),
{
}

/// A seat's capabilities replace those that it had before: there is one entry for each
/// seat.
pub proof fn law_capabilities_are_replaced(s: SeatsView, name: u32, caps: Caps, i: int)
    requires
        0 <= i < s.with_caps(name, caps).0.caps.len() - 1,
    ensures
        s.with_caps(name, caps).0.caps[i].0 != name,
        caps_of(s.with_caps(name, caps).0.caps, name) == Some(caps),
{
    list::lemma_only_elements(s.caps, caps_of_others(name));
}

/// Without a `-seat` the first seat that shows up is the one, and no later one.
pub proof fn law_first_seat_is_taken(s: SeatsView, name: u32)
    requires
        s.mode is First,
    ensures
        s.seat is None ==> s.announced(name).0.seat == Some(name) && s.announced(name).1.selected == Some(name),
        s.seat is Some ==> s.announced(name).0 == s && s.announced(name).1.selected is None,
{
}

/// A seat that was asked for by name is taken once it has shown up and said that name; a
/// seat of another name is not.
pub proof fn law_named_seat_is_the_one_of_that_name(s: SeatsView, wanted: Seq<char>, name: u32, text: Seq<char>)
    requires
        s.mode == SeatChoiceView::Named(wanted),
        s.seat is None,
    ensures
        s.announced(name).0.seat is None,
        s.announced(name).0.pending.contains(name),
        text == wanted && s.pending.contains(name) ==> s.named(name, text).0.seat == Some(name) && s.named(
            name,
            text,
        ).1.selected == Some(name),
        text != wanted ==> s.named(name, text).0 == s,
{
    let held = s.pending.push(name);
    assert(held[s.pending.len() as int] == name);
}

/// The clipboard goes with the seat that input goes to, unless it has one already.
pub proof fn law_clipboard_goes_with_the_seat(s: SeatsView, name: u32)
    ensures
        s.clipboard_seat is None ==> s.selecting(name).0.clipboard_seat == Some(name),
        s.clipboard_seat is Some ==> s.selecting(name).0.clipboard_seat == s.clipboard_seat,
        s.selecting(name).0.seat == Some(name),
        s.selecting(name).0.pending.len() == 0,
{
}

proof fn lemma_smallest(s: Seq<u32>)
    ensures
        smallest(s) is None <==> s.len() == 0,
        smallest(s) matches Some(m) ==> s.contains(m) && forall|i: int| 0 <= i < s.len() ==> m <= #[trigger] s[i],
    decreases s.len(),
{
    if s.len() > 0 {
        let r = s.drop_last();
        lemma_smallest(r);
        assert(s[s.len() - 1] == s.last());
        assert(forall|i: int| 0 <= i < r.len() ==> r[i] == s[i]);
        if let Some(m) = smallest(r) {
            let k = r.index_of(m);
            assert(s[k] == m);
        }
    }
}

/// With a seat of our own for input, the clipboard is that of a real seat: of those that
/// have shown up the one that did first, which has the smallest name.
pub proof fn law_transient_seat_leaves_the_clipboard_to_a_real_one(s: SeatsView, global: u32, other: u32)
    requires
        s.transient is Some,
        s.clipboard_seat is None,
        s.pending.contains(other),
        other != global,
    ensures
        s.ready(global).0.clipboard_seat matches Some(c) && c != global && s.pending.contains(c) && c <= other,
{
    let theirs = list::only(s.pending, others(global));
    list::lemma_only_holds(s.pending, others(global));
    list::lemma_only_elements(s.pending, others(global));
    lemma_smallest(theirs);
    assert(theirs.contains(other));
    let k = theirs.index_of(other);
    assert(theirs[k] == other);
    let m = smallest(theirs)->0;
    let j = theirs.index_of(m);
    assert(others(global)(theirs[j]));
}

/// Without a transient seat after all, the real seat that showed up first is taken.
pub proof fn law_falling_back_takes_the_first_seat(s: SeatsView, other: u32)
    requires
        s.seat is None,
        s.pending.contains(other),
    ensures
        s.fallen_back().0.mode is First,
        s.fallen_back().0.seat matches Some(n) && s.pending.contains(n) && n <= other,
        s.fallen_back().1.selected == s.fallen_back().0.seat,
        s.fallen_back().1.drop_transient == s.transient is Some,
{
    lemma_smallest(s.pending);
    let k = s.pending.index_of(other);
    assert(s.pending[k] == other);
}

} // verus!
