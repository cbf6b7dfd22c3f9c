//! Per-connection selection state: owners of selections that are not bridged, the
//! conversions asked of X owners, and chunked receives.

use crate::bridge::clipboard;
use crate::bridge::clipboard::Sel;
use crate::bridge::event::time;
use crate::bridge::event::time::Clock;
use crate::bridge::x11::SELECTION_FETCH_WINDOW;
use crate::util::list;
use std::collections::HashMap;
use vstd::prelude::*;

verus! {

broadcast use vstd::std_specs::hash::group_hash_axioms;

/// How many unanswered `ConvertSelection`s to remember. Two selections times a
/// couple of rapid re-takes is the realistic worst case.
pub const MAX_FETCHES: usize = 8;

/// The owner of a selection kept on this connection alone: the window, or 0 for
/// none, and when that was last set.
#[derive(Clone, Copy, PartialEq, Eq, Structural, Debug)]
pub struct Owner {
    pub window: u32,
    pub last_changed: u32,
}

/// An in-flight ConvertSelection to an X selection owner to receive it.
#[derive(Clone, Copy, PartialEq, Eq, Structural, Debug)]
pub struct Fetch {
    pub kind: Sel,
    pub selection: u32,
    pub property: u32,
    /// The owner asked, and when it took the selection: a reply is only
    /// good if that acquisition is still the current one.
    pub owner: u32,
    pub time: u32,
}

/// An in-flight chunked receive.
struct IncrRecv {
    fetch: Fetch,
    data: Vec<u8>,
}

/// What a chunk of a receive leads to.
pub enum IncrStep {
    /// More is to come on the property.
    More(u32),
    /// The transfer is complete, with its value.
    Done(Fetch, Vec<u8>),
}

/// Per-connection clipboard/selection state machine.
pub struct Selection {
    owners: HashMap<u32, Owner>,
    pub fetches: Vec<Fetch>,
    incr: HashMap<u32, IncrRecv>,
}

#[verifier::ext_equal]
pub struct SelectionView {
    /// Owner per selection atom, for the selections we don't bridge to Wayland.
    /// Deliberately not shared between connections: a `ConvertSelection` is never
    /// forwarded to the owning client, so an owner another connection can see is an
    /// owner nobody can get a value from.
    pub owners: Map<u32, Owner>,
    /// ConvertSelections we have issued to X owners, oldest first. Several are in
    /// flight at once; each is matched by the property it was told to use, which is
    /// why every fetch gets its own.
    pub fetches: Seq<Fetch>,
    /// Chunked receives in progress, keyed by the property they arrive on.
    pub incr: Map<u32, (Fetch, Seq<u8>)>,
}

impl View for Selection {
    type V = SelectionView;

    closed spec fn view(&self) -> SelectionView {
        SelectionView {
            owners: self.owners@,
            fetches: self.fetches@,
            incr: Map::new(
                |k: u32| self.incr@.dom().contains(k),
                |k: u32| (self.incr@[k].fetch, self.incr@[k].data@),
            ),
        }
    }
}

/// Fetches on other properties.
pub open spec fn not_on(property: u32) -> spec_fn(Fetch) -> bool {
    |f: Fetch| f.property != property
}

/// The fetch that a `SelectionNotify` answers: an answer names the property it was
/// asked to use; a refusal names no property.
pub open spec fn answers(selection: u32, property: u32) -> spec_fn(Fetch) -> bool {
    |f: Fetch| f.selection == selection && (property == 0 || f.property == property)
}

impl SelectionView {
    /// When the owner of a selection last changed.
    pub open spec fn last_changed(self, selection: u32) -> u32 {
        if self.owners.dom().contains(selection) {
            self.owners[selection].last_changed
        } else {
            0
        }
    }

    /// With a fetch recorded: another one, or a half-finished receive, on the same
    /// property goes, and the oldest one if there are too many.
    pub open spec fn fetching(self, fetch: Fetch) -> SelectionView {
        let rest = list::only(self.fetches, not_on(fetch.property));
        SelectionView {
            fetches: (if rest.len() >= MAX_FETCHES { rest.drop_first() } else { rest }).push(fetch),
            incr: self.incr.remove(fetch.property),
            ..self
        }
    }

    /// With the selections of a window reverted to no owner.
    pub open spec fn forgetting(self, window: u32) -> SelectionView {
        SelectionView {
            owners: Map::new(
                |a: u32| self.owners.dom().contains(a),
                |a: u32|
                    if self.owners[a].window == window {
                        Owner { window: 0, ..self.owners[a] }
                    } else {
                        self.owners[a]
                    },
            ),
            ..self
        }
    }

    /// With a receive begun.
    pub open spec fn receiving(self, fetch: Fetch) -> SelectionView {
        SelectionView { incr: self.incr.insert(fetch.property, (fetch, Seq::empty())), ..self }
    }

    /// With a chunk of a receive taken: an empty one ends it.
    pub open spec fn pushed(self, property: u32, chunk: Seq<u8>) -> SelectionView {
        SelectionView {
            incr: if chunk.len() == 0 {
                self.incr.remove(property)
            } else {
                self.incr.insert(property, (self.incr[property].0, self.incr[property].1 + chunk))
            },
            ..self
        }
    }

    /// With chunks taken one after the other, each on its property.
    pub open spec fn pushed_all(self, pushes: Seq<(u32, Seq<u8>)>) -> SelectionView
        decreases pushes.len(),
    {
        if pushes.len() == 0 {
            self
        } else {
            self.pushed_all(pushes.drop_last()).pushed(pushes.last().0, pushes.last().1)
        }
    }

    /// Whether a property of a window is a chunk of a receive in progress.
    pub open spec fn is_chunk(self, window: u32, property: u32) -> bool {
        window == SELECTION_FETCH_WINDOW && self.incr.dom().contains(property)
    }
}

impl Default for Selection {
    fn default() -> (s: Self)
        ensures
            s@ == (SelectionView { owners: Map::empty(), fetches: Seq::empty(), incr: Map::empty() }),
    {
        let s = Selection { owners: HashMap::new(), fetches: Vec::new(), incr: HashMap::new() };
        assert(s@.incr =~= Map::empty());
        s
    }
}

impl Selection {
    /// Sets (or with `owner` 0 clears) the owner of `selection` at `time`,
    /// unless X would ignore the request as stale. Returns whether it took.
    pub fn set_owner(&mut self, selection: u32, owner: u32, time: u32, clock: &Clock) -> (took: bool)
        ensures
            took == !clipboard::is_stale(time, clock.now(), old(self)@.last_changed(selection)),
            took ==> final(self)@ == (SelectionView {
                owners: old(self)@.owners.insert(selection, Owner { window: owner, last_changed: time }),
                ..old(self)@
            }),
            !took ==> final(self)@ == old(self)@,
    {
        let last: u32 = match self.owners.get(&selection) {
            Some(o) => o.last_changed,
            None => 0,
        };
        if clipboard::stale_owner_time(time, time::server_time_ms(clock), last) {
            return false;
        }
        self.owners.insert(selection, Owner { window: owner, last_changed: time });
        true
    }

    pub fn owner(&self, selection: u32) -> (r: Option<u32>)
        ensures
            r == if self@.owners.dom().contains(selection) && self@.owners[selection].window != 0 {
                Some(self@.owners[selection].window)
            } else {
                None
            },
    {
        match self.owners.get(&selection) {
            Some(o) => if o.window != 0 {
                Some(o.window)
            } else {
                None
            },
            None => None,
        }
    }

    /// Reverts every selection `window` owned to no owner, as X does when the
    /// owner window is destroyed, returning their atoms and last change (which
    /// X leaves as it was), each once.
    pub fn forget_window(&mut self, window: u32) -> (gone: Vec<(u32, u32)>)
        ensures
            final(self)@ == old(self)@.forgetting(window),
            gone@.no_duplicates(),
            forall|a: u32, t: u32| #[trigger]
                gone@.contains((a, t)) <==> old(self)@.owners.dom().contains(a) && old(self)@.owners[a] == (Owner {
                    window,
                    last_changed: t,
                }),
    {
        let ghost v0 = self@;
        let keys = owner_keys(&self.owners);
        let mut gone: Vec<(u32, u32)> = Vec::new();
        let mut i: usize = 0;
        while i < keys.len()
            invariant
                i <= keys.len(),
                keys@.no_duplicates(),
                keys@.to_set() == v0.owners.dom(),
                self@ == (SelectionView { owners: self@.owners, ..v0 }),
                self@.owners.dom() == v0.owners.dom(),
                forall|a: u32| #[trigger] v0.owners.dom().contains(a) ==> self@.owners[a] == if keys@.take(
                    i as int,
                ).contains(a) && v0.owners[a].window == window {
                    Owner { window: 0, ..v0.owners[a] }
                } else {
                    v0.owners[a]
                },
                gone@.no_duplicates(),
                forall|a: u32, t: u32| #[trigger]
                    gone@.contains((a, t)) <==> keys@.take(i as int).contains(a) && v0.owners[a] == (Owner {
                        window,
                        last_changed: t,
                    }),
            decreases keys.len() - i,
        {
            let a: u32 = keys[i];
            let ghost g0 = gone@;
            let ghost o0 = self@.owners;
            proof {
                assert(keys@.to_set().contains(a));
                assert(!keys@.take(i as int).contains(a)) by {
                    if keys@.take(i as int).contains(a) {
                        let j = choose|j: int| 0 <= j < i && keys@.take(i as int)[j] == a;
                        assert(keys@[j] == keys@[i as int]);
                    }
                }
                assert forall|b: u32| keys@.take(i as int + 1).contains(b) <==> keys@.take(i as int).contains(b) || b
                    == a by {
                    if keys@.take(i as int).contains(b) {
                        let j = choose|j: int| 0 <= j < i && keys@.take(i as int)[j] == b;
                        assert(keys@.take(i as int + 1)[j] == b);
                    }
                    if b == a {
                        assert(keys@.take(i as int + 1)[i as int] == b);
                    }
                    if keys@.take(i as int + 1).contains(b) {
                        let j = keys@.take(i as int + 1).index_of(b);
                        if j < i {
                            assert(keys@.take(i as int)[j] == b);
                        }
                    }
                }
            }
            let o = match self.owners.get(&a) {
                Some(o) => *o,
                None => Owner { window: 0, last_changed: 0 },
            };
            assert(o == v0.owners[a]);
            if o.window == window {
                self.owners.insert(a, Owner { window: 0, last_changed: o.last_changed });
                gone.push((a, o.last_changed));
                proof {
                    assert(self@.owners.dom() =~= v0.owners.dom());
                    assert(!g0.contains((a, o.last_changed)));
                    assert forall|b: u32, t: u32| #[trigger] gone@.contains((b, t)) <==> g0.contains((b, t)) || (b, t)
                        == (a, o.last_changed) by {
                        if g0.contains((b, t)) {
                            let j = choose|j: int| 0 <= j < g0.len() && g0[j] == (b, t);
                            assert(gone@[j] == (b, t));
                        }
                        if (b, t) == (a, o.last_changed) {
                            assert(gone@[g0.len() as int] == (b, t));
                        }
                    }
                    assert forall|x: int, y: int|
                        0 <= x < gone@.len() && 0 <= y < gone@.len() && x != y implies gone@[x] != gone@[y] by {
                        if x == g0.len() {
                            assert(g0.contains(g0[y]));
                        } else if y == g0.len() {
                            assert(g0.contains(g0[x]));
                        }
                    }
                }
            }
            i += 1;
        }
        proof {
            assert(keys@.take(i as int) =~= keys@);
            assert forall|a: u32| v0.owners.dom().contains(a) implies keys@.contains(a) by {
                assert(keys@.to_set().contains(a));
            }
            assert forall|a: u32| keys@.contains(a) implies v0.owners.dom().contains(a) by {
                assert(keys@.to_set().contains(a));
            }
            assert(self@.owners =~= v0.forgetting(window).owners);
        }
        gone
    }

    /// Records a `ConvertSelection` we just issued to an X owner, dropping any
    /// half-finished chunked receive left on the same property.
    pub fn begin_fetch(&mut self, fetch: Fetch)
        ensures
            final(self)@ == old(self)@.fetching(fetch),
    {
        let ghost v0 = self@;
        let property: u32 = fetch.property;
        self.incr.remove(&property);
        let mut keep: Vec<bool> = Vec::new();
        let mut i: usize = 0;
        while i < self.fetches.len()
            invariant
                i <= self.fetches.len(),
                keep@.len() == i,
                forall|j: int| 0 <= j < i ==> #[trigger] keep@[j] == not_on(property)(self.fetches@[j]),
            decreases self.fetches.len() - i,
        {
            keep.push(self.fetches[i].property != property);
            i += 1;
        }
        let ghost f0 = self.fetches@;
        let ghost id = |f: Fetch| f;
        list::retain(&mut self.fetches, &keep);
        proof {
            list::lemma_kept_is_only(f0, id, keep@, not_on(property));
            assert(list::kept(f0, keep@).map_values(id) =~= list::kept(f0, keep@));
            assert(f0.map_values(id) =~= f0);
        }
        let ghost rest = self.fetches@;
        // an owner that never answers must not pile up state; the oldest is the
        // one least likely to still be coming
        if self.fetches.len() >= MAX_FETCHES {
            self.fetches.remove(0);
            assert(self.fetches@ =~= rest.drop_first());
        }
        self.fetches.push(fetch);
        assert(self@.incr =~= v0.incr.remove(property));
    }

    /// Takes the fetch this `SelectionNotify` answers.
    ///
    /// An answer names the property it was asked to use, so it matches its own
    /// request even when a later one is already outstanding. A refusal names no
    /// property, so it is matched to the oldest request for that selection,
    /// answers arriving in the order they were asked for.
    pub fn take_fetch(&mut self, selection: u32, property: u32) -> (r: Option<Fetch>)
        ensures
            ({
                let at = list::first_index(old(self)@.fetches, answers(selection, property));
                &&& r is Some == at is Some
                &&& r matches Some(f) ==> f == old(self)@.fetches[at->0] && final(self)@ == (SelectionView {
                    fetches: old(self)@.fetches.remove(at->0),
                    ..old(self)@
                })
                &&& r is None ==> final(self)@ == old(self)@
            }),
    {
        let ghost p = answers(selection, property);
        let mut i: usize = 0;
        while i < self.fetches.len()
            invariant
                i <= self.fetches.len(),
                p == answers(selection, property),
                *self == *old(self),
                forall|j: int| 0 <= j < i ==> !p(#[trigger] self.fetches@[j]),
            decreases self.fetches.len() - i,
        {
            let f = self.fetches[i];
            if f.selection == selection && (property == 0 || f.property == property) {
                proof {
                    list::lemma_first_index_is(self.fetches@, p, i as int);
                }
                self.fetches.remove(i);
                return Some(f);
            }
            i += 1;
        }
        proof {
            list::lemma_first_index_none(self.fetches@, p);
        }
        None
    }

    /// Starts an INCR receive for a large fetched value.
    pub fn begin_incr(&mut self, fetch: Fetch)
        ensures
            final(self)@ == old(self)@.receiving(fetch),
    {
        let ghost v0 = self@;
        let property: u32 = fetch.property;
        self.incr.insert(property, IncrRecv { fetch, data: Vec::new() });
        assert(self@.incr =~= v0.incr.insert(property, (fetch, Seq::empty())));
    }

    /// Whether a `ChangeProperty` is an INCR chunk for a receive in progress.
    pub fn incr_chunk(&self, window: u32, property: u32) -> (b: bool)
        ensures
            b == self@.is_chunk(window, property),
    {
        window == SELECTION_FETCH_WINDOW && self.incr.contains_key(&property)
    }

    /// Handles one INCR chunk. An empty chunk completes the transfer (returning
    /// the assembled value), and a non-empty chunk is accumulated. Check
    /// [`incr_chunk`](Self::incr_chunk) first.
    pub fn incr_push(&mut self, property: u32, chunk: Vec<u8>) -> (r: IncrStep)
        requires
            old(self)@.incr.dom().contains(property),
        ensures
            final(self)@ == old(self)@.pushed(property, chunk@),
            chunk@.len() == 0 ==> (r matches IncrStep::Done(f, d) && (f, d@) == old(self)@.incr[property]),
            chunk@.len() > 0 ==> r == IncrStep::More(property),
    {
        let ghost v0 = self@;
        let mut recv = match self.incr.remove(&property) {
            Some(r) => r,
            None => IncrRecv {
                fetch: Fetch { kind: Sel::Primary, selection: 0, property, owner: 0, time: 0 },
                data: Vec::new(),
            },
        };
        assert((recv.fetch, recv.data@) == v0.incr[property]);
        if chunk.len() == 0 {
            assert(self@.incr =~= v0.incr.remove(property));
            IncrStep::Done(recv.fetch, recv.data)
        } else {
            list::append_bytes(&mut recv.data, chunk.as_slice());
            let ghost pair = (recv.fetch, recv.data@);
            self.incr.insert(property, recv);
            assert(self@.incr =~= v0.incr.insert(property, pair));
            IncrStep::More(property)
        }
    }
}

/// The selections that have an owner record, each once.
fn owner_keys(m: &HashMap<u32, Owner>) -> (v: Vec<u32>)
    ensures
        v@.no_duplicates(),
        v@.to_set() == m@.dom(),
{
    let mut v: Vec<u32> = Vec::new();
    for k in it: m.keys()
        invariant
            v@ == it.seq().unref().take(it.index() as int),
            it.seq().unref().to_set() == m@.dom(),
            it.seq().no_duplicates(),
            v@.no_duplicates(),
            it.index() == it.seq().len() ==> v@.to_set() == m@.dom(),
    {
        v.push(*k);
        assert(v@ =~= it.seq().unref().take(it.index() as int + 1));
        assert(it.index() + 1 == it.seq().len() ==> v@ =~= it.seq().unref());
        assert(forall|i: int, j: int| 0 <= i < v@.len() && 0 <= j < v@.len() && i != j ==> it.seq()[i] != it.seq()[j]);
    }
    v
}

/// An answer is matched to its own request: of two fetches of one selection on
/// different properties, the answer that names a property takes that one.
pub proof fn law_answers_match_their_own_request(s: SelectionView, f: Fetch)
    requires
        f.property != 0,
        s.fetches.contains(f),
        forall|i: int, j: int|
            0 <= i < j < s.fetches.len() ==> (#[trigger] s.fetches[i]).property != (#[trigger] s.fetches[j]).property,
    ensures
        ({
            let at = list::first_index(s.fetches, answers(f.selection, f.property));
            at is Some && s.fetches[at->0] == f
        }),
{
    let i = s.fetches.index_of(f);
    list::lemma_first_index_is(s.fetches, answers(f.selection, f.property), i);
}

/// Owners that never answer do not pile up, and the newest fetch is always there.
pub proof fn law_fetches_are_bounded(s: SelectionView, f: Fetch)
    requires
        s.fetches.len() <= MAX_FETCHES,
    ensures
        s.fetching(f).fetches.len() <= MAX_FETCHES,
        s.fetching(f).fetches.last() == f,
{
    list::lemma_only_holds(s.fetches, not_on(f.property));
}

/// Every fetch has a property of its own.
pub proof fn law_fetches_keep_apart(s: SelectionView, f: Fetch, i: int, j: int)
    requires
        forall|a: int, b: int|
            0 <= a < b < s.fetches.len() ==> (#[trigger] s.fetches[a]).property != (#[trigger] s.fetches[b]).property,
        0 <= i < j < s.fetching(f).fetches.len(),
    ensures
        s.fetching(f).fetches[i].property != s.fetching(f).fetches[j].property,
{
    let p = not_on(f.property);
    let rest = list::only(s.fetches, p);
    list::lemma_only_elements(s.fetches, p);
    lemma_only_apart(s.fetches, p);
    let kept = if rest.len() >= MAX_FETCHES { rest.drop_first() } else { rest };
    let shift: int = if rest.len() >= MAX_FETCHES { 1 } else { 0 };
    assert(kept[i] == rest[i + shift]);
    assert(p(rest[i + shift]));
    if j < kept.len() {
        assert(kept[j] == rest[j + shift]);
    }
}

proof fn lemma_only_apart(s: Seq<Fetch>, p: spec_fn(Fetch) -> bool)
    requires
        forall|a: int, b: int| 0 <= a < b < s.len() ==> (#[trigger] s[a]).property != (#[trigger] s[b]).property,
    ensures
        forall|a: int, b: int|
            0 <= a < b < list::only(s, p).len() ==> (#[trigger] list::only(s, p)[a]).property != (#[trigger] list::only(
                s,
                p,
            )[b]).property,
    decreases s.len(),
{
    if s.len() > 0 {
        let r = s.drop_last();
        lemma_only_apart(r, p);
        list::lemma_only_elements(r, p);
        let o = list::only(s, p);
        let q = list::only(r, p);
        assert forall|a: int, b: int| 0 <= a < b < o.len() implies (#[trigger] o[a]).property != (#[trigger] o[b]).property by {
            if b == q.len() {
                assert(r.contains(q[a]));
                let k = choose|k: int| 0 <= k < r.len() && r[k] == q[a];
                assert(s[k].property != s[s.len() - 1].property);
            }
        }
    }
}

/// Chunked receives are kept apart by property: a chunk of one leaves the others.
pub proof fn law_receives_are_kept_apart(s: SelectionView, p1: u32, p2: u32, v: (Fetch, Seq<u8>))
    requires
        p1 != p2,
    ensures
        s.incr.insert(p1, v).dom().contains(p2) == s.incr.dom().contains(p2),
        s.incr.dom().contains(p2) ==> s.incr.insert(p1, v)[p2] == s.incr[p2] && s.incr.remove(p1)[p2] == s.incr[p2],
{
}

/// The chunks that were pushed on a property, joined.
pub open spec fn joined(pushes: Seq<(u32, Seq<u8>)>, property: u32) -> Seq<u8>
    decreases pushes.len(),
{
    if pushes.len() == 0 {
        Seq::empty()
    } else if pushes.last().0 == property {
        joined(pushes.drop_last(), property) + pushes.last().1
    } else {
        joined(pushes.drop_last(), property)
    }
}

/// A receive has all of its own chunks, in the order in which they were pushed, whatever
/// is pushed on other properties in between, and whichever of those end; and its end
/// leaves the others alone.
pub proof fn law_chunks_join_on_their_property(s: SelectionView, f: Fetch, pushes: Seq<(u32, Seq<u8>)>, other: u32)
    requires
        forall|i: int|
            0 <= i < pushes.len() && (#[trigger] pushes[i]).0 == f.property ==> pushes[i].1.len() > 0,
        other != f.property,
    ensures
        ({
            let t = s.receiving(f).pushed_all(pushes);
            let done = t.pushed(f.property, Seq::empty());
            &&& t.is_chunk(SELECTION_FETCH_WINDOW, f.property)
            &&& t.incr[f.property] == (f, joined(pushes, f.property))
            &&& !done.is_chunk(SELECTION_FETCH_WINDOW, f.property)
            &&& done.is_chunk(SELECTION_FETCH_WINDOW, other) == t.is_chunk(SELECTION_FETCH_WINDOW, other)
            &&& t.is_chunk(SELECTION_FETCH_WINDOW, other) ==> done.incr[other] == t.incr[other]
        }),
    decreases pushes.len(),
{
    if pushes.len() > 0 {
        let rest = pushes.drop_last();
        assert forall|i: int| 0 <= i < rest.len() && (#[trigger] rest[i]).0 == f.property implies rest[i].1.len()
            > 0 by {
            assert(rest[i] == pushes[i]);
        }
        law_chunks_join_on_their_property(s, f, rest, other);
        assert(pushes.last() == pushes[pushes.len() - 1]);
    }
}

/// A window that goes takes its selections with it: they have no owner then, since when
/// they had that one; the selections of other windows stay.
pub proof fn law_forgotten_windows_own_nothing(s: SelectionView, window: u32, a: u32)
    requires
        s.owners.dom().contains(a),
    ensures
        s.forgetting(window).owners.dom().contains(a),
        s.owners[a].window == window ==> s.forgetting(window).owners[a].window == 0,
        s.owners[a].window != window ==> s.forgetting(window).owners[a] == s.owners[a],
        s.forgetting(window).owners[a].last_changed == s.owners[a].last_changed,
        s.forgetting(window).fetches == s.fetches,
{
}

} // verus!
