//! DAMAGE extension: capture damage goes in as regions, DamageNotify comes out.
//!
//! Per-level semantics match the X.org server:
//!
//! - RawRectangles: report every incoming rectangle.
//! - DeltaRectangles: report the newly-damaged part; accumulate into the region.
//! - BoundingBox: report the region extents, only when they grow.
//! - NonEmpty: report once (no area) when the region goes empty -> non-empty.
//!
//! One event per box, with `DamageNotifyMore` (0x80) on all but the last.
//! DamageSubtract clears the region and re-arms reporting.

use crate::bridge::event::body;
use crate::bridge::event::client::ClientView;
use crate::bridge::event::sink;
use crate::bridge::event::sink::EventSink;
use crate::bridge::event::time;
use crate::bridge::event::time::Clock;
use crate::bridge::x11::ext::DAMAGE_FIRST_EVENT;
use crate::bridge::x11::wire;
use crate::bridge::x11::xfixes;
use crate::util::geometry;
use crate::util::geometry::Rectangle;
use crate::util::list;
use crate::util::region;
use vstd::prelude::*;

verus! {

pub const RAW: u8 = 0;

pub const DELTA: u8 = 1;

pub const BBOX: u8 = 2;

pub const NON_EMPTY: u8 = 3;

pub const MORE: u8 = 0x80;

/// One client's `XDamage` handle on the root drawable.
struct DamageObj {
    client: u64,
    id: u32,
    drawable: u32,
    level: u8,
    /// Accumulated, not yet subtracted.
    region: Vec<Rectangle>,
}

#[verifier::ext_equal]
pub struct DamageView {
    pub client: u64,
    pub id: u32,
    pub drawable: u32,
    pub level: u8,
    pub region: Seq<Rectangle>,
}

impl View for DamageObj {
    type V = DamageView;

    closed spec fn view(&self) -> DamageView {
        DamageView {
            client: self.client,
            id: self.id,
            drawable: self.drawable,
            level: self.level,
            region: self.region@,
        }
    }
}

/// The damage objects of all clients.
pub struct DamageSink {
    objects: Vec<DamageObj>,
}

impl View for DamageSink {
    type V = Seq<DamageView>;

    closed spec fn view(&self) -> Seq<DamageView> {
        self.objects@.map_values(|o: DamageObj| o@)
    }
}

/// Rectangles that have pixels.
pub open spec fn has_pixels() -> spec_fn(Rectangle) -> bool {
    |r: Rectangle| !r.is_empty_rect()
}

/// Objects of clients that are connected.
pub open spec fn watched(clients: Seq<ClientView>) -> spec_fn(DamageView) -> bool {
    |o: DamageView| !sink::gone(clients, o.client)
}

/// The object of a client.
pub open spec fn object(client: u64, id: u32) -> spec_fn(DamageView) -> bool {
    |o: DamageView| o.client == client && o.id == id
}

pub open spec fn other_object(client: u64, id: u32) -> spec_fn(DamageView) -> bool {
    |o: DamageView| !(o.client == client && o.id == id)
}

/// The whole screen.
pub open spec fn screen_rect(geom: (u16, u16)) -> Rectangle {
    Rectangle { x: 0, y: 0, width: geom.0, height: geom.1 }
}

impl DamageView {
    /// The boxes that are reported of new damage.
    pub open spec fn report(self, new: Seq<Rectangle>, geom: (u16, u16)) -> Seq<Rectangle> {
        if self.level == RAW {
            new
        } else if self.level == DELTA {
            region::difference(new, self.region)
        } else if self.level == BBOX {
            let before = xfixes::extents_of(self.region);
            let after = xfixes::extents_of(self.region + new);
            if before != after {
                after
            } else {
                Seq::empty()
            }
        } else if self.level == NON_EMPTY && self.region.len() == 0 && new.len() > 0 {
            seq![screen_rect(geom)]
        } else {
            Seq::empty()
        }
    }

    /// The event for box `i` of `n`.
    pub open spec fn event(self, boxes: Seq<Rectangle>, i: int, n: int, geom: (u16, u16), timestamp: u32) -> Seq<u8> {
        body::damage_bytes(
            DAMAGE_FIRST_EVENT,
            if i + 1 < n {
                self.level | MORE
            } else {
                self.level
            },
            self.drawable,
            self.id,
            timestamp,
            boxes[i],
            screen_rect(geom),
        )
    }

    /// The client hears of the first `k` boxes.
    pub open spec fn heard(
        self,
        clients: Seq<ClientView>,
        boxes: Seq<Rectangle>,
        k: int,
        geom: (u16, u16),
        timestamp: u32,
    ) -> Seq<ClientView>
        decreases k,
    {
        if k <= 0 {
            clients
        } else {
            sink::sent_to(
                self.heard(clients, boxes, k - 1, geom, timestamp),
                self.client,
                self.event(boxes, k - 1, boxes.len() as int, geom, timestamp),
            )
        }
    }
}

/// The objects and clients after the first `k` objects have taken new damage.
pub open spec fn damaged(
    objs: Seq<DamageView>,
    clients: Seq<ClientView>,
    new: Seq<Rectangle>,
    k: int,
    geom: (u16, u16),
    timestamp: u32,
) -> (Seq<DamageView>, Seq<ClientView>)
    decreases k,
{
    if k <= 0 {
        (objs, clients)
    } else {
        let (os, cs) = damaged(objs, clients, new, k - 1, geom, timestamp);
        let o = objs[k - 1];
        let boxes = o.report(new, geom);
        (
            os.update(k - 1, DamageView { region: o.region + new, ..o }),
            o.heard(cs, boxes, boxes.len() as int, geom, timestamp),
        )
    }
}

/// How many events the first `k` objects are told of new damage with.
pub open spec fn notices(objs: Seq<DamageView>, new: Seq<Rectangle>, k: int, geom: (u16, u16)) -> nat
    decreases k,
{
    if k <= 0 {
        0
    } else {
        notices(objs, new, k - 1, geom) + objs[k - 1].report(new, geom).len()
    }
}

/// A number in 32 bits, or the largest one.
pub open spec fn capped(n: nat) -> u32 {
    if n > u32::MAX {
        u32::MAX
    } else {
        n as u32
    }
}

fn plus(total: u32, n: usize) -> (sum: u32)
    ensures
        sum == (if total + n > u32::MAX {
            u32::MAX as int
        } else {
            total + n
        }),
{
    if n as u64 > (u32::MAX - total) as u64 {
        u32::MAX
    } else {
        total + n as u32
    }
}

impl Default for DamageSink {
    fn default() -> (d: Self)
        ensures
            d@ == Seq::<DamageView>::empty(),
    {
        let d = DamageSink { objects: Vec::new() };
        assert(d@ =~= Seq::empty());
        d
    }
}

impl DamageSink {
    /// Creates an object; returns whether damage is tracked from now on and was not
    /// before.
    pub fn create(&mut self, client: u64, id: u32, drawable: u32, level: u8, events: &EventSink) -> (started: bool)
        ensures
            final(self)@ == old(self)@.push(DamageView { client, id, drawable, level, region: Seq::empty() }),
            started == (list::only(old(self)@, watched(events@)).len() == 0),
    {
        let was_active = self.active(events);
        let ghost s0 = self@;
        let o = DamageObj { client, id, drawable, level, region: Vec::new() };
        let ghost ov = o@;
        assert(ov.region =~= Seq::empty());
        self.objects.push(o);
        assert(self@ =~= s0.push(ov));
        !was_active
    }

    /// Whether any client is watching the screen. Gates the capture loop.
    pub fn active(&self, events: &EventSink) -> (b: bool)
        ensures
            b == (list::only(self@, watched(events@)).len() > 0),
    {
        let ghost p = watched(events@);
        let mut i: usize = 0;
        while i < self.objects.len()
            invariant
                i <= self.objects.len(),
                p == watched(events@),
                forall|j: int| 0 <= j < i ==> !p(#[trigger] self@[j]),
            decreases self.objects.len() - i,
        {
            if !events.is_gone(self.objects[i].client) {
                proof {
                    list::lemma_only_holds(self@, p);
                    assert(self@.contains(self@[i as int]));
                    assert(list::only(self@, p).contains(self@[i as int]));
                }
                return true;
            }
            i += 1;
        }
        proof {
            list::lemma_only_elements(self@, p);
            if list::only(self@, p).len() > 0 {
                let x = list::only(self@, p)[0];
                assert(self@.contains(x));
                let j = self@.index_of(x);
                assert(!p(self@[j]));
            }
        }
        false
    }

    /// Keeps the objects that are marked.
    fn keep(&mut self, keep: &Vec<bool>, Ghost(p): Ghost<spec_fn(DamageView) -> bool>)
        requires
            keep@.len() == old(self).objects@.len(),
            forall|j: int| 0 <= j < keep@.len() ==> #[trigger] keep@[j] == p(old(self)@[j]),
        ensures
            final(self)@ == list::only(old(self)@, p),
    {
        let ghost o0 = self.objects@;
        proof {
            assert forall|j: int| 0 <= j < o0.len() implies #[trigger] keep@[j] == p(o0[j]@) by {
                assert(self@[j] == o0[j]@);
            }
            list::lemma_kept_is_only(o0, |o: DamageObj| o@, keep@, p);
        }
        list::retain(&mut self.objects, keep);
    }

    pub fn destroy(&mut self, client: u64, id: u32)
        ensures
            final(self)@ == list::only(old(self)@, other_object(client, id)),
    {
        let mut marks: Vec<bool> = Vec::new();
        let mut i: usize = 0;
        while i < self.objects.len()
            invariant
                i <= self.objects.len(),
                marks@.len() == i,
                forall|j: int| 0 <= j < i ==> #[trigger] marks@[j] == other_object(client, id)(self@[j]),
            decreases self.objects.len() - i,
        {
            let o = &self.objects[i];
            marks.push(!(o.client == client && o.id == id));
            i += 1;
        }
        self.keep(&marks, Ghost(other_object(client, id)));
    }

    /// DamageSubtract: clears the damage and returns it for the `parts` region.
    ///
    /// Only a subtraction without a repair region is exact, which is the path VNC
    /// takes; anything else is treated as a full subtract, which over-clears but
    /// never loses real damage. It does nothing at the raw level.
    pub fn subtract(&mut self, client: u64, id: u32) -> (parts: Vec<Rectangle>)
        ensures
            match list::first_index(old(self)@, object(client, id)) {
                Some(i) if old(self)@[i].level != RAW => {
                    &&& parts@ == old(self)@[i].region
                    &&& final(self)@ == old(self)@.update(
                        i,
                        DamageView { region: Seq::empty(), ..old(self)@[i] },
                    )
                },
                _ => parts@.len() == 0 && final(self)@ == old(self)@,
            },
    {
        let ghost s0 = self@;
        let ghost p = object(client, id);
        let mut i: usize = 0;
        while i < self.objects.len()
            invariant
                i <= self.objects.len(),
                *self == *old(self),
                s0 == self@,
                p == object(client, id),
                forall|j: int| 0 <= j < i ==> !p(#[trigger] self@[j]),
            decreases self.objects.len() - i,
        {
            if self.objects[i].client == client && self.objects[i].id == id {
                proof {
                    list::lemma_first_index_is(self@, p, i as int);
                }
                if self.objects[i].level == RAW {
                    return Vec::new();
                }
                let mut parts: Vec<Rectangle> = Vec::new();
                parts.append(&mut self.objects[i].region);
                assert(self@ =~= s0.update(i as int, DamageView { region: Seq::empty(), ..s0[i as int] }));
                return parts;
            }
            i += 1;
        }
        proof {
            list::lemma_first_index_none(self@, p);
        }
        Vec::new()
    }

    /// Feeds a new screen-damage region, in root coordinates, to every object. Returns how
    /// many events there were.
    pub fn add_damage(&mut self, new: &Vec<Rectangle>, geom: (u16, u16), events: &mut EventSink, clock: &Clock) -> (told:
        u32)
        requires
            old(events).wf(),
        ensures
            final(events).wf(),
            ({
                let fresh = list::only(new@, has_pixels());
                let objs = list::only(old(self)@, watched(old(events)@));
                if fresh.len() == 0 {
                    final(self)@ == old(self)@ && final(events)@ == old(events)@ && told == 0
                } else {
                    &&& (final(self)@, final(events)@) == damaged(
                        objs,
                        old(events)@,
                        fresh,
                        objs.len() as int,
                        geom,
                        clock.now(),
                    )
                    &&& told == capped(notices(objs, fresh, objs.len() as int, geom))
                }
            }),
    {
        let fresh = real_rects(new);
        if fresh.len() == 0 {
            return 0;
        }
        let timestamp: u32 = time::server_time_ms(clock);
        let ghost cs0 = events@;
        let mut marks: Vec<bool> = Vec::new();
        let mut i: usize = 0;
        while i < self.objects.len()
            invariant
                i <= self.objects.len(),
                marks@.len() == i,
                cs0 == events@,
                forall|j: int| 0 <= j < i ==> #[trigger] marks@[j] == watched(cs0)(self@[j]),
            decreases self.objects.len() - i,
        {
            marks.push(!events.is_gone(self.objects[i].client));
            i += 1;
        }
        self.keep(&marks, Ghost(watched(cs0)));
        let ghost objs = self@;
        let n: usize = self.objects.len();
        let mut told: u32 = 0;
        let mut k: usize = 0;
        while k < n
            invariant
                k <= n,
                n == self.objects@.len(),
                n == objs.len(),
                told == capped(notices(objs, fresh@, k as int, geom)),
                events.wf(),
                fresh@.len() > 0,
                (self@, events@) == damaged(objs, cs0, fresh@, k as int, geom, timestamp),
                forall|j: int| k <= j < n ==> #[trigger] self@[j] == objs[j],
            decreases n - k,
        {
            let ghost o = objs[k as int];
            let ghost s1 = self@;
            assert(s1[k as int] == o);
            assert(self.objects@[k as int]@ == o);
            let boxes = reported(&self.objects[k], &fresh, geom);
            told = plus(told, boxes.len());
            append_rects(&mut self.objects[k].region, &fresh);
            assert(self@ =~= s1.update(k as int, DamageView { region: o.region + fresh@, ..o }));
            notify(&self.objects[k], &boxes, geom, events, timestamp);
            assert(self.objects@[k as int]@ == (DamageView { region: o.region + fresh@, ..o }));
            proof {
                lemma_heard_same(o, self.objects@[k as int]@, damaged(objs, cs0, fresh@, k as int, geom, timestamp).1, boxes@, boxes@.len() as int, geom, timestamp);
            }
            k += 1;
        }
        told
    }
}

/// What an object's client hears does not depend on its region.
proof fn lemma_heard_same(
    a: DamageView,
    b: DamageView,
    clients: Seq<ClientView>,
    boxes: Seq<Rectangle>,
    k: int,
    geom: (u16, u16),
    timestamp: u32,
)
    requires
        b == (DamageView { region: b.region, ..a }),
    ensures
        a.heard(clients, boxes, k, geom, timestamp) == b.heard(clients, boxes, k, geom, timestamp),
    decreases k,
{
    if k > 0 {
        lemma_heard_same(a, b, clients, boxes, k - 1, geom, timestamp);
    }
}

/// The rectangles that have pixels.
fn real_rects(new: &Vec<Rectangle>) -> (v: Vec<Rectangle>)
    ensures
        v@ == list::only(new@, has_pixels()),
{
    let mut v: Vec<Rectangle> = Vec::new();
    let mut i: usize = 0;
    assert(new@.take(0) =~= Seq::empty());
    while i < new.len()
        invariant
            i <= new.len(),
            v@ == list::only(new@.take(i as int), has_pixels()),
        decreases new.len() - i,
    {
        assert(new@.take(i as int + 1).drop_last() =~= new@.take(i as int));
        if new[i].width > 0 && new[i].height > 0 {
            v.push(new[i]);
        }
        i += 1;
    }
    assert(new@.take(i as int) =~= new@);
    v
}

fn append_rects(v: &mut Vec<Rectangle>, a: &Vec<Rectangle>)
    ensures
        final(v)@ == old(v)@ + a@,
{
    let ghost v0 = v@;
    let mut i: usize = 0;
    while i < a.len()
        invariant
            i <= a.len(),
            v@ == v0 + a@.take(i as int),
        decreases a.len() - i,
    {
        v.push(a[i]);
        assert(a@.take(i as int).push(a@[i as int]) =~= a@.take(i as int + 1));
        i += 1;
    }
    assert(a@.take(i as int) =~= a@);
}

/// The boxes to report of new damage; see [`DamageView::report`].
fn reported(o: &DamageObj, new: &Vec<Rectangle>, geom: (u16, u16)) -> (boxes: Vec<Rectangle>)
    requires
        new@.len() > 0,
    ensures
        boxes@ == o@.report(new@, geom),
{
    if o.level == RAW {
        return xfixes::copy_rects(new);
    }
    if o.level == DELTA {
        return region::subtract(new, &o.region);
    }
    let mut boxes: Vec<Rectangle> = Vec::new();
    if o.level == BBOX {
        let before = geometry::bbox(o.region.as_slice());
        let mut all = xfixes::copy_rects(&o.region);
        append_rects(&mut all, new);
        let after = geometry::bbox(all.as_slice());
        let ghost b = xfixes::extents_of(o.region@);
        let ghost a = xfixes::extents_of(o.region@ + new@);
        proof {
            assert(before matches Some(r) ==> b =~= seq![r]);
            assert(before is None ==> b =~= Seq::empty());
            assert(after matches Some(r) ==> a =~= seq![r]);
            assert(after is None ==> a =~= Seq::empty());
        }
        if let Some(now) = after {
            let same = match before {
                Some(old) => old.x == now.x && old.y == now.y && old.width == now.width && old.height == now.height,
                None => false,
            };
            if !same {
                boxes.push(now);
                assert(boxes@ =~= seq![now]);
                assert(a != b) by {
                    if let Some(old) = before {
                        assert(b[0] == old);
                        assert(a[0] == now);
                    } else {
                        assert(a.len() != b.len());
                    }
                }
            }
        } else {
            proof {
                lemma_no_bounds(o.region@, new@);
            }
        }
    } else if o.level == NON_EMPTY && o.region.len() == 0 {
        boxes.push(Rectangle { x: 0, y: 0, width: geom.0, height: geom.1 });
        assert(boxes@ =~= seq![screen_rect(geom)]);
    }
    assert(boxes@ =~= o@.report(new@, geom));
    boxes
}

/// Where there is no box round a list and more, there is none round the list.
proof fn lemma_no_bounds(a: Seq<Rectangle>, b: Seq<Rectangle>)
    requires
        geometry::bounds(a + b) is None,
    ensures
        geometry::bounds(a) is None,
    decreases b.len(),
{
    if b.len() > 0 {
        assert((a + b).drop_last() =~= a + b.drop_last());
        lemma_no_bounds(a, b.drop_last());
    } else {
        assert(a + b =~= a);
    }
}

/// One DamageNotify per box, with `DamageNotifyMore` on all but the last.
fn notify(o: &DamageObj, boxes: &Vec<Rectangle>, geom: (u16, u16), events: &mut EventSink, timestamp: u32)
    requires
        old(events).wf(),
    ensures
        final(events).wf(),
        final(events)@ == o@.heard(old(events)@, boxes@, boxes@.len() as int, geom, timestamp),
{
    let ghost c0 = events@;
    let n: usize = boxes.len();
    let mut i: usize = 0;
    while i < n
        invariant
            i <= n,
            n == boxes@.len(),
            events.wf(),
            events@ == o@.heard(c0, boxes@, i as int, geom, timestamp),
        decreases n - i,
    {
        let level: u8 = if i + 1 < n { o.level | MORE } else { o.level };
        let geometry = Rectangle { x: 0, y: 0, width: geom.0, height: geom.1 };
        let event = body::damage_notify(DAMAGE_FIRST_EVENT, level, o.drawable, o.id, timestamp, boxes[i], geometry);
        events.send(o.client, event);
        i += 1;
    }
}

/// Subtracting empties the region, so that the next damage is reported again.
pub proof fn law_subtract_rearms_reporting(o: DamageView, new: Seq<Rectangle>, geom: (u16, u16))
    requires
        o.level == NON_EMPTY,
        new.len() > 0,
    ensures
        (DamageView { region: Seq::empty(), ..o }).report(new, geom) == seq![screen_rect(geom)],
        (DamageView { region: o.region + new, ..o }).report(new, geom).len() == 0,
{
}

/// At the delta level what is reported is what is newly damaged: every such pixel, and,
/// of rectangles that end where one could start, no other. Damage that is all in the
/// region already is not reported.
pub proof fn law_delta_reports_new_damage_only(o: DamageView, new: Seq<Rectangle>, geom: (u16, u16), x: int, y: int)
    requires
        o.level == DELTA,
    ensures
        region::covered(new, x, y) && !region::covered(o.region, x, y) ==> region::covered(o.report(new, geom), x, y),
        (forall|i: int| 0 <= i < new.len() ==> region::fits(#[trigger] new[i])) ==> region::covered(
            o.report(new, geom),
            x,
            y,
        ) == (region::covered(new, x, y) && !region::covered(o.region, x, y)),
{
    region::law_difference_is_what_is_left(new, o.region, x, y);
}

/// At the delta level damage that is in the region already is not reported at all.
pub proof fn law_delta_is_silent_on_known_damage(o: DamageView, r: Rectangle, geom: (u16, u16))
    requires
        o.level == DELTA,
        o.region == seq![r],
        !r.is_empty_rect(),
    ensures
        o.report(seq![r], geom).len() == 0,
{
    assert(o.region.drop_last() =~= Seq::empty());
    assert(seq![r].drop_last() =~= Seq::<Rectangle>::empty());
    assert(region::difference(seq![r], Seq::empty()) == seq![r]);
    reveal_with_fuel(region::difference, 2);
    reveal_with_fuel(region::cut_all, 2);
}

/// At the bounding-box level nothing is reported of damage that the box has already.
pub proof fn law_bounding_box_reports_growth_only(o: DamageView, new: Seq<Rectangle>, geom: (u16, u16))
    requires
        o.level == BBOX,
        xfixes::extents_of(o.region + new) == xfixes::extents_of(o.region),
    ensures
        o.report(new, geom).len() == 0,
{
}

/// What each level reports of new damage: every rectangle at level 0, what was not
/// damaged before at level 1, the box round it all at level 2 where it is another one, and
/// at level 3 that there is damage where there was none.
pub proof fn law_levels_report_their_own_way(o: DamageView, new: Seq<Rectangle>, geom: (u16, u16), x: int, y: int)
    ensures
        o.level == 0 ==> o.report(new, geom) == new,
        o.level == 1 && region::covered(new, x, y) && !region::covered(o.region, x, y) ==> region::covered(
            o.report(new, geom),
            x,
            y,
        ),
        o.level == 1 && region::covered(o.report(new, geom), x, y) ==> region::covered(new, x, y),
        o.level == 2 ==> o.report(new, geom).len() <= 1,
        o.level == 2 && o.report(new, geom).len() == 1 ==> o.report(new, geom) == xfixes::extents_of(o.region + new),
        o.level == 2 && xfixes::extents_of(o.region + new) != xfixes::extents_of(o.region) ==> o.report(new, geom)
            == xfixes::extents_of(o.region + new),
        o.level == 3 ==> o.report(new, geom) == (if o.region.len() == 0 && new.len() > 0 {
            seq![(Rectangle { x: 0, y: 0, width: geom.0, height: geom.1 })]
        } else {
            Seq::empty()
        }),
        o.level > 3 ==> o.report(new, geom).len() == 0,
{
    region::law_difference_is_what_is_left(new, o.region, x, y);
}

/// A damage event names its object, its drawable, the box and the whole screen, and says
/// of all but the last that more follow.
#[verifier::spinoff_prover]
#[verifier::rlimit(80)]
pub proof fn law_damage_events_name_their_box(
    o: DamageView,
    boxes: Seq<Rectangle>,
    i: int,
    geom: (u16, u16),
    timestamp: u32,
)
    requires
        0 <= i < boxes.len(),
        o.level < 0x80,
    ensures
        ({
            let b = o.event(boxes, i, boxes.len() as int, geom, timestamp);
            &&& b.len() == 32
            &&& b[0] == DAMAGE_FIRST_EVENT
            &&& b[1] % 0x80 == o.level
            &&& b[1] >= 0x80 <==> i < boxes.len() - 1
            &&& wire::u32_at(b, 4) == o.drawable
            &&& wire::u32_at(b, 8) == o.id
            &&& wire::u32_at(b, 12) == timestamp
            &&& wire::rect_at(b, 16) == boxes[i]
            &&& wire::rect_at(b, 24) == (Rectangle { x: 0, y: 0, width: geom.0, height: geom.1 })
        }),
{
    let level = o.level;
    let more = if i + 1 < boxes.len() {
        level | MORE
    } else {
        level
    };
    assert((level | 0x80u8) % 0x80 == level && (level | 0x80u8) >= 0x80) by (bit_vector)
        requires
            level < 0x80,
    ;
    body::law_damage_fields(DAMAGE_FIRST_EVENT, more, o.drawable, o.id, timestamp, boxes[i], screen_rect(geom));
}

} // verus!
