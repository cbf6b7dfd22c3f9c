//! Output coordinate mapping between the physical (X-tiled) screen and the
//! compositor's logical space.
//!
//! The X screen tiles each output's native-resolution capture buffer at a
//! physical position; the compositor's virtual pointer, however, wants absolute
//! motion in *logical* coordinates so it lands correctly under (possibly mixed or
//! fractional) output scaling. [`Layout`] pairs each output's physical and logical
//! rectangles and maps a physical point back into logical space.

use crate::util::geometry;
use crate::util::list;
use vstd::prelude::*;

verus! {

/// A single output's physical (X-screen) rect and logical (compositor) rect.
#[derive(Clone, Copy, PartialEq, Eq, Structural, Debug)]
pub struct OutputRect {
    pub px: i32,
    pub py: i32,
    pub pw: i32,
    pub ph: i32,
    pub lx: i32,
    pub ly: i32,
    pub lw: i32,
    pub lh: i32,
}

/// The least value of the list, `None` if it is empty.
pub open spec fn least(s: Seq<int>) -> Option<int>
    decreases s.len(),
{
    if s.len() == 0 {
        None
    } else {
        match least(s.drop_last()) {
            None => Some(s.last()),
            Some(m) => Some(geometry::min_of(m, s.last())),
        }
    }
}

/// The greatest value of the list, `None` if it is empty.
pub open spec fn greatest(s: Seq<int>) -> Option<int>
    decreases s.len(),
{
    if s.len() == 0 {
        None
    } else {
        match greatest(s.drop_last()) {
            None => Some(s.last()),
            Some(m) => Some(geometry::max_of(m, s.last())),
        }
    }
}

/// The value nearest to `v` in `lo..=hi`.
pub open spec fn clamped(v: int, lo: int, hi: int) -> int {
    if v < lo {
        lo
    } else if v > hi {
        hi
    } else {
        v
    }
}

/// Division that rounds towards zero.
pub open spec fn trunc_div(a: int, b: int) -> int {
    if a >= 0 {
        a / b
    } else {
        -((-a) / b)
    }
}

impl OutputRect {
    /// Whether the physical rectangle has the point.
    pub open spec fn has_point(self, x: int, y: int) -> bool {
        self.px <= x < self.px + self.pw && self.py <= y < self.py + self.ph
    }

    /// The square of the distance from the point to the physical rectangle.
    pub open spec fn distance2(self, x: int, y: int) -> int {
        let dx = x - clamped(x, self.px as int, self.px + self.pw - 1);
        let dy = y - clamped(y, self.py as int, self.py + self.ph - 1);
        dx * dx + dy * dy
    }
}

/// The outputs that have the point.
pub open spec fn having(x: int, y: int) -> spec_fn(OutputRect) -> bool {
    |o: OutputRect| o.has_point(x, y)
}

/// The first output that is nearest to the point.
pub open spec fn nearest(outputs: Seq<OutputRect>, x: int, y: int) -> int
    decreases outputs.len(),
{
    if outputs.len() <= 1 {
        0
    } else {
        let n = nearest(outputs.drop_last(), x, y);
        if outputs.last().distance2(x, y) < outputs[n].distance2(x, y) {
            outputs.len() - 1
        } else {
            n
        }
    }
}

/// The output that a point belongs to: the first one that has it, else (a gap below
/// a shorter output, or out of bounds) the nearest.
pub open spec fn output_for(outputs: Seq<OutputRect>, x: int, y: int) -> int {
    match list::first_index(outputs, having(x, y)) {
        Some(i) => i,
        None => nearest(outputs, x, y),
    }
}

/// Where `p` of a span of `plen` from `base` on lands in a span of `llen`.
pub open spec fn scaled(p: int, base: int, plen: int, llen: int) -> int {
    let n = geometry::max_of(plen, 1);
    trunc_div(clamped(p - base, 0, n - 1) * llen, n)
}

/// The per-output rects plus the logical bounding box (origin + size) of all
/// outputs.
pub struct Layout {
    outputs: Vec<OutputRect>,
    ox: i32,
    oy: i32,
    ow: i32,
    oh: i32,
}

impl Layout {
    pub closed spec fn rects(self) -> Seq<OutputRect> {
        self.outputs@
    }

    /// The logical bounding box: origin and size.
    pub closed spec fn logical_box(self) -> (int, int, int, int) {
        (self.ox as int, self.oy as int, self.ow as int, self.oh as int)
    }

    /// The logical bounding box of a list of outputs; it is at least one pixel wide
    /// and high.
    pub open spec fn box_of(outputs: Seq<OutputRect>) -> (int, int, int, int) {
        let ox = least(outputs.map_values(|o: OutputRect| o.lx as int))->0;
        let oy = least(outputs.map_values(|o: OutputRect| o.ly as int))->0;
        let mx = greatest(outputs.map_values(|o: OutputRect| o.lx + o.lw))->0;
        let my = greatest(outputs.map_values(|o: OutputRect| o.ly + o.lh))->0;
        (ox, oy, geometry::max_of(mx - ox, 1), geometry::max_of(my - oy, 1))
    }

    pub closed spec fn wf(self) -> bool {
        self.outputs@.len() > 0 && self.logical_box() == Self::box_of(self.outputs@)
    }

    /// The bounding box of a layout is that of its outputs.
    pub proof fn lemma_box(&self)
        requires
            self.wf(),
        ensures
            self.logical_box() == Self::box_of(self.rects()),
            self.rects().len() > 0,
    {
    }

    /// The logical bounding box of outputs: its origin and its size.
    pub fn bounds(outputs: &Vec<OutputRect>) -> (r: (i32, i32, i64, i64))
        requires
            outputs@.len() > 0,
        ensures
            (r.0 as int, r.1 as int, r.2 as int, r.3 as int) == Self::box_of(outputs@),
    {
        let ghost lxs = outputs@.map_values(|o: OutputRect| o.lx as int);
        let ghost lys = outputs@.map_values(|o: OutputRect| o.ly as int);
        let ghost rxs = outputs@.map_values(|o: OutputRect| o.lx + o.lw);
        let ghost rys = outputs@.map_values(|o: OutputRect| o.ly + o.lh);
        let mut ox: i32 = outputs[0].lx;
        let mut oy: i32 = outputs[0].ly;
        let mut mx: i64 = outputs[0].lx as i64 + outputs[0].lw as i64;
        let mut my: i64 = outputs[0].ly as i64 + outputs[0].lh as i64;
        let mut i: usize = 1;
        proof {
            reveal_with_fuel(least, 2);
            reveal_with_fuel(greatest, 2);
            assert(lxs.take(1).drop_last() =~= Seq::empty());
            assert(lys.take(1).drop_last() =~= Seq::empty());
            assert(rxs.take(1).drop_last() =~= Seq::empty());
            assert(rys.take(1).drop_last() =~= Seq::empty());
        }
        while i < outputs.len()
            invariant
                1 <= i <= outputs.len(),
                lxs == outputs@.map_values(|o: OutputRect| o.lx as int),
                lys == outputs@.map_values(|o: OutputRect| o.ly as int),
                rxs == outputs@.map_values(|o: OutputRect| o.lx + o.lw),
                rys == outputs@.map_values(|o: OutputRect| o.ly + o.lh),
                least(lxs.take(i as int)) == Some(ox as int),
                least(lys.take(i as int)) == Some(oy as int),
                greatest(rxs.take(i as int)) == Some(mx as int),
                greatest(rys.take(i as int)) == Some(my as int),
                -0x1_0000_0000 <= mx <= 0x1_0000_0000,
                -0x1_0000_0000 <= my <= 0x1_0000_0000,
            decreases outputs.len() - i,
        {
            proof {
                assert(lxs.take(i as int + 1).drop_last() =~= lxs.take(i as int));
                assert(lys.take(i as int + 1).drop_last() =~= lys.take(i as int));
                assert(rxs.take(i as int + 1).drop_last() =~= rxs.take(i as int));
                assert(rys.take(i as int + 1).drop_last() =~= rys.take(i as int));
            }
            let o = outputs[i];
            let rx: i64 = o.lx as i64 + o.lw as i64;
            let ry: i64 = o.ly as i64 + o.lh as i64;
            if o.lx < ox {
                ox = o.lx;
            }
            if o.ly < oy {
                oy = o.ly;
            }
            if rx > mx {
                mx = rx;
            }
            if ry > my {
                my = ry;
            }
            i += 1;
        }
        proof {
            assert(lxs.take(i as int) =~= lxs);
            assert(lys.take(i as int) =~= lys);
            assert(rxs.take(i as int) =~= rxs);
            assert(rys.take(i as int) =~= rys);
        }
        let w: i64 = mx - ox as i64;
        let h: i64 = my - oy as i64;
        (ox, oy, if w > 1 { w } else { 1 }, if h > 1 { h } else { 1 })
    }

    /// Creates a layout from a list of output rects, or returns None if empty.
    pub fn new(outputs: Vec<OutputRect>) -> (l: Option<Self>)
        requires
            outputs@.len() > 0 ==> Self::box_of(outputs@).2 <= i32::MAX && Self::box_of(outputs@).3 <= i32::MAX,
        ensures
            l is Some <==> outputs@.len() > 0,
            l matches Some(l) ==> l.wf() && l.rects() == outputs@ && l.logical_box() == Self::box_of(outputs@),
    {
        if outputs.len() == 0 {
            return None;
        }
        let (ox, oy, ow, oh) = Self::bounds(&outputs);
        Some(Layout { outputs, ox, oy, ow: ow as i32, oh: oh as i32 })
    }

    /// Converts a physical X-screen point to `(value_x, value_y, extent_x,
    /// extent_y)` in the compositor's logical space, normalised to the logical
    /// bounding-box origin.
    pub fn to_logical(&self, x: i16, y: i16) -> (r: Option<(u32, u32, u32, u32)>)
        requires
            self.wf(),
            list::first_index(self.rects(), having(x as int, y as int)) is None ==> forall|i: int|
                0 <= i < self.rects().len() ==> (#[trigger] self.rects()[i]).pw > 0 && self.rects()[i].ph > 0,
        ensures
            ({
                let o = self.rects()[output_for(self.rects(), x as int, y as int)];
                let (ox, oy, ow, oh) = self.logical_box();
                &&& 0 <= output_for(self.rects(), x as int, y as int) < self.rects().len()
                &&& r matches Some(v) && {
                    &&& v.0 == clamped(o.lx + scaled(x as int, o.px as int, o.pw as int, o.lw as int) - ox, 0, ow)
                    &&& v.1 == clamped(o.ly + scaled(y as int, o.py as int, o.ph as int, o.lh as int) - oy, 0, oh)
                    &&& v.2 == ow
                    &&& v.3 == oh
                }
            }),
    {
        let k: usize = self.pick(x, y);
        let o = self.outputs[k];
        let gx: i64 = o.lx as i64 + scale(x as i64, o.px, o.pw, o.lw) - self.ox as i64;
        let gy: i64 = o.ly as i64 + scale(y as i64, o.py, o.ph, o.lh) - self.oy as i64;
        let vx: i64 = if gx < 0 { 0 } else if gx > self.ow as i64 { self.ow as i64 } else { gx };
        let vy: i64 = if gy < 0 { 0 } else if gy > self.oh as i64 { self.oh as i64 } else { gy };
        Some((vx as u32, vy as u32, self.ow as u32, self.oh as u32))
    }

    /// Whether the point has an output to go to: one that has it, or the nearest of
    /// outputs that all have pixels.
    pub fn resolves(&self, x: i16, y: i16) -> (b: bool)
        requires
            self.wf(),
        ensures
            b == (list::first_index(self.rects(), having(x as int, y as int)) is Some || forall|i: int|
                0 <= i < self.rects().len() ==> (#[trigger] self.rects()[i]).pw > 0 && self.rects()[i].ph > 0),
    {
        let px: i64 = x as i64;
        let py: i64 = y as i64;
        let mut full = true;
        let mut i: usize = 0;
        while i < self.outputs.len()
            invariant
                i <= self.outputs.len(),
                px == x,
                py == y,
                forall|j: int| 0 <= j < i ==> !having(x as int, y as int)(#[trigger] self.outputs@[j]),
                full == forall|j: int| 0 <= j < i ==> (#[trigger] self.outputs@[j]).pw > 0 && self.outputs@[j].ph > 0,
            decreases self.outputs.len() - i,
        {
            let o = self.outputs[i];
            if px >= o.px as i64 && px < o.px as i64 + o.pw as i64 && py >= o.py as i64 && py < o.py as i64
                + o.ph as i64 {
                proof {
                    list::lemma_first_index_is(self.outputs@, having(x as int, y as int), i as int);
                }
                return true;
            }
            if o.pw <= 0 || o.ph <= 0 {
                assert(!(self.outputs@[i as int].pw > 0 && self.outputs@[i as int].ph > 0));
                full = false;
            }
            i += 1;
        }
        proof {
            list::lemma_first_index_none(self.outputs@, having(x as int, y as int));
        }
        full
    }

    /// The index of the output that the point belongs to.
    fn pick(&self, x: i16, y: i16) -> (k: usize)
        requires
            self.wf(),
            list::first_index(self.rects(), having(x as int, y as int)) is None ==> forall|i: int|
                0 <= i < self.rects().len() ==> (#[trigger] self.rects()[i]).pw > 0 && self.rects()[i].ph > 0,
        ensures
            k == output_for(self.rects(), x as int, y as int),
            k < self.rects().len(),
    {
        let px: i64 = x as i64;
        let py: i64 = y as i64;
        let mut i: usize = 0;
        while i < self.outputs.len()
            invariant
                i <= self.outputs.len(),
                px == x,
                py == y,
                forall|j: int| 0 <= j < i ==> !having(x as int, y as int)(#[trigger] self.outputs@[j]),
            decreases self.outputs.len() - i,
        {
            let o = self.outputs[i];
            if px >= o.px as i64 && px < o.px as i64 + o.pw as i64 && py >= o.py as i64 && py < o.py as i64
                + o.ph as i64 {
                proof {
                    list::lemma_first_index_is(self.outputs@, having(x as int, y as int), i as int);
                }
                return i;
            }
            i += 1;
        }
        proof {
            list::lemma_first_index_none(self.outputs@, having(x as int, y as int));
        }
        let mut best: usize = 0;
        let mut least: i128 = distance2(&self.outputs[0], px, py);
        let mut i: usize = 1;
        while i < self.outputs.len()
            invariant
                1 <= i <= self.outputs.len(),
                self.outputs.len() > 0,
                px == x,
                py == y,
                best < i,
                best == nearest(self.outputs@.take(i as int), x as int, y as int),
                least == self.outputs@[best as int].distance2(x as int, y as int),
            decreases self.outputs.len() - i,
        {
            assert(self.outputs@.take(i as int + 1).drop_last() =~= self.outputs@.take(i as int));
            let d: i128 = distance2(&self.outputs[i], px, py);
            if d < least {
                least = d;
                best = i;
            }
            i += 1;
        }
        assert(self.outputs@.take(i as int) =~= self.outputs@);
        best
    }
}

/// The square of the distance from the point to the output's physical rectangle.
fn distance2(o: &OutputRect, x: i64, y: i64) -> (d: i128)
    requires
        i16::MIN <= x <= i16::MAX,
        i16::MIN <= y <= i16::MAX,
    ensures
        d == o.distance2(x as int, y as int),
{
    let dx: i128 = (x - clamp(x, o.px as i64, o.px as i64 + o.pw as i64 - 1)) as i128;
    let dy: i128 = (y - clamp(y, o.py as i64, o.py as i64 + o.ph as i64 - 1)) as i128;
    assert(0 <= dx * dx <= 0x2_0000_0000 * 0x2_0000_0000) by (nonlinear_arith)
        requires
            -0x2_0000_0000 <= dx <= 0x2_0000_0000,
    ;
    assert(0 <= dy * dy <= 0x2_0000_0000 * 0x2_0000_0000) by (nonlinear_arith)
        requires
            -0x2_0000_0000 <= dy <= 0x2_0000_0000,
    ;
    dx * dx + dy * dy
}

fn clamp(v: i64, lo: i64, hi: i64) -> (r: i64)
    ensures
        r == clamped(v as int, lo as int, hi as int),
{
    if v < lo {
        lo
    } else if v > hi {
        hi
    } else {
        v
    }
}

/// Local physical offset to local logical offset (`llen / plen` is one over the
/// scale).
fn scale(p: i64, base: i32, plen: i32, llen: i32) -> (r: i64)
    requires
        i16::MIN <= p <= i16::MAX,
    ensures
        r == scaled(p as int, base as int, plen as int, llen as int),
        -0x8000_0000 <= r <= 0x8000_0000,
{
    let n: i64 = if plen > 1 { plen as i64 } else { 1 };
    let c: i64 = clamp(p - base as i64, 0, n - 1);
    if llen >= 0 {
        proof {
            lemma_scaled(c as int, n as int, llen as int);
        }
        c * llen as i64 / n
    } else {
        let l: i64 = 0 - llen as i64;
        proof {
            lemma_scaled(c as int, n as int, l as int);
            assert(c * llen == -(c * l)) by (nonlinear_arith)
                requires
                    l == -llen,
            ;
            assert(0int / n as int == 0) by (nonlinear_arith)
                requires
                    n > 0,
            ;
        }
        0 - c * l / n
    }
}

proof fn lemma_scaled(c: int, n: int, l: int)
    by (nonlinear_arith)
    requires
        0 <= c < n <= 0x8000_0000,
        0 <= l <= 0x8000_0000,
    ensures
        0 <= c * l <= 0x8000_0000 * 0x8000_0000,
        0 <= (c * l) / n <= l,
{
}

/// A point inside an unscaled output moves by the output's offset alone.
pub proof fn law_unscaled_points_shift(o: OutputRect, x: int, y: int)
    requires
        o.has_point(x, y),
        o.lw == o.pw,
        o.lh == o.ph,
    ensures
        o.lx + scaled(x, o.px as int, o.pw as int, o.lw as int) == o.lx + (x - o.px),
        o.ly + scaled(y, o.py as int, o.ph as int, o.lh as int) == o.ly + (y - o.py),
{
    lemma_exact(x - o.px, o.pw as int);
    lemma_exact(y - o.py, o.ph as int);
}

proof fn lemma_exact(c: int, n: int)
    by (nonlinear_arith)
    requires
        0 <= c,
        0 < n,
    ensures
        (c * n) / n == c,
        0 <= c * n,
{
}

/// A point inside a scaled output lands inside its logical rectangle.
pub proof fn law_points_land_in_their_output(o: OutputRect, x: int, y: int)
    requires
        o.has_point(x, y),
        o.lw > 0,
        o.lh > 0,
    ensures
        0 <= scaled(x, o.px as int, o.pw as int, o.lw as int) < o.lw,
        0 <= scaled(y, o.py as int, o.ph as int, o.lh as int) < o.lh,
{
    lemma_within(x - o.px, o.pw as int, o.lw as int);
    lemma_within(y - o.py, o.ph as int, o.lh as int);
}

proof fn lemma_within(c: int, n: int, l: int)
    by (nonlinear_arith)
    requires
        0 <= c < n,
        0 < l,
    ensures
        0 <= c * l,
        0 <= (c * l) / n < l,
{
}

/// The nearest output is at least as near as every other.
pub proof fn law_nearest_is_nearest(outputs: Seq<OutputRect>, x: int, y: int, i: int)
    requires
        0 <= i < outputs.len(),
    ensures
        0 <= nearest(outputs, x, y) < outputs.len(),
        outputs[nearest(outputs, x, y)].distance2(x, y) <= outputs[i].distance2(x, y),
    decreases outputs.len(),
{
    if outputs.len() > 1 {
        if i < outputs.len() - 1 {
            law_nearest_is_nearest(outputs.drop_last(), x, y, i);
        } else {
            law_nearest_is_nearest(outputs.drop_last(), x, y, 0);
        }
    }
}

/// A point that an output has goes to the first one that has it; any other goes to one
/// of the nearest.
pub proof fn law_points_go_to_the_output_that_has_them(outputs: Seq<OutputRect>, x: int, y: int, i: int)
    requires
        0 <= i < outputs.len(),
    ensures
        ({
            let k = output_for(outputs, x, y);
            &&& 0 <= k < outputs.len()
            &&& outputs[i].px <= x < outputs[i].px + outputs[i].pw && outputs[i].py <= y < outputs[i].py + outputs[i].ph
                ==> k <= i && outputs[k].px <= x < outputs[k].px + outputs[k].pw && outputs[k].py <= y < outputs[k].py
                + outputs[k].ph
            &&& !having(x, y)(outputs[k]) ==> outputs[k].distance2(x, y) <= outputs[i].distance2(x, y)
        }),
{
    list::lemma_first_index(outputs, having(x, y));
    law_nearest_is_nearest(outputs, x, y, i);
    if having(x, y)(outputs[i]) {
        let k = list::first_index(outputs, having(x, y))->0;
        assert(having(x, y)(outputs[k]));
    }
}

/// The distance to an output is that to the nearest of its pixels, and none to one that
/// has the point.
pub proof fn law_distance_is_to_the_nearest_pixel(o: OutputRect, x: int, y: int, qx: int, qy: int)
    requires
        o.has_point(qx, qy),
    ensures
        o.distance2(x, y) <= (x - qx) * (x - qx) + (y - qy) * (y - qy),
        o.has_point(x, y) ==> o.distance2(x, y) == 0,
        exists|a: int, b: int| o.has_point(a, b) && o.distance2(x, y) == #[trigger] ((x - a) * (x - a)) + #[trigger] ((y
            - b) * (y - b)),
{
    let a = clamped(x, o.px as int, o.px + o.pw - 1);
    let b = clamped(y, o.py as int, o.py + o.ph - 1);
    assert(o.has_point(a, b));
    let (dx, dy) = (x - a, y - b);
    assert(dx * dx <= (x - qx) * (x - qx)) by (nonlinear_arith)
        requires
            dx == 0 || (0 < dx <= x - qx) || (x - qx <= dx < 0),
    ;
    assert(dy * dy <= (y - qy) * (y - qy)) by (nonlinear_arith)
        requires
            dy == 0 || (0 < dy <= y - qy) || (y - qy <= dy < 0),
    ;
    assert(o.distance2(x, y) == (x - a) * (x - a) + (y - b) * (y - b));
    if o.has_point(x, y) {
        assert(dx == 0 && dy == 0);
        assert(dx * dx == 0 && dy * dy == 0) by (nonlinear_arith)
            requires
                dx == 0,
                dy == 0,
        ;
    }
}

/// A point keeps its proportion: it is as far into the logical length as it is into the
/// physical one, rounded down.
pub proof fn law_points_keep_their_proportion(p: int, base: int, plen: int, llen: int)
    requires
        base <= p < base + plen,
        0 <= llen,
    ensures
        scaled(p, base, plen, llen) * plen <= (p - base) * llen < (scaled(p, base, plen, llen) + 1) * plen,
{
    let c = p - base;
    assert(clamped(c, 0, plen - 1) == c);
    assert(0 <= c * llen) by (nonlinear_arith)
        requires
            0 <= c,
            0 <= llen,
    ;
    let q = (c * llen) / plen;
    assert(q * plen <= c * llen < (q + 1) * plen) by (nonlinear_arith)
        requires
            q == (c * llen) / plen,
            plen > 0,
    ;
}

proof fn lemma_extremes(s: Seq<int>)
    requires
        s.len() > 0,
    ensures
        least(s) matches Some(m) && s.contains(m) && forall|i: int| 0 <= i < s.len() ==> m <= #[trigger] s[i],
        greatest(s) matches Some(m) && s.contains(m) && forall|i: int| 0 <= i < s.len() ==> #[trigger] s[i] <= m,
    decreases s.len(),
{
    let r = s.drop_last();
    assert(s.contains(s.last())) by {
        assert(s[s.len() - 1] == s.last());
    }
    if r.len() > 0 {
        lemma_extremes(r);
        let (a, b) = (r.index_of(least(r)->0), r.index_of(greatest(r)->0));
        assert(s[a] == least(r)->0 && s[b] == greatest(r)->0);
        assert(forall|i: int| 0 <= i < r.len() ==> r[i] == s[i]);
    } else {
        reveal_with_fuel(least, 2);
        reveal_with_fuel(greatest, 2);
    }
}

/// The logical box holds the logical rectangle of every output, and begins where the
/// first of them begins, on each axis.
pub proof fn law_box_holds_the_outputs(outputs: Seq<OutputRect>, i: int)
    requires
        0 <= i < outputs.len(),
    ensures
        ({
            let (ox, oy, ow, oh) = Layout::box_of(outputs);
            &&& ox <= outputs[i].lx && outputs[i].lx + outputs[i].lw <= ox + ow
            &&& oy <= outputs[i].ly && outputs[i].ly + outputs[i].lh <= oy + oh
            &&& exists|k: int| 0 <= k < outputs.len() && (#[trigger] outputs[k]).lx == ox
            &&& exists|k: int| 0 <= k < outputs.len() && (#[trigger] outputs[k]).ly == oy
            &&& ow > 1 ==> exists|k: int| 0 <= k < outputs.len() && (#[trigger] outputs[k]).lx + outputs[k].lw == ox + ow
            &&& oh > 1 ==> exists|k: int| 0 <= k < outputs.len() && (#[trigger] outputs[k]).ly + outputs[k].lh == oy + oh
        }),
{
    let lxs = outputs.map_values(|o: OutputRect| o.lx as int);
    let lys = outputs.map_values(|o: OutputRect| o.ly as int);
    let rxs = outputs.map_values(|o: OutputRect| o.lx + o.lw);
    let rys = outputs.map_values(|o: OutputRect| o.ly + o.lh);
    lemma_extremes(lxs);
    lemma_extremes(lys);
    lemma_extremes(rxs);
    lemma_extremes(rys);
    assert(lxs[i] == outputs[i].lx && lys[i] == outputs[i].ly);
    assert(rxs[i] == outputs[i].lx + outputs[i].lw && rys[i] == outputs[i].ly + outputs[i].lh);
    let a = lxs.index_of(least(lxs)->0);
    let b = lys.index_of(least(lys)->0);
    let c = rxs.index_of(greatest(rxs)->0);
    let d = rys.index_of(greatest(rys)->0);
    assert(outputs[a].lx == least(lxs)->0);
    assert(outputs[b].ly == least(lys)->0);
    assert(outputs[c].lx + outputs[c].lw == greatest(rxs)->0);
    assert(outputs[d].ly + outputs[d].lh == greatest(rys)->0);
}

} // verus!
