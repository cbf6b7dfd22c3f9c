//! What is left of rectangles without others.

use crate::util::geometry;
use crate::util::geometry::Rectangle;
use vstd::prelude::*;

verus! {

/// Whether pixel `(x, y)` is in one of the rectangles.
pub open spec fn covered(rects: Seq<Rectangle>, x: int, y: int) -> bool {
    exists|i: int| 0 <= i < rects.len() && (#[trigger] rects[i]).holds(x, y)
}

/// A rectangle can start at every pixel of this one: the protocol has 16 bits for a
/// corner, and its rectangles can reach beyond.
pub open spec fn fits(r: Rectangle) -> bool {
    r.x + r.width <= 0x8000 && r.y + r.height <= 0x8000
}

/// The rectangle between two corners, unless it is empty.
pub open spec fn strip(x1: int, y1: int, x2: int, y2: int) -> Seq<Rectangle> {
    if x1 < x2 && y1 < y2 {
        seq![(Rectangle { x: x1 as i16, y: y1 as i16, width: (x2 - x1) as u16, height: (y2 - y1) as u16 })]
    } else {
        Seq::empty()
    }
}

/// One rectangle without another: what is above, below, left and right of it. One that
/// does not fit is kept whole, unless nothing is left of it.
pub open spec fn cut(r: Rectangle, s: Rectangle) -> Seq<Rectangle> {
    let (rx2, ry2) = (r.x + r.width, r.y + r.height);
    let x1 = geometry::max_of(r.x as int, s.x as int);
    let y1 = geometry::max_of(r.y as int, s.y as int);
    let x2 = geometry::min_of(rx2, s.x + s.width);
    let y2 = geometry::min_of(ry2, s.y + s.height);
    if x1 >= x2 || y1 >= y2 {
        seq![r]
    } else if x1 == r.x && y1 == r.y && x2 == rx2 && y2 == ry2 {
        Seq::empty()
    } else if !fits(r) {
        seq![r]
    } else {
        strip(r.x as int, r.y as int, rx2, y1) + strip(r.x as int, y2, rx2, ry2) + strip(r.x as int, y1, x1, y2)
            + strip(x2, y1, rx2, y2)
    }
}

/// Each of the rectangles without another.
pub open spec fn cut_all(rects: Seq<Rectangle>, s: Rectangle) -> Seq<Rectangle>
    decreases rects.len(),
{
    if rects.len() == 0 {
        Seq::empty()
    } else {
        cut_all(rects.drop_last(), s) + cut(rects.last(), s)
    }
}

/// The rectangles without those of a region.
pub open spec fn difference(rects: Seq<Rectangle>, region: Seq<Rectangle>) -> Seq<Rectangle>
    decreases region.len(),
{
    if region.len() == 0 {
        rects
    } else {
        cut_all(difference(rects, region.drop_last()), region.last())
    }
}

fn push_strip(out: &mut Vec<Rectangle>, x1: i32, y1: i32, x2: i32, y2: i32)
    requires
        x1 < x2 && y1 < y2 ==> -0x8000 <= x1 < 0x8000 && -0x8000 <= y1 < 0x8000 && x2 - x1 <= 0xffff && y2 - y1
            <= 0xffff,
    ensures
        final(out)@ == old(out)@ + strip(x1 as int, y1 as int, x2 as int, y2 as int),
{
    if x1 < x2 && y1 < y2 {
        out.push(Rectangle { x: x1 as i16, y: y1 as i16, width: (x2 - x1) as u16, height: (y2 - y1) as u16 });
    }
    assert(out@ =~= old(out)@ + strip(x1 as int, y1 as int, x2 as int, y2 as int));
}

fn push_cut(out: &mut Vec<Rectangle>, r: Rectangle, s: Rectangle)
    ensures
        final(out)@ == old(out)@ + cut(r, s),
{
    let ghost o0 = out@;
    let (rx, ry, rx2, ry2): (i32, i32, i32, i32) = (
        r.x as i32,
        r.y as i32,
        r.x as i32 + r.width as i32,
        r.y as i32 + r.height as i32,
    );
    let x1: i32 = if s.x > r.x { s.x as i32 } else { rx };
    let y1: i32 = if s.y > r.y { s.y as i32 } else { ry };
    let sx2: i32 = s.x as i32 + s.width as i32;
    let sy2: i32 = s.y as i32 + s.height as i32;
    let x2: i32 = if sx2 < rx2 { sx2 } else { rx2 };
    let y2: i32 = if sy2 < ry2 { sy2 } else { ry2 };
    if x1 >= x2 || y1 >= y2 {
        out.push(r);
        assert(out@ =~= o0 + cut(r, s));
        return ;
    }
    if x1 == rx && y1 == ry && x2 == rx2 && y2 == ry2 {
        assert(out@ =~= o0 + cut(r, s));
        return ;
    }
    if rx2 > 0x8000 || ry2 > 0x8000 {
        out.push(r);
        assert(out@ =~= o0 + cut(r, s));
        return ;
    }
    push_strip(out, rx, ry, rx2, y1);
    push_strip(out, rx, y2, rx2, ry2);
    push_strip(out, rx, y1, x1, y2);
    push_strip(out, x2, y1, rx2, y2);
    assert(out@ =~= o0 + cut(r, s));
}

/// The rectangles without those of a region.
pub fn subtract(rects: &Vec<Rectangle>, region: &Vec<Rectangle>) -> (left: Vec<Rectangle>)
    ensures
        left@ == difference(rects@, region@),
{
    let mut left: Vec<Rectangle> = Vec::new();
    let mut k: usize = 0;
    assert(rects@.take(0) =~= left@);
    while k < rects.len()
        invariant
            k <= rects.len(),
            left@ == rects@.take(k as int),
        decreases rects.len() - k,
    {
        left.push(rects[k]);
        assert(rects@.take(k as int + 1) =~= rects@.take(k as int).push(rects@[k as int]));
        k += 1;
    }
    assert(rects@.take(k as int) =~= rects@);
    let mut i: usize = 0;
    assert(region@.take(0) =~= Seq::empty());
    while i < region.len()
        invariant
            i <= region.len(),
            left@ == difference(rects@, region@.take(i as int)),
        decreases region.len() - i,
    {
        let mut next: Vec<Rectangle> = Vec::new();
        let mut j: usize = 0;
        assert(left@.take(0) =~= Seq::empty());
        while j < left.len()
            invariant
                i < region.len(),
                j <= left.len(),
                next@ == cut_all(left@.take(j as int), region@[i as int]),
            decreases left.len() - j,
        {
            assert(left@.take(j as int + 1).drop_last() =~= left@.take(j as int));
            push_cut(&mut next, left[j], region[i]);
            j += 1;
        }
        assert(left@.take(j as int) =~= left@);
        assert(region@.take(i as int + 1).drop_last() =~= region@.take(i as int));
        left = next;
        i += 1;
    }
    assert(region@.take(i as int) =~= region@);
    left
}

/// A pixel of two lists is one of the first or of the second.
proof fn lemma_covered_join(a: Seq<Rectangle>, b: Seq<Rectangle>, x: int, y: int)
    ensures
        covered(a + b, x, y) == (covered(a, x, y) || covered(b, x, y)),
{
    if covered(a, x, y) {
        let i = choose|i: int| 0 <= i < a.len() && (#[trigger] a[i]).holds(x, y);
        assert((a + b)[i].holds(x, y));
    }
    if covered(b, x, y) {
        let i = choose|i: int| 0 <= i < b.len() && (#[trigger] b[i]).holds(x, y);
        assert((a + b)[a.len() + i].holds(x, y));
    }
    if covered(a + b, x, y) {
        let i = choose|i: int| 0 <= i < (a + b).len() && (#[trigger] (a + b)[i]).holds(x, y);
        if i < a.len() {
            assert(a[i].holds(x, y));
        } else {
            assert(b[i - a.len()].holds(x, y));
        }
    }
}

proof fn lemma_covered_one(r: Rectangle, x: int, y: int)
    ensures
        covered(seq![r], x, y) == r.holds(x, y),
{
    assert(seq![r][0] == r);
}

proof fn lemma_strip(x1: int, y1: int, x2: int, y2: int, x: int, y: int)
    requires
        x1 < x2 && y1 < y2 ==> -0x8000 <= x1 && x2 <= 0x8000 && -0x8000 <= y1 && y2 <= 0x8000 && x2 - x1 <= 0xffff
            && y2 - y1 <= 0xffff,
    ensures
        covered(strip(x1, y1, x2, y2), x, y) == (x1 <= x < x2 && y1 <= y < y2),
        forall|i: int| 0 <= i < strip(x1, y1, x2, y2).len() ==> fits(#[trigger] strip(x1, y1, x2, y2)[i]),
{
    if x1 < x2 && y1 < y2 {
        lemma_covered_one(strip(x1, y1, x2, y2)[0], x, y);
    }
}

proof fn lemma_cut(r: Rectangle, s: Rectangle, x: int, y: int)
    ensures
        r.holds(x, y) && !s.holds(x, y) ==> covered(cut(r, s), x, y),
        covered(cut(r, s), x, y) ==> r.holds(x, y),
        fits(r) ==> covered(cut(r, s), x, y) == (r.holds(x, y) && !s.holds(x, y)),
        fits(r) ==> forall|i: int| 0 <= i < cut(r, s).len() ==> fits(#[trigger] cut(r, s)[i]),
{
    let (rx2, ry2) = (r.x + r.width, r.y + r.height);
    let x1 = geometry::max_of(r.x as int, s.x as int);
    let y1 = geometry::max_of(r.y as int, s.y as int);
    let x2 = geometry::min_of(rx2, s.x + s.width);
    let y2 = geometry::min_of(ry2, s.y + s.height);
    lemma_covered_one(r, x, y);
    if x1 >= x2 || y1 >= y2 {
    } else if x1 == r.x && y1 == r.y && x2 == rx2 && y2 == ry2 {
        assert(!covered(Seq::empty(), x, y));
    } else if fits(r) {
        let a = strip(r.x as int, r.y as int, rx2, y1);
        let b = strip(r.x as int, y2, rx2, ry2);
        let c = strip(r.x as int, y1, x1, y2);
        let d = strip(x2, y1, rx2, y2);
        lemma_strip(r.x as int, r.y as int, rx2, y1, x, y);
        lemma_strip(r.x as int, y2, rx2, ry2, x, y);
        lemma_strip(r.x as int, y1, x1, y2, x, y);
        lemma_strip(x2, y1, rx2, y2, x, y);
        lemma_covered_join(a, b, x, y);
        lemma_covered_join(a + b, c, x, y);
        lemma_covered_join(a + b + c, d, x, y);
        assert forall|i: int| 0 <= i < cut(r, s).len() implies fits(#[trigger] cut(r, s)[i]) by {
            let n = a.len() as int;
            let m = n + b.len();
            let o = m + c.len();
            if i < n {
                assert(cut(r, s)[i] == a[i]);
            } else if i < m {
                assert(cut(r, s)[i] == b[i - n]);
            } else if i < o {
                assert(cut(r, s)[i] == c[i - m]);
            } else {
                assert(cut(r, s)[i] == d[i - o]);
            }
        }
    }
}

spec fn all_fit(rects: Seq<Rectangle>) -> bool {
    forall|i: int| 0 <= i < rects.len() ==> fits(#[trigger] rects[i])
}

proof fn lemma_cut_all(rects: Seq<Rectangle>, s: Rectangle, x: int, y: int)
    ensures
        covered(rects, x, y) && !s.holds(x, y) ==> covered(cut_all(rects, s), x, y),
        covered(cut_all(rects, s), x, y) ==> covered(rects, x, y),
        all_fit(rects) ==> all_fit(cut_all(rects, s)),
        all_fit(rects) ==> covered(cut_all(rects, s), x, y) == (covered(rects, x, y) && !s.holds(x, y)),
    decreases rects.len(),
{
    if rects.len() > 0 {
        let rest = rects.drop_last();
        let r = rects.last();
        lemma_cut_all(rest, s, x, y);
        lemma_cut(r, s, x, y);
        lemma_covered_join(cut_all(rest, s), cut(r, s), x, y);
        lemma_covered_join(rest, seq![r], x, y);
        lemma_covered_one(r, x, y);
        assert(rest + seq![r] =~= rects);
        if all_fit(rects) {
            assert forall|i: int| 0 <= i < rest.len() implies fits(#[trigger] rest[i]) by {
                assert(rest[i] == rects[i]);
            }
            assert(fits(rects[rects.len() - 1]));
            assert forall|i: int| 0 <= i < cut_all(rects, s).len() implies fits(#[trigger] cut_all(rects, s)[i]) by {
                let n = cut_all(rest, s).len() as int;
                if i < n {
                    assert(cut_all(rects, s)[i] == cut_all(rest, s)[i]);
                } else {
                    assert(cut_all(rects, s)[i] == cut(r, s)[i - n]);
                }
            }
        }
    }
}

/// Nothing is lost and nothing made up: every pixel that is in the rectangles and not in
/// the region is left, and only pixels of the rectangles are. Of rectangles that fit,
/// exactly those pixels are left.
pub proof fn law_difference_is_what_is_left(rects: Seq<Rectangle>, region: Seq<Rectangle>, x: int, y: int)
    ensures
        covered(rects, x, y) && !covered(region, x, y) ==> covered(difference(rects, region), x, y),
        covered(difference(rects, region), x, y) ==> covered(rects, x, y),
        (forall|i: int| 0 <= i < rects.len() ==> fits(#[trigger] rects[i])) ==> covered(
            difference(rects, region),
            x,
            y,
        ) == (covered(rects, x, y) && !covered(region, x, y)),
{
    lemma_difference(rects, region, x, y);
}

proof fn lemma_difference(rects: Seq<Rectangle>, region: Seq<Rectangle>, x: int, y: int)
    ensures
        covered(rects, x, y) && !covered(region, x, y) ==> covered(difference(rects, region), x, y),
        covered(difference(rects, region), x, y) ==> covered(rects, x, y),
        all_fit(rects) ==> all_fit(difference(rects, region)),
        all_fit(rects) ==> covered(difference(rects, region), x, y) == (covered(rects, x, y) && !covered(
            region,
            x,
            y,
        )),
    decreases region.len(),
{
    if region.len() > 0 {
        let rest = region.drop_last();
        lemma_difference(rects, rest, x, y);
        lemma_cut_all(difference(rects, rest), region.last(), x, y);
        lemma_covered_join(rest, seq![region.last()], x, y);
        lemma_covered_one(region.last(), x, y);
        assert(rest + seq![region.last()] =~= region);
    }
}

} // verus!
