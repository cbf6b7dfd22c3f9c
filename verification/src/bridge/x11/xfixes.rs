//! XFixes regions: lists of rectangles by id.

use crate::util::geometry;
use crate::util::geometry::Rectangle;
use std::collections::HashMap;
use vstd::prelude::*;

verus! {

broadcast use vstd::std_specs::hash::group_hash_axioms;

/// The regions of a connection.
pub struct Regions {
    map: HashMap<u32, Vec<Rectangle>>,
}

impl View for Regions {
    type V = Map<u32, Seq<Rectangle>>;

    closed spec fn view(&self) -> Map<u32, Seq<Rectangle>> {
        Map::new(|k: u32| self.map@.dom().contains(k), |k: u32| self.map@[k]@)
    }
}

/// The rectangles of a region, none for one that is not known.
pub open spec fn region(m: Map<u32, Seq<Rectangle>>, id: u32) -> Seq<Rectangle> {
    if m.dom().contains(id) {
        m[id]
    } else {
        Seq::empty()
    }
}

/// The bounding box as a region: one rectangle, or none round nothing.
pub open spec fn extents_of(rects: Seq<Rectangle>) -> Seq<Rectangle> {
    match geometry::bounds(rects) {
        Some((x1, y1, x2, y2)) => seq![
            (Rectangle {
                x: geometry::wrap_i16(x1) as i16,
                y: geometry::wrap_i16(y1) as i16,
                width: geometry::wrap_u16(x2 - x1) as u16,
                height: geometry::wrap_u16(y2 - y1) as u16,
            }),
        ],
        None => Seq::empty(),
    }
}

impl Default for Regions {
    fn default() -> (r: Self)
        ensures
            r@ == Map::<u32, Seq<Rectangle>>::empty(),
    {
        let r = Regions { map: HashMap::new() };
        assert(r@ =~= Map::empty());
        r
    }
}

/// A copy of the rectangles.
pub fn copy_rects(a: &Vec<Rectangle>) -> (v: Vec<Rectangle>)
    ensures
        v@ == a@,
{
    let mut v: Vec<Rectangle> = Vec::new();
    let mut i: usize = 0;
    while i < a.len()
        invariant
            i <= a.len(),
            v@ == a@.take(i as int),
        decreases a.len() - i,
    {
        v.push(a[i]);
        assert(a@.take(i as int).push(a@[i as int]) =~= a@.take(i as int + 1));
        i += 1;
    }
    assert(a@.take(i as int) =~= a@);
    v
}

impl Regions {
    pub fn set(&mut self, id: u32, rects: Vec<Rectangle>)
        ensures
            final(self)@ == old(self)@.insert(id, rects@),
    {
        let ghost m0 = self@;
        self.map.insert(id, rects);
        assert(self@ =~= m0.insert(id, rects@));
    }

    pub fn destroy(&mut self, id: u32)
        ensures
            final(self)@ == old(self)@.remove(id),
    {
        let ghost m0 = self@;
        self.map.remove(&id);
        assert(self@ =~= m0.remove(id));
    }

    pub fn get(&self, id: u32) -> (v: Vec<Rectangle>)
        ensures
            v@ == region(self@, id),
    {
        match self.map.get(&id) {
            Some(r) => copy_rects(r),
            None => Vec::new(),
        }
    }

    pub fn copy(&mut self, source: u32, destination: u32)
        ensures
            final(self)@ == old(self)@.insert(destination, region(old(self)@, source)),
    {
        let src = self.get(source);
        self.set(destination, src);
    }

    /// Store the bounding box of `source` as `destination` (empty if `source`
    /// is empty/unknown).
    pub fn extents(&mut self, source: u32, destination: u32)
        ensures
            final(self)@ == old(self)@.insert(destination, extents_of(region(old(self)@, source))),
    {
        let src = self.get(source);
        let mut v: Vec<Rectangle> = Vec::new();
        if let Some(b) = geometry::bbox(src.as_slice()) {
            v.push(b);
        }
        assert(v@ =~= extents_of(src@));
        self.set(destination, v);
    }
}

/// A copied region has the rectangles of its source, and the source keeps them.
pub proof fn law_copies_agree(m: Map<u32, Seq<Rectangle>>, source: u32, destination: u32)
    ensures
        region(m.insert(destination, region(m, source)), destination) == region(m, source),
        region(m.insert(destination, region(m, source)), source) == region(m, source),
{
}

/// The extents of a region hold each of its pixels, in one rectangle, where that fits the
/// protocol; those of an empty one are empty.
pub proof fn law_extents_hold_the_region(rects: Seq<Rectangle>, i: int, x: int, y: int)
    requires
        0 <= i < rects.len(),
        rects[i].holds(x, y),
        geometry::bounds(rects) matches Some((x1, y1, x2, y2)) ==> x2 - x1 <= 0xffff && y2 - y1 <= 0xffff && -0x8000 <= x1
            <= 0x7fff && -0x8000 <= y1 <= 0x7fff,
    ensures
        extents_of(rects).len() == 1,
        extents_of(rects)[0].holds(x, y),
        extents_of(Seq::empty()).len() == 0,
{
    geometry::law_bounds_hold_every_rectangle(rects, i, x, y);
}

} // verus!
