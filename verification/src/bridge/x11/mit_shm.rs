//! The shared segments that a client attached with MIT-SHM.

use crate::util::geometry;
use std::collections::HashMap;
use vstd::prelude::*;

verus! {

broadcast use vstd::std_specs::hash::group_hash_axioms;

/// A segment that is attached.
#[derive(Clone, Copy, PartialEq, Eq, Structural, Debug)]
pub struct ShmSeg {
    pub size: usize,
}

/// The segments of a connection.
pub struct Shm {
    segments: HashMap<u32, ShmSeg>,
}

impl View for Shm {
    type V = Map<u32, ShmSeg>;

    closed spec fn view(&self) -> Map<u32, ShmSeg> {
        self.segments@
    }
}

impl Default for Shm {
    fn default() -> (s: Self)
        ensures
            s@ == Map::<u32, ShmSeg>::empty(),
    {
        Shm { segments: HashMap::new() }
    }
}

impl Shm {
    /// Records a segment that was attached.
    pub fn attach(&mut self, shmseg: u32, size: usize)
        ensures
            final(self)@ == old(self)@.insert(shmseg, ShmSeg { size }),
    {
        self.segments.insert(shmseg, ShmSeg { size });
    }

    /// Forgets a segment; returns whether there was one to detach.
    pub fn detach(&mut self, shmseg: u32) -> (there: bool)
        ensures
            there == old(self)@.dom().contains(shmseg),
            final(self)@ == old(self)@.remove(shmseg),
    {
        self.segments.remove(&shmseg).is_some()
    }

    pub fn segment(&self, shmseg: u32) -> (r: Option<ShmSeg>)
        ensures
            r is Some == self@.dom().contains(shmseg),
            r matches Some(s) ==> s == self@[shmseg],
    {
        match self.segments.get(&shmseg) {
            Some(s) => Some(*s),
            None => None,
        }
    }
}

/// Which bytes of a segment an image goes to: the first, and how many; an image that
/// does not fit is cut off.
pub open spec fn span(size: int, offset: int, image: int) -> (int, int) {
    let off = geometry::min_of(offset, size);
    (off, geometry::min_of(image, size - off))
}

/// Which bytes of `seg` the image of a `ShmGetImage` goes to.
pub fn image_span(seg: ShmSeg, offset: u32, width: u16, height: u16) -> (r: (usize, usize))
    ensures
        (r.0 as int, r.1 as int) == span(seg.size as int, offset as int, width * height * 4),
        r.0 + r.1 <= seg.size,
{
    let off: usize = if (offset as u64) < seg.size as u64 { offset as usize } else { seg.size };
    proof {
        assert(0 <= width * height <= 0xfffe_0001) by (nonlinear_arith)
            requires
                0 <= width <= 0xffff,
                0 <= height <= 0xffff,
        ;
    }
    let image: u64 = width as u64 * height as u64 * 4;
    let room: usize = seg.size - off;
    let n: usize = if image < room as u64 { image as usize } else { room };
    (off, n)
}

/// An image lands in the segment from its offset on, whole where there is room for it;
/// none of it lands outside.
pub proof fn law_images_stay_in_their_segment(size: int, offset: int, image: int)
    requires
        0 <= size,
        0 <= offset,
        0 <= image,
    ensures
        ({
            let (start, len) = span(size, offset, image);
            &&& 0 <= start && 0 <= len && start + len <= size
            &&& offset + image <= size ==> start == offset && len == image
            &&& len > 0 ==> start == offset
            &&& len == image || start + len == size
        }),
{
}

} // verus!
