//! Rectangles, sizes and units.

use crate::util::list;
use vstd::prelude::*;

verus! {

/// A rectangle of the X screen, as the protocol carries it.
#[derive(Clone, Copy, PartialEq, Eq, Structural, Debug)]
pub struct Rectangle {
    pub x: i16,
    pub y: i16,
    pub width: u16,
    pub height: u16,
}

impl Rectangle {
    /// Whether pixel `(x, y)` is inside.
    pub open spec fn holds(self, x: int, y: int) -> bool {
        self.x <= x < self.x + self.width && self.y <= y < self.y + self.height
    }

    /// A rectangle without pixels.
    pub open spec fn is_empty_rect(self) -> bool {
        self.width == 0 || self.height == 0
    }
}

/// The size that a geometry argument gives.
#[derive(Clone, Copy, PartialEq, Eq, Structural, Debug)]
pub struct Geometry {
    pub width: u16,
    pub height: u16,
}

impl Default for Geometry {
    fn default() -> (g: Self)
        ensures
            g.width == 1920,
            g.height == 1080,
    {
        Geometry { width: 1920, height: 1080 }
    }
}

/// What is wrong with a geometry argument.
#[derive(Clone, Copy, PartialEq, Eq, Structural, Debug)]
pub enum GeometryError {
    /// There is no `x` in it.
    Shape,
    Width,
    Height,
}

impl GeometryError {
    /// What a user is told.
    pub fn message(self) -> (s: &'static str)
        ensures
            s@ == match self {
                GeometryError::Shape => "expected WIDTHxHEIGHT"@,
                GeometryError::Width => "invalid width"@,
                GeometryError::Height => "invalid height"@,
            },
    {
        match self {
            GeometryError::Shape => "expected WIDTHxHEIGHT",
            GeometryError::Width => "invalid width",
            GeometryError::Height => "invalid height",
        }
    }
}

/// White space, as Unicode has it.
pub open spec fn is_white(c: char) -> bool {
    let v = c as u32;
    9 <= v <= 13 || v == 32 || v == 0x85 || v == 0xa0 || v == 0x1680 || 0x2000 <= v <= 0x200a || v == 0x2028 || v
        == 0x2029 || v == 0x202f || v == 0x205f || v == 0x3000
}

/// The text without the white space at its ends.
pub open spec fn trimmed(s: Seq<char>) -> Seq<char>
    decreases s.len(),
{
    if s.len() == 0 {
        s
    } else if is_white(s[0]) {
        trimmed(s.drop_first())
    } else if is_white(s.last()) {
        trimmed(s.drop_last())
    } else {
        s
    }
}

/// The `x` of a geometry.
pub open spec fn is_times() -> spec_fn(char) -> bool {
    |c: char| c == 'x' || c == 'X'
}

/// What a geometry argument says: two numbers round the first `x`, with or without
/// space round them.
pub open spec fn geometry_of(s: Seq<char>) -> Result<(int, int), GeometryError> {
    match list::first_index(s, is_times()) {
        None => Err(GeometryError::Shape),
        Some(i) => match list::number_of(trimmed(s.take(i)), u16::MAX as int) {
            None => Err(GeometryError::Width),
            Some(w) => match list::number_of(trimmed(s.skip(i + 1)), u16::MAX as int) {
                None => Err(GeometryError::Height),
                Some(h) => Ok((w, h)),
            },
        },
    }
}

fn white(c: char) -> (b: bool)
    ensures
        b == is_white(c),
{
    let v: u32 = c as u32;
    (9 <= v && v <= 13) || v == 32 || v == 0x85 || v == 0xa0 || v == 0x1680 || (0x2000 <= v && v <= 0x200a) || v
        == 0x2028 || v == 0x2029 || v == 0x202f || v == 0x205f || v == 0x3000
}

/// Where `v[from..to]` begins and ends without the white space at its ends.
fn trim(v: &Vec<char>, from: usize, to: usize) -> (r: (usize, usize))
    requires
        from <= to <= v@.len(),
    ensures
        from <= r.0 <= r.1 <= to,
        v@.subrange(r.0 as int, r.1 as int) == trimmed(v@.subrange(from as int, to as int)),
{
    let ghost all = trimmed(v@.subrange(from as int, to as int));
    let mut a: usize = from;
    let mut b: usize = to;
    while a < b && white(v[a])
        invariant
            from <= a <= b,
            b == to,
            to <= v@.len(),
            trimmed(v@.subrange(a as int, b as int)) == all,
        decreases b - a,
    {
        assert(v@.subrange(a as int, b as int).drop_first() =~= v@.subrange(a as int + 1, b as int));
        a += 1;
    }
    while a < b && white(v[b - 1])
        invariant
            from <= a <= b <= to,
            to <= v@.len(),
            a < b ==> !is_white(v@[a as int]),
            trimmed(v@.subrange(a as int, b as int)) == all,
        decreases b - a,
    {
        assert(v@.subrange(a as int, b as int).drop_last() =~= v@.subrange(a as int, b as int - 1));
        b -= 1;
    }
    proof {
        let s = v@.subrange(a as int, b as int);
        if s.len() > 0 {
            assert(s[0] == v@[a as int]);
            assert(s.last() == v@[b as int - 1]);
        }
        assert(trimmed(s) == s);
    }
    (a, b)
}

impl Geometry {
    /// Reads `WIDTHxHEIGHT`.
    pub fn parse(s: &str) -> (r: Result<Geometry, GeometryError>)
        ensures
            match (r, geometry_of(s@)) {
                (Ok(g), Ok((w, h))) => g.width == w && g.height == h,
                (Err(e), Err(f)) => e == f,
                _ => false,
            },
    {
        let v = list::chars(s);
        let mut i: usize = 0;
        while i < v.len() && v[i] != 'x' && v[i] != 'X'
            invariant
                i <= v.len(),
                forall|j: int| 0 <= j < i ==> !is_times()(#[trigger] v@[j]),
            decreases v.len() - i,
        {
            i += 1;
        }
        if i == v.len() {
            proof {
                list::lemma_first_index_none(s@, is_times());
            }
            return Err(GeometryError::Shape);
        }
        proof {
            list::lemma_first_index_is(s@, is_times(), i as int);
            assert(v@.subrange(0, i as int) =~= s@.take(i as int));
            assert(v@.subrange(i as int + 1, v@.len() as int) =~= s@.skip(i as int + 1));
        }
        let (wa, wb) = trim(&v, 0, i);
        let width: u16 = match list::number(&v, wa, wb, 65535) {
            Some(n) => n as u16,
            None => {
                return Err(GeometryError::Width);
            },
        };
        let (ha, hb) = trim(&v, i + 1, v.len());
        match list::number(&v, ha, hb, 65535) {
            Some(n) => Ok(Geometry { width, height: n as u16 }),
            None => Err(GeometryError::Height),
        }
    }
}

/// The smaller of two integers.
pub open spec fn min_of(a: int, b: int) -> int {
    if a <= b {
        a
    } else {
        b
    }
}

/// The larger of two integers.
pub open spec fn max_of(a: int, b: int) -> int {
    if a >= b {
        a
    } else {
        b
    }
}

/// The corners `(x1, y1, x2, y2)` of the smallest box round the non-empty
/// rectangles, the lower right corner lying outside it; `None` if all are empty.
pub open spec fn bounds(rects: Seq<Rectangle>) -> Option<(int, int, int, int)>
    decreases rects.len(),
{
    if rects.len() == 0 {
        None
    } else {
        let r = rects.last();
        let rest = bounds(rects.drop_last());
        if r.is_empty_rect() {
            rest
        } else {
            let (x1, y1, x2, y2) = (r.x as int, r.y as int, r.x + r.width, r.y + r.height);
            match rest {
                None => Some((x1, y1, x2, y2)),
                Some(b) => Some(
                    (min_of(b.0, x1), min_of(b.1, y1), max_of(b.2, x2), max_of(b.3, y2)),
                ),
            }
        }
    }
}

/// Cast of an `i32` to the 16-bit field of a [`Rectangle`], wrapping as `as` does.
pub open spec fn wrap_i16(v: int) -> int {
    let m = v % 0x1_0000;
    if m < 0x8000 {
        m
    } else {
        m - 0x1_0000
    }
}

/// Cast of an `i32` to the unsigned 16-bit field of a [`Rectangle`].
pub open spec fn wrap_u16(v: int) -> int {
    v % 0x1_0000
}

pub fn to_i16(v: i32) -> (r: i16)
    ensures
        r == wrap_i16(v as int),
        i16::MIN <= v <= i16::MAX ==> r == v,
{
    let r = #[verifier::truncate] (v as i16);
    assert(v % 0x1_0000 < 0x8000 ==> r == v % 0x1_0000) by (bit_vector)
        requires r == v as i16;
    assert(v % 0x1_0000 >= 0x8000 ==> r == v % 0x1_0000 - 0x1_0000) by (bit_vector)
        requires r == v as i16;
    r
}

pub fn to_u16(v: i32) -> (r: u16)
    ensures
        r == wrap_u16(v as int),
        0 <= v <= u16::MAX ==> r == v,
{
    let r = #[verifier::truncate] (v as u16);
    assert(r == v % 0x1_0000) by (bit_vector)
        requires r == v as u16;
    r
}

/// The bounding box of the rectangles that are not empty, `None` if all are. Its
/// corner and size wrap where they do not fit the protocol's 16-bit fields.
pub fn bbox(rects: &[Rectangle]) -> (b: Option<Rectangle>)
    ensures
        b is Some <==> bounds(rects@) is Some,
        b matches Some(r) ==> bounds(rects@) matches Some((x1, y1, x2, y2)) && {
            &&& r.x == wrap_i16(x1)
            &&& r.y == wrap_i16(y1)
            &&& r.width == wrap_u16(x2 - x1)
            &&& r.height == wrap_u16(y2 - y1)
        },
{
    let mut found = false;
    let mut x1: i32 = 0;
    let mut y1: i32 = 0;
    let mut x2: i32 = 0;
    let mut y2: i32 = 0;
    let mut i: usize = 0;
    while i < rects.len()
        invariant
            i <= rects.len(),
            found <==> bounds(rects@.take(i as int)) is Some,
            found ==> bounds(rects@.take(i as int)) == Some((x1 as int, y1 as int, x2 as int, y2 as int)),
            -0x8000 <= x1 <= 0x7fff && -0x8000 <= y1 <= 0x7fff,
            -0x8000 <= x2 <= 0x1_8000 && -0x8000 <= y2 <= 0x1_8000,
        decreases rects.len() - i,
    {
        let r = rects[i];
        proof {
            assert(rects@.take(i as int + 1).drop_last() =~= rects@.take(i as int));
            assert(rects@.take(i as int + 1).last() == r);
        }
        if r.width > 0 && r.height > 0 {
            let rx1: i32 = r.x as i32;
            let ry1: i32 = r.y as i32;
            let rx2: i32 = rx1 + r.width as i32;
            let ry2: i32 = ry1 + r.height as i32;
            if found {
                if rx1 < x1 {
                    x1 = rx1;
                }
                if ry1 < y1 {
                    y1 = ry1;
                }
                if rx2 > x2 {
                    x2 = rx2;
                }
                if ry2 > y2 {
                    y2 = ry2;
                }
            } else {
                found = true;
                x1 = rx1;
                y1 = ry1;
                x2 = rx2;
                y2 = ry2;
            }
        }
        i += 1;
    }
    assert(rects@.take(i as int) =~= rects@);
    if found {
        Some(
            Rectangle { x: to_i16(x1), y: to_i16(y1), width: to_u16(x2 - x1), height: to_u16(y2 - y1) },
        )
    } else {
        None
    }
}

/// The box round a list holds every pixel of every rectangle of it.
pub proof fn law_bounds_hold_every_rectangle(rects: Seq<Rectangle>, i: int, x: int, y: int)
    requires
        0 <= i < rects.len(),
        rects[i].holds(x, y),
    ensures
        bounds(rects) matches Some((x1, y1, x2, y2)) && x1 <= x < x2 && y1 <= y < y2,
    decreases rects.len(),
{
    if i < rects.len() - 1 {
        law_bounds_hold_every_rectangle(rects.drop_last(), i, x, y);
    }
}

/// The box is the smallest one: each of its four sides touches a rectangle.
pub proof fn law_bounds_are_tight(rects: Seq<Rectangle>)
    requires
        bounds(rects) is Some,
    ensures
        ({
            let (x1, y1, x2, y2) = bounds(rects)->0;
            &&& exists|i: int| 0 <= i < rects.len() && !(#[trigger] rects[i]).is_empty_rect() && rects[i].x == x1
            &&& exists|i: int| 0 <= i < rects.len() && !(#[trigger] rects[i]).is_empty_rect() && rects[i].y == y1
            &&& exists|i: int|
                0 <= i < rects.len() && !(#[trigger] rects[i]).is_empty_rect() && rects[i].x + rects[i].width == x2
            &&& exists|i: int|
                0 <= i < rects.len() && !(#[trigger] rects[i]).is_empty_rect() && rects[i].y + rects[i].height == y2
        }),
    decreases rects.len(),
{
    let n = rects.len() - 1;
    let rest = rects.drop_last();
    assert(rects[n] == rects.last());
    if bounds(rest) is Some {
        law_bounds_are_tight(rest);
        assert forall|i: int| 0 <= i < rest.len() implies #[trigger] rest[i] == rects[i] by {}
    }
}

/// Approximate millimeters for a pixel count at 96 DPI (25.4 mm and 96 px to the
/// inch).
pub fn mm(pixels: u16) -> (r: u32)
    ensures
        r == pixels * 254 / 960,
{
    pixels as u32 * 254 / 960
}

/// A geometry is a width, an `x` of either case and then a height.
pub proof fn law_width_comes_before_height(w: Seq<char>, x: char, h: Seq<char>)
    requires
        x == 'x' || x == 'X',
        forall|i: int| 0 <= i < w.len() ==> #[trigger] w[i] != 'x' && w[i] != 'X',
    ensures
        geometry_of(w + seq![x] + h) == (match (
            list::number_of(trimmed(w), 65535),
            list::number_of(trimmed(h), 65535),
        ) {
            (Some(a), Some(b)) => Ok((a, b)),
            (None, _) => Err(GeometryError::Width),
            (_, None) => Err(GeometryError::Height),
        }),
{
    let s = w + seq![x] + h;
    let n = w.len() as int;
    assert forall|j: int| 0 <= j < n implies !is_times()(#[trigger] s[j]) by {
        assert(s[j] == w[j]);
    }
    list::lemma_first_index_is(s, is_times(), n);
    assert(s.take(n) =~= w);
    assert(s.skip(n + 1) =~= h);
}

/// A text without an `x` is no geometry.
pub proof fn law_geometry_needs_its_x(s: Seq<char>)
    requires
        forall|i: int| 0 <= i < s.len() ==> #[trigger] s[i] != 'x' && s[i] != 'X',
    ensures
        geometry_of(s) == Err::<(int, int), GeometryError>(GeometryError::Shape),
{
    assert forall|j: int| 0 <= j < s.len() implies !is_times()(#[trigger] s[j]) by {
        assert(s[j] != 'x' && s[j] != 'X');
    }
    list::lemma_first_index_none(s, is_times());
}

/// Trimming takes white space off both ends, all of it and nothing else.
pub proof fn law_trimming_leaves_what_is_between(s: Seq<char>) -> (r: (int, int))
    ensures
        0 <= r.0 <= r.1 <= s.len(),
        trimmed(s) == s.subrange(r.0, r.1),
        forall|i: int| 0 <= i < r.0 || r.1 <= i < s.len() ==> is_white(#[trigger] s[i]),
        r.0 < r.1 ==> !is_white(s[r.0]) && !is_white(s[r.1 - 1]),
    decreases s.len(),
{
    if s.len() == 0 {
        assert(s.subrange(0, 0) =~= s);
        (0, 0)
    } else if is_white(s[0]) {
        let t = s.drop_first();
        let (a, b) = law_trimming_leaves_what_is_between(t);
        assert(t.subrange(a, b) =~= s.subrange(a + 1, b + 1));
        assert forall|i: int| 0 <= i < a + 1 || b + 1 <= i < s.len() implies is_white(#[trigger] s[i]) by {
            if i > 0 {
                assert(t[i - 1] == s[i]);
            }
        }
        (a + 1, b + 1)
    } else if is_white(s.last()) {
        let t = s.drop_last();
        let (a, b) = law_trimming_leaves_what_is_between(t);
        assert(t.subrange(a, b) =~= s.subrange(a, b));
        assert forall|i: int| 0 <= i < a || b <= i < s.len() implies is_white(#[trigger] s[i]) by {
            if i < t.len() {
                assert(t[i] == s[i]);
            }
        }
        (a, b)
    } else {
        assert(s.subrange(0, s.len() as int) =~= s);
        (0, s.len() as int)
    }
}

/// Millimetres are pixels at 96 to the inch of 25.4 mm, rounded down.
pub proof fn law_millimetres_are_at_96_to_the_inch(pixels: u16, r: u32)
    requires
        call_ensures(mm, (pixels,), r),
    ensures
        r * 960 <= pixels * 254 < (r + 1) * 960,
{
}

/// The bounding box holds every pixel of the rectangles, where it fits the protocol.
pub proof fn law_bounding_box_holds_every_rectangle(
    rects: &[Rectangle],
    b: Option<Rectangle>,
    i: int,
    x: int,
    y: int,
)
    requires
        call_ensures(bbox, (rects,), b),
        0 <= i < rects@.len(),
        rects@[i].holds(x, y),
        bounds(rects@) matches Some((x1, y1, x2, y2)) ==> x2 - x1 <= 0xffff && y2 - y1 <= 0xffff,
    ensures
        b matches Some(r) && r.holds(x, y),
{
    law_bounds_hold_every_rectangle(rects@, i, x, y);
    lemma_bounds_in_range(rects@);
}

proof fn lemma_bounds_in_range(rects: Seq<Rectangle>)
    ensures
        bounds(rects) matches Some((x1, y1, x2, y2)) ==> -0x8000 <= x1 <= 0x7fff && -0x8000 <= y1 <= 0x7fff && x1 < x2 && y1 < y2,
    decreases rects.len(),
{
    if rects.len() > 0 {
        lemma_bounds_in_range(rects.drop_last());
    }
}

} // verus!
