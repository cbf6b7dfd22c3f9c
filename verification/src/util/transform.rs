//! Output transforms, with `wl_output.transform` semantics.
//!
//! A compositor renders a rotated or flipped output into a buffer in the panel's
//! native orientation. [`Transform`] maps a pixel or rectangle of that buffer to
//! where it lands on screen: the named rotation turns the buffer clockwise, and
//! the flipped variants mirror the turned picture from left to right.

use vstd::prelude::*;

verus! {

/// A Wayland transform value; see the module docs for which way it goes.
#[derive(Clone, Copy, PartialEq, Eq, Structural, Debug)]
pub enum Transform {
    Normal,
    Rotate90,
    Rotate180,
    Rotate270,
    Flipped,
    Flipped90,
    Flipped180,
    Flipped270,
}

impl Default for Transform {
    fn default() -> (t: Self)
        ensures
            t == Transform::Normal,
    {
        Transform::Normal
    }
}

impl Transform {
    /// A quarter turn: the axes trade places.
    pub open spec fn is_quarter_turn(self) -> bool {
        self is Rotate90 || self is Rotate270 || self is Flipped90 || self is Flipped270
    }

    /// The buffer's x axis runs backwards on screen.
    pub open spec fn reverses_x(self) -> bool {
        self is Rotate180 || self is Rotate270 || self is Flipped || self is Flipped270
    }

    /// The buffer's y axis runs backwards on screen.
    pub open spec fn reverses_y(self) -> bool {
        self is Rotate90 || self is Rotate180 || self is Flipped180 || self is Flipped270
    }

    /// The size on screen of a `w`x`h` buffer.
    pub open spec fn size_of(self, w: int, h: int) -> (int, int) {
        if self.is_quarter_turn() {
            (h, w)
        } else {
            (w, h)
        }
    }

    /// Where the `rw`x`rh` rectangle at `(x, y)` of a `w`x`h` buffer has its
    /// top-left corner on screen.
    pub open spec fn origin_of(self, x: int, y: int, rw: int, rh: int, w: int, h: int) -> (int, int) {
        let px = if self.reverses_x() { w - x - rw } else { x };
        let py = if self.reverses_y() { h - y - rh } else { y };
        if self.is_quarter_turn() {
            (py, px)
        } else {
            (px, py)
        }
    }

    /// Where pixel `(x, y)` of a `w`x`h` buffer lands.
    pub open spec fn pixel(self, x: int, y: int, w: int, h: int) -> (int, int) {
        self.origin_of(x, y, 1, 1, w, h)
    }

    /// Which pixel of a `w`x`h` buffer lands at `(dx, dy)`.
    pub open spec fn pixel_under(self, dx: int, dy: int, w: int, h: int) -> (int, int) {
        let (px, py) = if self.is_quarter_turn() { (dy, dx) } else { (dx, dy) };
        (
            if self.reverses_x() { w - 1 - px } else { px },
            if self.reverses_y() { h - 1 - py } else { py },
        )
    }

    /// The arithmetic of [`rect`](Self::rect) stays in range.
    pub open spec fn in_range(self, x: int, y: int, rw: int, rh: int, w: int, h: int) -> bool {
        &&& self.reverses_x() ==> i32::MIN <= w - x <= i32::MAX && i32::MIN <= w - x - rw <= i32::MAX
        &&& self.reverses_y() ==> i32::MIN <= h - y <= i32::MAX && i32::MIN <= h - y - rh <= i32::MAX
    }

    /// Whether the transform swaps the axes (a 90 or 270 degree rotation).
    pub fn swaps_axes(self) -> (b: bool)
        ensures
            b == self.is_quarter_turn(),
    {
        matches!(self, Self::Rotate90 | Self::Rotate270 | Self::Flipped90 | Self::Flipped270)
    }

    /// The transformed size of a `w`x`h` buffer.
    pub fn size(self, w: u32, h: u32) -> (s: (u32, u32))
        ensures
            (s.0 as int, s.1 as int) == self.size_of(w as int, h as int),
    {
        if self.swaps_axes() {
            (h, w)
        } else {
            (w, h)
        }
    }

    /// Maps a rectangle `(x, y, width, height)` in an untransformed `w`x`h` buffer
    /// to the transformed space (a 90 turns the buffer clockwise: its top-left
    /// corner goes to the top-right).
    pub fn rect(self, r: (i32, i32, i32, i32), w: i32, h: i32) -> (t: (i32, i32, i32, i32))
        requires
            self.in_range(r.0 as int, r.1 as int, r.2 as int, r.3 as int, w as int, h as int),
        ensures
            (t.0 as int, t.1 as int) == self.origin_of(
                r.0 as int,
                r.1 as int,
                r.2 as int,
                r.3 as int,
                w as int,
                h as int,
            ),
            (t.2 as int, t.3 as int) == self.size_of(r.2 as int, r.3 as int),
    {
        let (x, y, rw, rh) = r;
        let (dw, dh): (i32, i32) = if self.swaps_axes() { (rh, rw) } else { (rw, rh) };
        let (dx, dy): (i32, i32) = match self {
            Self::Normal => (x, y),
            Self::Rotate90 => (h - y - rh, x),
            Self::Rotate180 => (w - x - rw, h - y - rh),
            Self::Rotate270 => (y, w - x - rw),
            Self::Flipped => (w - x - rw, y),
            Self::Flipped90 => (y, x),
            Self::Flipped180 => (x, h - y - rh),
            Self::Flipped270 => (h - y - rh, w - x - rw),
        };
        (dx, dy, dw, dh)
    }

    /// Maps a pixel in an untransformed `w`x`h` buffer to the transformed space.
    pub fn point(self, x: i32, y: i32, w: i32, h: i32) -> (p: (i32, i32))
        requires
            self.in_range(x as int, y as int, 1, 1, w as int, h as int),
        ensures
            (p.0 as int, p.1 as int) == self.pixel(x as int, y as int, w as int, h as int),
    {
        let (dx, dy, _, _) = self.rect((x, y, 1, 1), w, h);
        (dx, dy)
    }

    /// The pixel of an untransformed `w`x`h` buffer that is shown at `(dx, dy)`.
    pub fn point_under(self, dx: u32, dy: u32, w: u32, h: u32) -> (p: (u32, u32))
        requires
            dx < self.size_of(w as int, h as int).0,
            dy < self.size_of(w as int, h as int).1,
        ensures
            (p.0 as int, p.1 as int) == self.pixel_under(dx as int, dy as int, w as int, h as int),
            p.0 < w && p.1 < h,
    {
        let (x, y): (u32, u32) = if self.swaps_axes() { (dy, dx) } else { (dx, dy) };
        let reverses_x = matches!(self, Self::Rotate180 | Self::Rotate270 | Self::Flipped | Self::Flipped270);
        let reverses_y = matches!(self, Self::Rotate90 | Self::Rotate180 | Self::Flipped180 | Self::Flipped270);
        (if reverses_x { w - 1 - x } else { x }, if reverses_y { h - 1 - y } else { y })
    }
}

/// Every pixel of the buffer lands inside the transformed size.
pub proof fn law_pixels_land_inside(t: Transform, x: int, y: int, w: int, h: int)
    requires
        0 <= x < w,
        0 <= y < h,
    ensures
        0 <= t.pixel(x, y, w, h).0 < t.size_of(w, h).0,
        0 <= t.pixel(x, y, w, h).1 < t.size_of(w, h).1,
{
}

/// Two different pixels never land on the same place.
pub proof fn law_pixels_land_apart(t: Transform, x1: int, y1: int, x2: int, y2: int, w: int, h: int)
    requires
        t.pixel(x1, y1, w, h) == t.pixel(x2, y2, w, h),
    ensures
        x1 == x2 && y1 == y2,
{
}

/// Every place of the transformed rectangle is hit by some pixel of the buffer.
pub proof fn law_pixels_cover(t: Transform, dx: int, dy: int, w: int, h: int)
    requires
        0 <= dx < t.size_of(w, h).0,
        0 <= dy < t.size_of(w, h).1,
    ensures
        exists|x: int, y: int|
            0 <= x < w && 0 <= y < h && #[trigger] t.pixel(x, y, w, h) == (dx, dy),
{
    let (x, y) = t.pixel_under(dx, dy, w, h);
    assert(t.pixel(x, y, w, h) == (dx, dy));
}

/// [`Transform::pixel_under`] undoes [`Transform::pixel`], and the other way round.
pub proof fn law_pixel_under_undoes_pixel(t: Transform, x: int, y: int, dx: int, dy: int, w: int, h: int)
    ensures
        t.pixel(x, y, w, h) == (dx, dy) <==> t.pixel_under(dx, dy, w, h) == (x, y),
{
}

/// A transformed rectangle holds exactly the transformed pixels of the rectangle.
pub proof fn law_rect_covers_its_points(
    t: Transform,
    x: int,
    y: int,
    rx: int,
    ry: int,
    rw: int,
    rh: int,
    w: int,
    h: int,
)
    ensures
        (rx <= x < rx + rw && ry <= y < ry + rh) <==> ({
            let p = t.pixel(x, y, w, h);
            let o = t.origin_of(rx, ry, rw, rh, w, h);
            let s = t.size_of(rw, rh);
            o.0 <= p.0 < o.0 + s.0 && o.1 <= p.1 < o.1 + s.1
        }),
{
}

/// A flipped transform is the rotation of the same angle, then mirrored from left
/// to right on screen.
pub proof fn law_flips_mirror_the_turned_picture(x: int, y: int, w: int, h: int)
    ensures
        Transform::Flipped.pixel(x, y, w, h) == (
            w - 1 - Transform::Normal.pixel(x, y, w, h).0,
            Transform::Normal.pixel(x, y, w, h).1,
        ),
        Transform::Flipped90.pixel(x, y, w, h) == (
            h - 1 - Transform::Rotate90.pixel(x, y, w, h).0,
            Transform::Rotate90.pixel(x, y, w, h).1,
        ),
        Transform::Flipped180.pixel(x, y, w, h) == (
            w - 1 - Transform::Rotate180.pixel(x, y, w, h).0,
            Transform::Rotate180.pixel(x, y, w, h).1,
        ),
        Transform::Flipped270.pixel(x, y, w, h) == (
            h - 1 - Transform::Rotate270.pixel(x, y, w, h).0,
            Transform::Rotate270.pixel(x, y, w, h).1,
        ),
{
}

/// Turning twice by a quarter is turning by a half, and four quarters are none.
pub proof fn law_quarter_turns_compose(x: int, y: int, w: int, h: int)
    ensures
        ({
            let p = Transform::Rotate90.pixel(x, y, w, h);
            let q = Transform::Rotate90.pixel(p.0, p.1, h, w);
            let r = Transform::Rotate90.pixel(q.0, q.1, w, h);
            let s = Transform::Rotate90.pixel(r.0, r.1, h, w);
            &&& q == Transform::Rotate180.pixel(x, y, w, h)
            &&& r == Transform::Rotate270.pixel(x, y, w, h)
            &&& s == (x, y)
        }),
{
}

/// Without a transform every pixel stays where it is, and so does the size.
pub proof fn law_normal_changes_nothing(x: int, y: int, w: int, h: int)
    ensures
        Transform::Normal.pixel(x, y, w, h) == (x, y),
        Transform::Normal.size_of(w, h) == (w, h),
{
}

/// A rotation by 90 turns clockwise: the buffer's top-left corner goes to the top-right,
/// what is right of a pixel is then below it, and what is below it to its left.
pub proof fn law_quarter_turn_is_clockwise(x: int, y: int, w: int, h: int)
    ensures
        ({
            let (dx, dy) = Transform::Rotate90.pixel(x, y, w, h);
            &&& Transform::Rotate90.size_of(w, h) == (h, w)
            &&& Transform::Rotate90.pixel(0, 0, w, h) == (h - 1, 0int)
            &&& Transform::Rotate90.pixel(x + 1, y, w, h) == (dx, dy + 1)
            &&& Transform::Rotate90.pixel(x, y + 1, w, h) == (dx - 1, dy)
        }),
{
}

/// A flip mirrors from left to right and leaves the rows alone.
pub proof fn law_flip_is_from_left_to_right(x: int, y: int, w: int, h: int)
    ensures
        Transform::Flipped.pixel(x, y, w, h) == (w - 1 - x, y),
{
}

/// A transformed rectangle begins at the first of its transformed corners.
pub proof fn law_rect_begins_at_its_first_corner(t: Transform, x: int, y: int, rw: int, rh: int, w: int, h: int)
    requires
        rw > 0,
        rh > 0,
    ensures
        ({
            let o = t.origin_of(x, y, rw, rh, w, h);
            let s = t.size_of(rw, rh);
            let a = t.pixel(x, y, w, h);
            let b = t.pixel(x + rw - 1, y + rh - 1, w, h);
            &&& o.0 == if a.0 <= b.0 { a.0 } else { b.0 }
            &&& o.1 == if a.1 <= b.1 { a.1 } else { b.1 }
            &&& o.0 + s.0 - 1 == if a.0 <= b.0 { b.0 } else { a.0 }
            &&& o.1 + s.1 - 1 == if a.1 <= b.1 { b.1 } else { a.1 }
        }),
{
}

} // verus!
