//! The shared virtual framebuffer. Captured outputs are composited in at their
//! layout positions, and X `GetImage`/MIT-SHM reads pull rectangles back out.
//!
//! Pixels are 32-bit little-endian XRGB (byte order B, G, R, x), which is both
//! wl_shm `Xrgb8888`/`Argb8888` and the X TrueColor visual (depth 24, bpp 32,
//! R=0xff0000 G=0xff00 B=0xff, LSBFirst), so the common case needs no conversion.

use crate::util::geometry;
use crate::util::geometry::Rectangle;
use crate::util::transform::Transform;
use vstd::prelude::*;

verus! {

/// Blue, green and red source byte offsets within a 4-byte little-endian pixel,
/// enough to convert any byte-ordered 8888 wl_shm format into our framebuffer.
pub type ChannelMap = [usize; 3];

/// Identity map for `Xrgb8888`/`Argb8888` (memory order B,G,R,x).
pub const XRGB: ChannelMap = [0, 1, 2];

/// Whether the three offsets lie within a pixel.
pub open spec fn channels_ok(chan: ChannelMap) -> bool {
    chan[0] < 4 && chan[1] < 4 && chan[2] < 4
}

/// Whether the source has the framebuffer's own byte order.
pub open spec fn is_xrgb(chan: ChannelMap) -> bool {
    chan[0] == 0 && chan[1] == 1 && chan[2] == 2
}

/// The virtual screen: `height` rows of `width` four-byte pixels, and when it was
/// last read.
pub struct Framebuffer {
    width: u32,
    height: u32,
    data: Vec<u8>,
    /// Clock of the last read in milliseconds, 0 if never read.
    last_read_ms: Option<u64>,
}

/// A captured buffer and how it goes into the framebuffer.
pub struct Blit {
    pub ox: int,
    pub oy: int,
    pub width: int,
    pub height: int,
    pub stride: int,
    pub src: Seq<u8>,
    pub y_invert: bool,
    pub transform: Transform,
    pub damage: bool,
    pub chan: ChannelMap,
}

impl Blit {
    /// Byte offset of the buffer's pixel `(bx, by)`; with `y_invert` the buffer's
    /// rows are stored last one first.
    pub open spec fn offset(self, bx: int, by: int) -> int {
        (if self.y_invert { self.height - 1 - by } else { by }) * self.stride + bx * 4
    }

    /// The overlap with a framebuffer `fw` wide, for a buffer that is not
    /// transformed: first column and the one after the last.
    pub open spec fn left(self) -> int {
        geometry::max_of(self.ox, 0)
    }

    pub open spec fn right(self, fw: int) -> int {
        geometry::min_of(self.ox + self.width, fw)
    }

    /// Whether buffer row `by` is wholly there: the part that is shown of an
    /// untransformed row, all of a transformed one.
    pub open spec fn has_row(self, by: int, fw: int) -> bool {
        if self.transform is Normal {
            self.offset(self.left() - self.ox, by) + (self.right(fw) - self.left()) * 4 <= self.src.len()
        } else {
            self.offset(0, by) + self.width * 4 <= self.src.len()
        }
    }

    /// The buffer pixel that is shown at `(x, y)` of the framebuffer.
    pub open spec fn under(self, x: int, y: int) -> (int, int) {
        self.transform.pixel_under(x - self.ox, y - self.oy, self.width, self.height)
    }

    /// Whether a buffer pixel is shown at `(x, y)` of an `fw`x`fh` framebuffer.
    pub open spec fn covers(self, x: int, y: int, fw: int, fh: int) -> bool {
        let (bx, by) = self.under(x, y);
        0 <= x < fw && 0 <= y < fh && 0 <= bx < self.width && 0 <= by < self.height && self.has_row(by, fw)
    }

    /// Whether pixels are copied with their fourth byte (untransformed and in the
    /// framebuffer's byte order); else it becomes 0xff.
    pub open spec fn verbatim(self) -> bool {
        self.transform is Normal && is_xrgb(self.chan)
    }

    /// Byte `c` of the colour that the buffer has for `(x, y)`.
    pub open spec fn colour(self, x: int, y: int, c: int) -> u8 {
        let (bx, by) = self.under(x, y);
        let o = self.offset(bx, by);
        if self.verbatim() {
            self.src[o + c]
        } else if c < 3 {
            self.src[o + self.chan[c]]
        } else {
            0xff
        }
    }

    /// Whether showing the buffer changes the pixel `(x, y)` of `fb`. The fourth
    /// byte counts only where it is copied.
    pub open spec fn changes(self, fb: Framebuffer, x: int, y: int) -> bool {
        &&& self.covers(x, y, fb.w(), fb.h())
        &&& {
            ||| fb.byte_at(x, y, 0) != self.colour(x, y, 0)
            ||| fb.byte_at(x, y, 1) != self.colour(x, y, 1)
            ||| fb.byte_at(x, y, 2) != self.colour(x, y, 2)
            ||| self.verbatim() && fb.byte_at(x, y, 3) != self.colour(x, y, 3)
        }
    }

    /// Byte `c` of pixel `(x, y)` once the buffer is shown: a pixel is left alone
    /// where no buffer pixel is shown, and where damage is tracked and it has the
    /// buffer's colour already.
    pub open spec fn shown(self, fb: Framebuffer, x: int, y: int, c: int) -> u8 {
        if self.covers(x, y, fb.w(), fb.h()) && (!self.damage || self.changes(fb, x, y)) {
            self.colour(x, y, c)
        } else {
            fb.byte_at(x, y, c)
        }
    }

    /// `after` is `before` with the buffer shown.
    pub open spec fn applied(self, before: Framebuffer, after: Framebuffer) -> bool {
        &&& after.wf()
        &&& after.w() == before.w()
        &&& after.h() == before.h()
        &&& after.last_read() == before.last_read()
        &&& forall|x: int, y: int, c: int|
            0 <= x < before.w() && 0 <= y < before.h() && 0 <= c < 4 ==> #[trigger] after.byte_at(x, y, c)
                == self.shown(before, x, y, c)
    }

    /// `x1..=x2` by `y1..=y2` is the damage box: it touches a changed pixel on each
    /// side and has them all, only that an untransformed buffer is reported with
    /// its whole width.
    pub open spec fn damaged(self, fb: Framebuffer, x1: int, y1: int, x2: int, y2: int) -> bool {
        &&& forall|x: int, y: int| #[trigger] self.changes(fb, x, y) ==> x1 <= x <= x2 && y1 <= y <= y2
        &&& exists|x: int| #[trigger] self.changes(fb, x, y1)
        &&& exists|x: int| #[trigger] self.changes(fb, x, y2)
        &&& if self.transform is Normal {
            x1 == self.left() && x2 == self.right(fb.w()) - 1
        } else {
            &&& exists|y: int| #[trigger] self.changes(fb, x1, y)
            &&& exists|y: int| #[trigger] self.changes(fb, x2, y)
        }
    }

    /// What a blit reports: nothing unless damage is tracked and a pixel changes,
    /// else the damage box (its numbers wrapped to 16 bits).
    pub open spec fn reports(self, fb: Framebuffer, r: Option<Rectangle>) -> bool {
        &&& r is Some <==> self.damage && exists|x: int, y: int| #[trigger] self.changes(fb, x, y)
        &&& r matches Some(b) ==> exists|x1: int, y1: int, x2: int, y2: int| #[trigger]
            self.damaged(fb, x1, y1, x2, y2) && b.x == geometry::wrap_i16(x1) && b.y == geometry::wrap_i16(y1)
                && b.width == geometry::wrap_u16(x2 - x1 + 1) && b.height == geometry::wrap_u16(y2 - y1 + 1)
    }

    /// The buffer's numbers are those of a call, and its far corner has coordinates.
    pub open spec fn in_range(self) -> bool {
        &&& i32::MIN <= self.ox && i32::MIN <= self.oy
        &&& 0 <= self.width <= i32::MAX
        &&& 0 <= self.height <= i32::MAX
        &&& 0 <= self.stride <= u32::MAX
        &&& self.ox + self.transform.size_of(self.width, self.height).0 <= i32::MAX
        &&& self.oy + self.transform.size_of(self.width, self.height).1 <= i32::MAX
        &&& channels_ok(self.chan)
    }
}

proof fn lemma_index(x: int, y: int, w: int, h: int)
    by (nonlinear_arith)
    requires
        0 <= x < w,
        0 <= y < h,
    ensures
        0 <= y * w + x < w * h,
{
}

proof fn lemma_index_apart(x1: int, y1: int, x2: int, y2: int, w: int)
    requires
        0 <= x1 < w,
        0 <= x2 < w,
        y1 * w + x1 == y2 * w + x2,
    ensures
        x1 == x2 && y1 == y2,
{
    assert(y1 == y2) by (nonlinear_arith)
        requires
            0 <= x1 < w,
            0 <= x2 < w,
            y1 * w + x1 == y2 * w + x2,
    ;
}

impl Default for Framebuffer {
    /// A screen of no size, never read.
    fn default() -> (fb: Self)
        ensures
            fb.wf(),
            fb.w() == 0,
            fb.h() == 0,
            fb.last_read() is None,
    {
        let fb = Framebuffer { width: 0, height: 0, data: Vec::new(), last_read_ms: None };
        assert(fb.width * fb.height * 4 == 0) by (nonlinear_arith)
            requires
                fb.width == 0,
        ;
        fb
    }
}

impl Framebuffer {
    pub closed spec fn w(self) -> int {
        self.width as int
    }

    pub closed spec fn h(self) -> int {
        self.height as int
    }

    /// When a client last read pixels, if one ever did.
    pub closed spec fn last_read(self) -> Option<u64> {
        self.last_read_ms
    }

    /// Byte `c` (blue, green, red, unused) of the pixel at `(x, y)`.
    pub closed spec fn byte_at(self, x: int, y: int, c: int) -> u8 {
        self.data@[(y * self.width + x) * 4 + c]
    }

    /// There is one pixel for each place of the screen.
    pub closed spec fn wf(self) -> bool {
        self.data@.len() == self.width * self.height * 4
    }

    /// The size of the screen fits in memory, and its coordinates in 31 bits.
    pub open spec fn size_ok(width: int, height: int) -> bool {
        width <= i32::MAX && height <= i32::MAX && width * height * 4 <= usize::MAX
    }

    /// The size of the screen.
    pub open spec fn sized(self) -> bool {
        self.wf() && Self::size_ok(self.w(), self.h())
    }

    /// Whether a client has read pixels within the last `ms` milliseconds before
    /// `now_ms`.
    pub fn read_within(&self, ms: u64, now_ms: u64) -> (b: bool)
        ensures
            b <==> (self.last_read() matches Some(last) && geometry::max_of(now_ms - last, 0) < ms),
    {
        match self.last_read_ms {
            Some(last) => now_ms.saturating_sub(last) < ms,
            None => false,
        }
    }

    /// When the last read happened, for pacing no-damage capture to the rate the
    /// client actually polls. 0 if never read.
    pub fn last_read_ms(&self) -> (ms: u64)
        ensures
            ms == (match self.last_read() {
                Some(last) => last,
                None => 0,
            }),
    {
        match self.last_read_ms {
            Some(last) => last,
            None => 0,
        }
    }

    /// When the last read happened, if there was one: a read at time 0 is one too.
    pub fn read_at(&self) -> (at: Option<u64>)
        ensures
            at == self.last_read(),
    {
        self.last_read_ms
    }

    /// After the screen was given a size: it is cleared if that is another one.
    pub open spec fn ensured(self, after: Framebuffer, width: int, height: int) -> bool {
        &&& after.sized()
        &&& after.w() == width
        &&& after.h() == height
        &&& after.last_read() == self.last_read()
        &&& self.w() == width && self.h() == height ==> after == self
        &&& !(self.w() == width && self.h() == height) ==> forall|x: int, y: int, c: int|
            0 <= x < width && 0 <= y < height && 0 <= c < 4 ==> #[trigger] after.byte_at(x, y, c) == 0
    }

    /// Resizes the virtual screen, clearing it if the size changed.
    pub fn ensure(&mut self, width: u32, height: u32)
        requires
            old(self).wf(),
            Self::size_ok(width as int, height as int),
        ensures
            old(self).ensured(*final(self), width as int, height as int),
    {
        if self.width != width || self.height != height {
            self.width = width;
            self.height = height;
            assert(width * height <= usize::MAX) by (nonlinear_arith)
                requires
                    width * height * 4 <= usize::MAX,
                    0 <= width,
                    0 <= height,
            ;
            assert(width as usize * height as usize * 4 == width * height * 4);
            self.data = vec![0u8;width as usize * height as usize * 4];
            proof {
                assert forall|x: int, y: int, c: int|
                    0 <= x < width && 0 <= y < height && 0 <= c < 4 implies #[trigger] self.byte_at(x, y, c) == 0 by {
                    lemma_index(x, y, width as int, height as int);
                }
            }
        }
    }

    /// Puts the source pixel at byte `o` of `src` at `(x, y)` unless damage is
    /// tracked and it is there already; returns whether the pixel was different.
    fn blit_pixel(
        &mut self,
        x: u32,
        y: u32,
        src: &[u8],
        o: usize,
        verbatim: bool,
        damage: bool,
        chan: ChannelMap,
    ) -> (differs: bool)
        requires
            old(self).sized(),
            x < old(self).w(),
            y < old(self).h(),
            o + 4 <= src@.len(),
            channels_ok(chan),
            verbatim ==> is_xrgb(chan),
        ensures
            final(self).sized(),
            final(self).w() == old(self).w(),
            final(self).h() == old(self).h(),
            final(self).last_read() == old(self).last_read(),
            differs <==> {
                ||| old(self).byte_at(x as int, y as int, 0) != src@[o + chan[0]]
                ||| old(self).byte_at(x as int, y as int, 1) != src@[o + chan[1]]
                ||| old(self).byte_at(x as int, y as int, 2) != src@[o + chan[2]]
                ||| verbatim && old(self).byte_at(x as int, y as int, 3) != src@[o + 3]
            },
            forall|c: int|
                0 <= c < 4 ==> #[trigger] final(self).byte_at(x as int, y as int, c) == if !damage || differs {
                    if c < 3 {
                        src@[o + chan[c]]
                    } else if verbatim {
                        src@[o + 3]
                    } else {
                        0xff
                    }
                } else {
                    old(self).byte_at(x as int, y as int, c)
                },
            forall|px: int, py: int, c: int|
                0 <= px < old(self).w() && 0 <= py < old(self).h() && 0 <= c < 4 && !(px == x && py == y)
                    ==> #[trigger] final(self).byte_at(px, py, c) == old(self).byte_at(px, py, c),
    {
        proof {
            lemma_index(x as int, y as int, self.width as int, self.height as int);
            assert(y * self.width * 4 + x * 4 == (y * self.width + x) * 4);
            assert(y * self.width + x <= usize::MAX);
            assert(src.len() == src@.len());
        }
        let di: usize = (y as usize * self.width as usize + x as usize) * 4;
        let (b, g, r) = (src[o + chan[0]], src[o + chan[1]], src[o + chan[2]]);
        let fourth = if verbatim { src[o + 3] } else { 0xff };
        let differs = self.data[di] != b || self.data[di + 1] != g || self.data[di + 2] != r || (verbatim
            && self.data[di + 3] != fourth);
        if !damage || differs {
            self.data[di] = b;
            self.data[di + 1] = g;
            self.data[di + 2] = r;
            self.data[di + 3] = fourth;
        }
        proof {
            assert forall|px: int, py: int, c: int|
                0 <= px < old(self).w() && 0 <= py < old(self).h() && 0 <= c < 4 && !(px == x && py
                    == y) implies #[trigger] self.byte_at(px, py, c) == old(self).byte_at(px, py, c) by {
                lemma_index(px, py, self.width as int, self.height as int);
                if py * self.width + px == y * self.width + x {
                    lemma_index_apart(px, py, x as int, y as int, self.width as int);
                }
            }
        }
        differs
    }

    /// Composites a captured output into the framebuffer at `(ox, oy)`, where
    /// `src` is `src_height` rows of `src_stride` bytes in `chan` order, and
    /// `transform` is what the compositor applies to that buffer to put it on
    /// screen (so a rotated output's buffer lands rotated, in the transformed
    /// rectangle).
    ///
    /// With `compute_damage`, pixels are compared and only changed ones copied,
    /// and the bbox of the change comes back in root coords. Without it the
    /// whole overlap is copied blind and the bbox is `None`, for clients polling
    /// `GetImage`/`ShmGetImage` with no DAMAGE object.
    pub fn blit_diff(
        &mut self,
        ox: i32,
        oy: i32,
        src_width: u32,
        src_height: u32,
        src_stride: u32,
        src: &[u8],
        y_invert: bool,
        transform: Transform,
        compute_damage: bool,
        chan: ChannelMap,
    ) -> (bbox: Option<Rectangle>)
        requires
            old(self).sized(),
            blit_of(ox, oy, src_width, src_height, src_stride, src@, y_invert, transform, compute_damage, chan)
                .in_range(),
        ensures
            blit_of(ox, oy, src_width, src_height, src_stride, src@, y_invert, transform, compute_damage, chan)
                .applied(*old(self), *final(self)),
            blit_of(ox, oy, src_width, src_height, src_stride, src@, y_invert, transform, compute_damage, chan)
                .reports(*old(self), bbox),
    {
        if transform == Transform::Normal {
            self.blit_rows(ox, oy, src_width, src_height, src_stride, src, y_invert, compute_damage, chan)
        } else {
            self.blit_transformed(
                ox,
                oy,
                src_width,
                src_height,
                src_stride,
                src,
                y_invert,
                transform,
                compute_damage,
                chan,
            )
        }
    }

    /// The untransformed blit: rows map to rows.
    fn blit_rows(
        &mut self,
        ox: i32,
        oy: i32,
        src_width: u32,
        src_height: u32,
        src_stride: u32,
        src: &[u8],
        y_invert: bool,
        compute_damage: bool,
        chan: ChannelMap,
    ) -> (bbox: Option<Rectangle>)
        requires
            old(self).sized(),
            blit_of(ox, oy, src_width, src_height, src_stride, src@, y_invert, Transform::Normal, compute_damage, chan)
                .in_range(),
        ensures
            blit_of(ox, oy, src_width, src_height, src_stride, src@, y_invert, Transform::Normal, compute_damage, chan)
                .applied(*old(self), *final(self)),
            blit_of(ox, oy, src_width, src_height, src_stride, src@, y_invert, Transform::Normal, compute_damage, chan)
                .reports(*old(self), bbox),
    {
        let ghost b = blit_of(
            ox,
            oy,
            src_width,
            src_height,
            src_stride,
            src@,
            y_invert,
            Transform::Normal,
            compute_damage,
            chan,
        );
        let ghost fb0 = *self;
        let fw: i32 = self.width as i32;
        let fh: i32 = self.height as i32;
        // horizontal overlap of the source with the framebuffer
        let dx0: i32 = if ox > 0 { ox } else { 0 };
        let dx1: i32 = if ox + (src_width as i32) < fw { ox + src_width as i32 } else { fw };
        if dx1 <= dx0 {
            return None;
        }
        let n: u64 = (dx1 - dx0) as u64 * 4;
        let src_col: u64 = (dx0 - ox) as u64 * 4;
        let verbatim = chan[0] == 0 && chan[1] == 1 && chan[2] == 2;
        // y-range of changed rows; x is always the full overlap
        let mut found = false;
        let mut min_y: i32 = 0;
        let mut max_y: i32 = 0;
        let mut row: i32 = 0;
        while row < src_height as i32
            invariant
                b == blit_of(
                    ox,
                    oy,
                    src_width,
                    src_height,
                    src_stride,
                    src@,
                    y_invert,
                    Transform::Normal,
                    compute_damage,
                    chan,
                ),
                b.in_range(),
                fb0.sized(),
                fw == fb0.w(),
                fh == fb0.h(),
                dx0 == b.left(),
                dx1 == b.right(fb0.w()),
                dx0 < dx1,
                n == (dx1 - dx0) * 4,
                src_col == (dx0 - ox) * 4,
                verbatim == b.verbatim(),
                0 <= row <= src_height,
                b.partly_applied(fb0, *self, oy + row, 0),
                b.rows_damaged(fb0, oy + row, found, min_y as int, max_y as int),
            decreases src_height - row,
        {
            let dy: i32 = oy + row;
            let srow: i32 = if y_invert { src_height as i32 - 1 - row } else { row };
            proof {
                lemma_row_offset(srow as int, src_stride as int);
                assert(b.under(dx0 as int, dy as int) == (dx0 - ox, row as int));
                assert(b.offset(dx0 - ox, row as int) == srow * src_stride + src_col);
            }
            let s: u64 = srow as u64 * src_stride as u64 + src_col;
            if dy < 0 || dy >= fh || s + n > src.len() as u64 {
                proof {
                    b.lemma_row_skipped(fb0, *self, row as int, found, min_y as int, max_y as int);
                }
                row += 1;
                continue ;
            }
            let mut changed = false;
            let mut x: i32 = dx0;
            assert(b.partly_applied(fb0, *self, dy as int, x as int)) by {
                b.lemma_row_start(fb0, *self, dy as int);
            }
            while x < dx1
                invariant
                    b == blit_of(
                        ox,
                        oy,
                        src_width,
                        src_height,
                        src_stride,
                        src@,
                        y_invert,
                        Transform::Normal,
                        compute_damage,
                        chan,
                    ),
                    b.in_range(),
                    fb0.sized(),
                    fw == fb0.w(),
                    fh == fb0.h(),
                    dx0 == b.left(),
                    dx1 == b.right(fb0.w()),
                    dx0 <= x <= dx1,
                    0 <= row < src_height,
                    0 <= dy < fh,
                    dy == oy + row,
                    n == (dx1 - dx0) * 4,
                    s == b.offset(dx0 - ox, row as int),
                    s + n <= src@.len(),
                    verbatim == b.verbatim(),
                    b.partly_applied(fb0, *self, dy as int, x as int),
                    changed <==> exists|px: int| dx0 <= px < x && #[trigger] b.changes(fb0, px, dy as int),
                decreases dx1 - x,
            {
                proof {
                    assert(src.len() == src@.len());
                    assert(b.under(x as int, dy as int) == (x - ox, row as int));
                    assert(b.offset(x - ox, row as int) == s + (x - dx0) * 4);
                    assert(b.covers(x as int, dy as int, fb0.w(), fb0.h()));
                }
                let o: usize = (s + (x - dx0) as u64 * 4) as usize;
                let ghost before = *self;
                let differs = self.blit_pixel(x as u32, dy as u32, src, o, verbatim, compute_damage, chan);
                proof {
                    b.lemma_step(fb0, before, *self, x as int, dy as int, differs);
                }
                if differs {
                    assert(b.changes(fb0, x as int, dy as int));
                    changed = true;
                }
                x += 1;
            }
            proof {
                b.lemma_row_end(fb0, *self, row as int, changed, found, min_y as int, max_y as int);
            }
            if changed {
                if !found {
                    min_y = dy;
                }
                max_y = dy;
                found = true;
            }
            row += 1;
        }
        proof {
            b.lemma_rows_done(fb0, *self, found, min_y as int, max_y as int);
        }
        if compute_damage && found {
            proof {
                assert(b.damaged(fb0, dx0 as int, min_y as int, dx1 - 1, max_y as int));
            }
            Some(
                Rectangle {
                    x: geometry::to_i16(dx0),
                    y: geometry::to_i16(min_y),
                    width: geometry::to_u16(dx1 - dx0),
                    height: geometry::to_u16(max_y - min_y + 1),
                },
            )
        } else {
            None
        }
    }

    /// The rotated or flipped blit: every source pixel goes through `transform` to
    /// its own place in the framebuffer. A source row still maps to a straight line
    /// (a row or a column of the destination), so the transform is evaluated once
    /// per row and walked by a fixed step.
    fn blit_transformed(
        &mut self,
        ox: i32,
        oy: i32,
        src_width: u32,
        src_height: u32,
        src_stride: u32,
        src: &[u8],
        y_invert: bool,
        transform: Transform,
        compute_damage: bool,
        chan: ChannelMap,
    ) -> (bbox: Option<Rectangle>)
        requires
            old(self).sized(),
            !(transform is Normal),
            blit_of(ox, oy, src_width, src_height, src_stride, src@, y_invert, transform, compute_damage, chan)
                .in_range(),
        ensures
            blit_of(ox, oy, src_width, src_height, src_stride, src@, y_invert, transform, compute_damage, chan)
                .applied(*old(self), *final(self)),
            blit_of(ox, oy, src_width, src_height, src_stride, src@, y_invert, transform, compute_damage, chan)
                .reports(*old(self), bbox),
    {
        let ghost b = blit_of(
            ox,
            oy,
            src_width,
            src_height,
            src_stride,
            src@,
            y_invert,
            transform,
            compute_damage,
            chan,
        );
        let ghost fb0 = *self;
        let fw: i32 = self.width as i32;
        let fh: i32 = self.height as i32;
        let sw: i32 = src_width as i32;
        let sh: i32 = src_height as i32;
        if sw <= 0 || sh <= 0 {
            return None;
        }
        let mut found = false;
        let mut min_x: i32 = 0;
        let mut min_y: i32 = 0;
        let mut max_x: i32 = 0;
        let mut max_y: i32 = 0;
        let mut by: i32 = 0;
        while by < sh
            invariant
                b == blit_of(
                    ox,
                    oy,
                    src_width,
                    src_height,
                    src_stride,
                    src@,
                    y_invert,
                    transform,
                    compute_damage,
                    chan,
                ),
                b.in_range(),
                fb0.sized(),
                fw == fb0.w(),
                fh == fb0.h(),
                sw == b.width,
                sh == b.height,
                0 < sw,
                !(transform is Normal),
                0 <= by <= sh,
                b.walked(fb0, *self, by as int, 0),
                b.pixels_damaged(fb0, by as int, 0, found, min_x as int, min_y as int, max_x as int, max_y as int),
            decreases sh - by,
        {
            let srow: i32 = if y_invert { sh - 1 - by } else { by };
            proof {
                lemma_row_offset(srow as int, src_stride as int);
                assert(b.offset(0, by as int) == srow * src_stride);
            }
            let s0: u64 = srow as u64 * src_stride as u64;
            if s0 + sw as u64 * 4 > src.len() as u64 {
                proof {
                    b.lemma_line_skipped(
                        fb0,
                        *self,
                        by as int,
                        found,
                        min_x as int,
                        min_y as int,
                        max_x as int,
                        max_y as int,
                    );
                }
                by += 1;
                continue ;
            }
            let (x0, y0) = transform.point(0, by, sw, sh);
            let (x1, y1) = transform.point(1, by, sw, sh);
            let step_x: i32 = x1 - x0;
            let step_y: i32 = y1 - y0;
            let mut bx: i32 = 0;
            while bx < sw
                invariant
                    b == blit_of(
                        ox,
                        oy,
                        src_width,
                        src_height,
                        src_stride,
                        src@,
                        y_invert,
                        transform,
                        compute_damage,
                        chan,
                    ),
                    b.in_range(),
                    fb0.sized(),
                    fw == fb0.w(),
                    fh == fb0.h(),
                    sw == b.width,
                    sh == b.height,
                    !(transform is Normal),
                    0 <= by < sh,
                    0 <= bx <= sw,
                    s0 == b.offset(0, by as int),
                    s0 + sw * 4 <= src@.len(),
                    (x0 as int, y0 as int) == transform.pixel(0, by as int, sw as int, sh as int),
                    (x0 + step_x, y0 + step_y) == transform.pixel(1, by as int, sw as int, sh as int),
                    b.walked(fb0, *self, by as int, bx as int),
                    b.pixels_damaged(
                        fb0,
                        by as int,
                        bx as int,
                        found,
                        min_x as int,
                        min_y as int,
                        max_x as int,
                        max_y as int,
                    ),
                decreases sw - bx,
            {
                proof {
                    lemma_step_along(transform, bx as int, by as int, sw as int, sh as int, step_x as int, step_y as int);
                    assert(src.len() == src@.len());
                }
                let dx: i32 = ox + x0 + bx * step_x;
                let dy: i32 = oy + y0 + bx * step_y;
                proof {
                    assert(b.under(dx as int, dy as int) == (bx as int, by as int));
                    assert(b.offset(bx as int, by as int) == s0 + bx * 4);
                }
                if dx < 0 || dx >= fw || dy < 0 || dy >= fh {
                    proof {
                        b.lemma_pixel_outside(
                            fb0,
                            *self,
                            bx as int,
                            by as int,
                            dx as int,
                            dy as int,
                            found,
                            min_x as int,
                            min_y as int,
                            max_x as int,
                            max_y as int,
                        );
                    }
                    bx += 1;
                    continue ;
                }
                let o: usize = (s0 + bx as u64 * 4) as usize;
                let ghost before = *self;
                proof {
                    assert(b.covers(dx as int, dy as int, fb0.w(), fb0.h()));
                }
                let differs = self.blit_pixel(dx as u32, dy as u32, src, o, false, compute_damage, chan);
                proof {
                    b.lemma_pixel_walked(
                        fb0,
                        before,
                        *self,
                        bx as int,
                        by as int,
                        dx as int,
                        dy as int,
                        differs,
                        found,
                        min_x as int,
                        min_y as int,
                        max_x as int,
                        max_y as int,
                    );
                }
                if differs {
                    if !found || dx < min_x {
                        min_x = dx;
                    }
                    if !found || dy < min_y {
                        min_y = dy;
                    }
                    if !found || dx > max_x {
                        max_x = dx;
                    }
                    if !found || dy > max_y {
                        max_y = dy;
                    }
                    found = true;
                }
                bx += 1;
            }
            proof {
                b.lemma_line_end(
                    fb0,
                    *self,
                    by as int,
                    found,
                    min_x as int,
                    min_y as int,
                    max_x as int,
                    max_y as int,
                );
            }
            by += 1;
        }
        proof {
            b.lemma_walk_done(fb0, *self, found, min_x as int, min_y as int, max_x as int, max_y as int);
        }
        if compute_damage && found {
            proof {
                assert(b.damaged(fb0, min_x as int, min_y as int, max_x as int, max_y as int));
            }
            Some(
                Rectangle {
                    x: geometry::to_i16(min_x),
                    y: geometry::to_i16(min_y),
                    width: geometry::to_u16(max_x - min_x + 1),
                    height: geometry::to_u16(max_y - min_y + 1),
                },
            )
        } else {
            None
        }
    }
}

impl Framebuffer {
    /// Byte `c` of what a client reads at `(x, y)`: zero outside the screen.
    pub open spec fn seen(self, x: int, y: int, c: int) -> u8 {
        if 0 <= x < self.w() && 0 <= y < self.h() {
            self.byte_at(x, y, c)
        } else {
            0
        }
    }

    /// The same screen, but for when it was last read.
    pub open spec fn same_screen(self, other: Framebuffer) -> bool {
        &&& self.wf() == other.wf()
        &&& self.w() == other.w()
        &&& self.h() == other.h()
        &&& forall|x: int, y: int, c: int| #[trigger] self.byte_at(x, y, c) == other.byte_at(x, y, c)
    }

    /// `out` begins with `rows` rows of the `width` pixels from `(x, y)` on.
    pub open spec fn holds_rows(self, x: int, y: int, width: int, rows: int, out: Seq<u8>) -> bool {
        forall|row: int, col: int, c: int|
            0 <= row < rows && 0 <= col < width && 0 <= c < 4 ==> #[trigger] out[pixel_index(row, col, width) * 4 + c]
                == self.seen(x + col, y + row, c)
    }

    /// [`read_rect_into`](Self::read_rect_into) with a freshly allocated buffer,
    /// for the non-shm `GetImage` path whose reply owns the returned `Vec`.
    pub fn read_rect(&mut self, x: i32, y: i32, width: u32, height: u32, now_ms: u64) -> (out: Vec<u8>)
        requires
            old(self).sized(),
            width * 4 * height <= usize::MAX,
        ensures
            final(self).same_screen(*old(self)),
            final(self).last_read() == Some(now_ms),
            out@.len() == width * 4 * height,
            final(self).holds_rows(x as int, y as int, width as int, height as int, out@),
    {
        if width == 0 || height == 0 {
            assert(width * 4 * height == 0) by (nonlinear_arith)
                requires
                    width == 0 || height == 0,
            ;
            self.last_read_ms = Some(now_ms);
            return Vec::new();
        }
        assert(width * 4 <= usize::MAX) by (nonlinear_arith)
            requires
                width * 4 * height <= usize::MAX,
                0 < height,
                0 <= width,
        ;
        let row_bytes: usize = width as usize * 4;
        let mut out = vec![0u8;row_bytes * height as usize];
        assert((row_bytes * height) / row_bytes as int == height) by (nonlinear_arith)
            requires
                row_bytes > 0,
        ;
        self.read_rect_into(x, y, width, height, out.as_mut_slice(), now_ms);
        out
    }

    /// How many whole rows of `width` pixels are read into `len` bytes.
    pub open spec fn rows_in(len: int, width: int, height: int) -> int {
        if width == 0 {
            0
        } else {
            geometry::min_of(len / (width * 4), height)
        }
    }

    /// Reads a rectangle into `dst` as `height` rows of `width*4` bytes, exactly
    /// the ZPixmap depth-24/bpp-32 layout for our visual. Every byte of `dst` is written,
    /// with zeroes outside the screen. Only whole rows that fit in `dst` are read, so a
    /// short `dst` (a smaller shm segment than requested) just truncates; what is left of
    /// `dst` behind the last row is zeroed. A rectangle of no width has no rows. Returns
    /// how many bytes the rows have.
    pub fn read_rect_into(&mut self, x: i32, y: i32, width: u32, height: u32, dst: &mut [u8], now_ms: u64) -> (bytes:
        usize)
        requires
            old(self).sized(),
            width * 4 <= usize::MAX,
        ensures
            final(self).same_screen(*old(self)),
            final(self).last_read() == Some(now_ms),
            final(dst)@.len() == old(dst)@.len(),
            ({
                let rows = Self::rows_in(old(dst)@.len() as int, width as int, height as int);
                &&& bytes == rows * (width * 4)
                &&& final(self).holds_rows(x as int, y as int, width as int, rows, final(dst)@)
                &&& forall|i: int| bytes <= i < old(dst)@.len() ==> #[trigger] final(dst)@[i] == 0
            }),
    {
        self.last_read_ms = Some(now_ms);
        let row_bytes: usize = width as usize * 4;
        let len: usize = dst.len();
        if row_bytes == 0 {
            zero_from(dst, 0);
            return 0;
        }
        let fit: usize = len / row_bytes;
        let rows: usize = if fit < height as usize { fit } else { height as usize };
        assert(rows * row_bytes <= len) by (nonlinear_arith)
            requires
                rows <= len / row_bytes,
                row_bytes > 0,
        ;
        let filled: usize = rows * row_bytes;
        zero_from(dst, filled);
        let ghost dst0 = dst@;
        let mut row: usize = 0;
        while row < rows
            invariant
                self.sized(),
                row <= rows <= height,
                rows * row_bytes <= len,
                row_bytes == width * 4,
                width > 0,
                len == dst@.len(),
                dst@.len() == dst0.len(),
                self.holds_rows(x as int, y as int, width as int, row as int, dst@),
                forall|i: int| row * row_bytes <= i < len ==> #[trigger] dst@[i] == dst0[i],
            decreases rows - row,
        {
            let sy: i64 = y as i64 + row as i64;
            assert((row + 1) * row_bytes == row * row_bytes + row_bytes) by (nonlinear_arith);
            assert((row + 1) * row_bytes <= rows * row_bytes) by (nonlinear_arith)
                requires
                    row + 1 <= rows,
            ;
            let start: usize = row * row_bytes;
            let mut col: u32 = 0;
            while col < width
                invariant
                    self.sized(),
                    row < rows <= height,
                    col <= width,
                    start == row * row_bytes,
                    start + row_bytes <= len,
                    row_bytes == width * 4,
                    width > 0,
                    sy == y + row,
                    len == dst@.len(),
                    dst@.len() == dst0.len(),
                    self.holds_rows(x as int, y as int, width as int, row as int, dst@),
                    forall|k: int, c: int|
                        0 <= k < col && 0 <= c < 4 ==> #[trigger] dst@[start + k * 4 + c] == self.seen(x + k, y + row, c),
                    forall|i: int| start + row_bytes <= i < len ==> #[trigger] dst@[i] == dst0[i],
                decreases width - col,
            {
                let sx: i64 = x as i64 + col as i64;
                let i: usize = start + col as usize * 4;
                let ghost dst1 = dst@;
                if 0 <= sx && sx < self.width as i64 && 0 <= sy && sy < self.height as i64 {
                    proof {
                        lemma_index(sx as int, sy as int, self.width as int, self.height as int);
                        assert(sy * self.width + sx <= usize::MAX);
                        assert(0 <= sy * self.width) by (nonlinear_arith)
                            requires
                                0 <= sy,
                                0 <= self.width,
                        ;
                    }
                    let s: usize = (sy as usize * self.width as usize + sx as usize) * 4;
                    dst[i] = self.data[s];
                    dst[i + 1] = self.data[s + 1];
                    dst[i + 2] = self.data[s + 2];
                    dst[i + 3] = self.data[s + 3];
                } else {
                    dst[i] = 0;
                    dst[i + 1] = 0;
                    dst[i + 2] = 0;
                    dst[i + 3] = 0;
                }
                proof {
                    assert(forall|j: int| 0 <= j < len && !(i <= j < i + 4) ==> #[trigger] dst@[j] == dst1[j]);
                    assert forall|r: int, k: int, c: int|
                        0 <= r < row && 0 <= k < width && 0 <= c < 4 implies #[trigger] dst@[pixel_index(
                        r,
                        k,
                        width as int,
                    ) * 4 + c] == self.seen(x + k, y + r, c) by {
                        lemma_index(k, r, width as int, row as int);
                        assert(width * row * 4 == start) by (nonlinear_arith)
                            requires
                                start == row * (width * 4),
                        ;
                        assert(dst@[pixel_index(r, k, width as int) * 4 + c] == dst1[pixel_index(r, k, width as int)
                            * 4 + c]);
                    }
                }
                col += 1;
            }
            proof {
                assert forall|r: int, k: int, c: int|
                    0 <= r < row + 1 && 0 <= k < width && 0 <= c < 4 implies #[trigger] dst@[pixel_index(
                    r,
                    k,
                    width as int,
                ) * 4 + c] == self.seen(x + k, y + r, c) by {
                    if r == row {
                        assert(pixel_index(r, k, width as int) * 4 + c == start + k * 4 + c) by (nonlinear_arith)
                            requires
                                start == row * (width * 4),
                                pixel_index(r, k, width as int) == r * width + k,
                                r == row,
                        ;
                    }
                }
            }
            row += 1;
        }
        filled
    }
}

/// Zeroes what comes from a place on.
fn zero_from(dst: &mut [u8], start: usize)
    ensures
        final(dst)@.len() == old(dst)@.len(),
        forall|i: int| 0 <= i < old(dst)@.len() && i < start ==> #[trigger] final(dst)@[i] == old(dst)@[i],
        forall|i: int| start <= i < old(dst)@.len() ==> #[trigger] final(dst)@[i] == 0,
{
    let len: usize = dst.len();
    let mut i: usize = start;
    while i < len
        invariant
            start <= i,
            len == dst@.len(),
            dst@.len() == old(dst)@.len(),
            forall|j: int| 0 <= j < len && j < start ==> #[trigger] dst@[j] == old(dst)@[j],
            forall|j: int| start <= j < i && j < len ==> #[trigger] dst@[j] == 0,
        decreases len - i,
    {
        dst[i] = 0;
        i += 1;
    }
}

/// The number of a pixel in rows of `width` pixels.
pub open spec fn pixel_index(row: int, col: int, width: int) -> int {
    row * width + col
}

/// A screen of a new size is black: every byte that a client reads of it is zero.
pub proof fn law_new_size_is_black(
    before: Framebuffer,
    after: Framebuffer,
    width: int,
    height: int,
    out: Seq<u8>,
    i: int,
)
    requires
        before.ensured(after, width, height),
        !(before.w() == width && before.h() == height),
        after.holds_rows(0, 0, width, height, out),
        out.len() == width * 4 * height,
        0 <= i < out.len(),
    ensures
        out[i] == 0,
{
    let p = i / 4;
    let c = i % 4;
    assert(width > 0 && height > 0) by (nonlinear_arith)
        requires
            0 <= i < width * 4 * height,
            width >= 0,
    ;
    assert(0 <= p < width * height) by (nonlinear_arith)
        requires
            0 <= i < width * 4 * height,
            p == i / 4,
    ;
    let row = p / width;
    let col = p % width;
    assert(0 <= col < width && 0 <= row < height && p == row * width + col) by (nonlinear_arith)
        requires
            0 <= p < width * height,
            width > 0,
            row == p / width,
            col == p % width,
    ;
    assert(pixel_index(row, col, width) * 4 + c == i);
    assert(after.seen(0 + col, 0 + row, c) == after.byte_at(col, row, c));
}

/// A screen that is given the size it has is left alone.
pub proof fn law_same_size_changes_nothing(before: Framebuffer, after: Framebuffer, width: int, height: int)
    requires
        before.ensured(after, width, height),
        before.w() == width,
        before.h() == height,
    ensures
        after == before,
{
}

/// After a blit, a read that has a covered pixel gives back the source's colour.
pub proof fn law_read_gives_back_the_blit(
    b: Blit,
    before: Framebuffer,
    after: Framebuffer,
    rx: int,
    ry: int,
    width: int,
    rows: int,
    out: Seq<u8>,
    row: int,
    col: int,
    c: int,
)
    requires
        b.applied(before, after),
        after.holds_rows(rx, ry, width, rows, out),
        0 <= row < rows,
        0 <= col < width,
        0 <= c < 3,
        b.covers(rx + col, ry + row, before.w(), before.h()),
    ensures
        out[pixel_index(row, col, width) * 4 + c] == b.colour(rx + col, ry + row, c),
{
    assert(after.byte_at(rx + col, ry + row, c) == b.shown(before, rx + col, ry + row, c));
}

/// A blit leaves every pixel outside the transformed rectangle as it was.
pub proof fn law_blit_stays_in_its_rectangle(b: Blit, before: Framebuffer, after: Framebuffer, x: int, y: int, c: int)
    requires
        b.applied(before, after),
        0 <= x < before.w(),
        0 <= y < before.h(),
        0 <= c < 4,
        !(b.ox <= x < b.ox + b.transform.size_of(b.width, b.height).0 && b.oy <= y < b.oy + b.transform.size_of(
            b.width,
            b.height,
        ).1),
    ensures
        after.byte_at(x, y, c) == before.byte_at(x, y, c),
{
    assert(!b.covers(x, y, before.w(), before.h()));
}

/// Showing the same buffer again changes nothing and reports no damage.
pub proof fn law_second_blit_reports_nothing(b: Blit, before: Framebuffer, after: Framebuffer, x: int, y: int)
    requires
        b.applied(before, after),
    ensures
        !b.changes(after, x, y),
{
    if b.covers(x, y, before.w(), before.h()) {
        assert(after.byte_at(x, y, 0) == b.shown(before, x, y, 0));
        assert(after.byte_at(x, y, 1) == b.shown(before, x, y, 1));
        assert(after.byte_at(x, y, 2) == b.shown(before, x, y, 2));
        assert(after.byte_at(x, y, 3) == b.shown(before, x, y, 3));
    }
}

/// Every pixel whose colour a blit changes lies in the reported damage.
pub proof fn law_damage_holds_every_change(
    b: Blit,
    before: Framebuffer,
    after: Framebuffer,
    x1: int,
    y1: int,
    x2: int,
    y2: int,
    x: int,
    y: int,
    c: int,
)
    requires
        b.applied(before, after),
        b.damage,
        b.damaged(before, x1, y1, x2, y2),
        0 <= x < before.w(),
        0 <= y < before.h(),
        0 <= c < 4,
        after.byte_at(x, y, c) != before.byte_at(x, y, c),
    ensures
        x1 <= x <= x2 && y1 <= y <= y2,
{
    assert(b.changes(before, x, y));
}

/// Walking along a buffer row moves by one step on screen.
proof fn lemma_step_along(t: Transform, bx: int, by: int, w: int, h: int, step_x: int, step_y: int)
    requires
        t.pixel(1, by, w, h) == (t.pixel(0, by, w, h).0 + step_x, t.pixel(0, by, w, h).1 + step_y),
    ensures
        t.pixel(bx, by, w, h) == (t.pixel(0, by, w, h).0 + bx * step_x, t.pixel(0, by, w, h).1 + bx * step_y),
        -1 <= step_x <= 1,
        -1 <= step_y <= 1,
        bx >= 0 ==> -bx <= bx * step_x <= bx && -bx <= bx * step_y <= bx,
{
    assert(bx * 1 == bx && bx * 0 == 0 && bx * (-1) == -bx) by (nonlinear_arith);
    assert(step_x == 1 || step_x == 0 || step_x == -1);
    assert(step_y == 1 || step_y == 0 || step_y == -1);
}

// Progress of the transformed blit, in the order of the buffer's pixels.
impl Blit {
    /// Buffer pixel `(ux, uy)` comes before `(bx, by)`.
    spec fn earlier(ux: int, uy: int, bx: int, by: int) -> bool {
        uy < by || (uy == by && ux < bx)
    }

    /// `now` has the buffer pixels before `(bx, by)` shown.
    spec fn walked(self, fb0: Framebuffer, now: Framebuffer, by: int, bx: int) -> bool {
        &&& now.sized()
        &&& now.w() == fb0.w()
        &&& now.h() == fb0.h()
        &&& now.last_read() == fb0.last_read()
        &&& forall|px: int, py: int, c: int|
            0 <= px < fb0.w() && 0 <= py < fb0.h() && 0 <= c < 4 ==> #[trigger] now.byte_at(px, py, c)
                == if Self::earlier(self.under(px, py).0, self.under(px, py).1, bx, by) {
                self.shown(fb0, px, py, c)
            } else {
                fb0.byte_at(px, py, c)
            }
    }

    /// A pixel changes on account of a buffer pixel before `(bx, by)`.
    spec fn changed_before(self, fb0: Framebuffer, px: int, py: int, by: int, bx: int) -> bool {
        self.changes(fb0, px, py) && Self::earlier(self.under(px, py).0, self.under(px, py).1, bx, by)
    }

    spec fn pixels_damaged(
        self,
        fb0: Framebuffer,
        by: int,
        bx: int,
        found: bool,
        min_x: int,
        min_y: int,
        max_x: int,
        max_y: int,
    ) -> bool {
        &&& found <==> exists|px: int, py: int| #[trigger] self.changed_before(fb0, px, py, by, bx)
        &&& found ==> {
            &&& forall|px: int, py: int| #[trigger]
                self.changed_before(fb0, px, py, by, bx) ==> min_x <= px <= max_x && min_y <= py <= max_y
            &&& exists|py: int| #[trigger] self.changed_before(fb0, min_x, py, by, bx)
            &&& exists|py: int| #[trigger] self.changed_before(fb0, max_x, py, by, bx)
            &&& exists|px: int| #[trigger] self.changed_before(fb0, px, min_y, by, bx)
            &&& exists|px: int| #[trigger] self.changed_before(fb0, px, max_y, by, bx)
            &&& 0 <= min_x <= max_x < fb0.w()
            &&& 0 <= min_y <= max_y < fb0.h()
        }
    }

    /// The pixels before `(bx, by)` that change are those before `(bx2, by2)`.
    proof fn lemma_same_damage(
        self,
        fb0: Framebuffer,
        by: int,
        bx: int,
        by2: int,
        bx2: int,
        found: bool,
        min_x: int,
        min_y: int,
        max_x: int,
        max_y: int,
    )
        requires
            self.pixels_damaged(fb0, by, bx, found, min_x, min_y, max_x, max_y),
            forall|px: int, py: int|
                self.changed_before(fb0, px, py, by, bx) <==> self.changed_before(fb0, px, py, by2, bx2),
        ensures
            self.pixels_damaged(fb0, by2, bx2, found, min_x, min_y, max_x, max_y),
    {
        if found {
            let a = choose|py: int| #[trigger] self.changed_before(fb0, min_x, py, by, bx);
            assert(self.changed_before(fb0, min_x, a, by2, bx2));
            let a = choose|py: int| #[trigger] self.changed_before(fb0, max_x, py, by, bx);
            assert(self.changed_before(fb0, max_x, a, by2, bx2));
            let a = choose|px: int| #[trigger] self.changed_before(fb0, px, min_y, by, bx);
            assert(self.changed_before(fb0, a, min_y, by2, bx2));
            let a = choose|px: int| #[trigger] self.changed_before(fb0, px, max_y, by, bx);
            assert(self.changed_before(fb0, a, max_y, by2, bx2));
        }
        assert forall|px: int, py: int| #[trigger]
            self.changed_before(fb0, px, py, by2, bx2) implies self.changed_before(fb0, px, py, by, bx) by {}
    }

    proof fn lemma_line_skipped(
        self,
        fb0: Framebuffer,
        now: Framebuffer,
        by: int,
        found: bool,
        min_x: int,
        min_y: int,
        max_x: int,
        max_y: int,
    )
        requires
            !(self.transform is Normal),
            self.walked(fb0, now, by, 0),
            self.pixels_damaged(fb0, by, 0, found, min_x, min_y, max_x, max_y),
            !self.has_row(by, fb0.w()),
        ensures
            self.walked(fb0, now, by + 1, 0),
            self.pixels_damaged(fb0, by + 1, 0, found, min_x, min_y, max_x, max_y),
    {
        assert forall|px: int, py: int| self.under(px, py).1 == by implies !self.covers(px, py, fb0.w(), fb0.h()) by {}
        assert forall|px: int, py: int| self.under(px, py).1 <= by && self.covers(
            px,
            py,
            fb0.w(),
            fb0.h(),
        ) implies Self::earlier(self.under(px, py).0, self.under(px, py).1, 0, by) by {}
        self.lemma_same_damage(fb0, by, 0, by + 1, 0, found, min_x, min_y, max_x, max_y);
    }

    proof fn lemma_line_end(
        self,
        fb0: Framebuffer,
        now: Framebuffer,
        by: int,
        found: bool,
        min_x: int,
        min_y: int,
        max_x: int,
        max_y: int,
    )
        requires
            self.walked(fb0, now, by, self.width),
            self.pixels_damaged(fb0, by, self.width, found, min_x, min_y, max_x, max_y),
        ensures
            self.walked(fb0, now, by + 1, 0),
            self.pixels_damaged(fb0, by + 1, 0, found, min_x, min_y, max_x, max_y),
    {
        assert forall|px: int, py: int|
            self.covers(px, py, fb0.w(), fb0.h()) implies Self::earlier(
            self.under(px, py).0,
            self.under(px, py).1,
            0,
            by + 1,
        ) == Self::earlier(self.under(px, py).0, self.under(px, py).1, self.width, by) by {}
        self.lemma_same_damage(fb0, by, self.width, by + 1, 0, found, min_x, min_y, max_x, max_y);
    }

    proof fn lemma_pixel_outside(
        self,
        fb0: Framebuffer,
        now: Framebuffer,
        bx: int,
        by: int,
        dx: int,
        dy: int,
        found: bool,
        min_x: int,
        min_y: int,
        max_x: int,
        max_y: int,
    )
        requires
            self.walked(fb0, now, by, bx),
            self.pixels_damaged(fb0, by, bx, found, min_x, min_y, max_x, max_y),
            self.under(dx, dy) == (bx, by),
            !(0 <= dx < fb0.w() && 0 <= dy < fb0.h()),
        ensures
            self.walked(fb0, now, by, bx + 1),
            self.pixels_damaged(fb0, by, bx + 1, found, min_x, min_y, max_x, max_y),
    {
        assert forall|px: int, py: int| self.under(px, py) == (bx, by) implies px == dx && py == dy by {}
        assert forall|px: int, py: int| self.under(px, py) == (bx, by) implies !self.covers(
            px,
            py,
            fb0.w(),
            fb0.h(),
        ) by {}
        self.lemma_same_damage(fb0, by, bx, by, bx + 1, found, min_x, min_y, max_x, max_y);
    }

    proof fn lemma_pixel_walked(
        self,
        fb0: Framebuffer,
        before: Framebuffer,
        after: Framebuffer,
        bx: int,
        by: int,
        dx: int,
        dy: int,
        differs: bool,
        found: bool,
        min_x: int,
        min_y: int,
        max_x: int,
        max_y: int,
    )
        requires
            self.walked(fb0, before, by, bx),
            self.pixels_damaged(fb0, by, bx, found, min_x, min_y, max_x, max_y),
            self.under(dx, dy) == (bx, by),
            self.covers(dx, dy, fb0.w(), fb0.h()),
            after.sized(),
            after.w() == fb0.w(),
            after.h() == fb0.h(),
            after.last_read() == fb0.last_read(),
            differs <==> self.changes(fb0, dx, dy),
            forall|c: int| 0 <= c < 4 ==> #[trigger] after.byte_at(dx, dy, c) == self.shown(fb0, dx, dy, c),
            forall|px: int, py: int, c: int|
                0 <= px < fb0.w() && 0 <= py < fb0.h() && 0 <= c < 4 && !(px == dx && py == dy)
                    ==> #[trigger] after.byte_at(px, py, c) == before.byte_at(px, py, c),
        ensures
            self.walked(fb0, after, by, bx + 1),
            !differs ==> self.pixels_damaged(fb0, by, bx + 1, found, min_x, min_y, max_x, max_y),
            differs ==> self.pixels_damaged(
                fb0,
                by,
                bx + 1,
                true,
                if !found || dx < min_x { dx } else { min_x },
                if !found || dy < min_y { dy } else { min_y },
                if !found || dx > max_x { dx } else { max_x },
                if !found || dy > max_y { dy } else { max_y },
            ),
    {
        assert forall|px: int, py: int| self.under(px, py) == (bx, by) implies px == dx && py == dy by {}
        assert forall|px: int, py: int| #[trigger] self.changed_before(fb0, px, py, by, bx + 1) implies (
        self.changed_before(fb0, px, py, by, bx) || (px == dx && py == dy && differs)) by {
            if self.under(px, py) == (bx, by) {
                assert(px == dx && py == dy);
            }
        }
        assert forall|px: int, py: int|
            self.changed_before(fb0, px, py, by, bx) implies #[trigger] self.changed_before(fb0, px, py, by, bx + 1) by {}
        if differs {
            assert(self.changed_before(fb0, dx, dy, by, bx + 1));
            if found {
                let a = choose|py: int| #[trigger] self.changed_before(fb0, min_x, py, by, bx);
                assert(self.changed_before(fb0, min_x, a, by, bx + 1));
                let a = choose|py: int| #[trigger] self.changed_before(fb0, max_x, py, by, bx);
                assert(self.changed_before(fb0, max_x, a, by, bx + 1));
                let a = choose|px: int| #[trigger] self.changed_before(fb0, px, min_y, by, bx);
                assert(self.changed_before(fb0, a, min_y, by, bx + 1));
                let a = choose|px: int| #[trigger] self.changed_before(fb0, px, max_y, by, bx);
                assert(self.changed_before(fb0, a, max_y, by, bx + 1));
            } else {
                assert forall|px: int, py: int| !#[trigger] self.changed_before(fb0, px, py, by, bx) by {}
            }
        } else {
            self.lemma_same_damage(fb0, by, bx, by, bx + 1, found, min_x, min_y, max_x, max_y);
        }
    }

    proof fn lemma_walk_done(
        self,
        fb0: Framebuffer,
        now: Framebuffer,
        found: bool,
        min_x: int,
        min_y: int,
        max_x: int,
        max_y: int,
    )
        requires
            !(self.transform is Normal),
            self.walked(fb0, now, self.height, 0),
            self.pixels_damaged(fb0, self.height, 0, found, min_x, min_y, max_x, max_y),
        ensures
            self.applied(fb0, now),
            found <==> exists|x: int, y: int| #[trigger] self.changes(fb0, x, y),
            found ==> self.damaged(fb0, min_x, min_y, max_x, max_y),
    {
        assert forall|px: int, py: int| #[trigger] self.changes(fb0, px, py) implies self.changed_before(
            fb0,
            px,
            py,
            self.height,
            0,
        ) by {}
        if found {
            let a = choose|py: int| #[trigger] self.changed_before(fb0, min_x, py, self.height, 0);
            assert(self.changes(fb0, min_x, a));
            let a = choose|py: int| #[trigger] self.changed_before(fb0, max_x, py, self.height, 0);
            assert(self.changes(fb0, max_x, a));
            let a = choose|px: int| #[trigger] self.changed_before(fb0, px, min_y, self.height, 0);
            assert(self.changes(fb0, a, min_y));
            let a = choose|px: int| #[trigger] self.changed_before(fb0, px, max_y, self.height, 0);
            assert(self.changes(fb0, a, max_y));
        }
    }
}

/// The blit that the arguments of [`Framebuffer::blit_diff`] describe.
pub open spec fn blit_of(
    ox: i32,
    oy: i32,
    src_width: u32,
    src_height: u32,
    src_stride: u32,
    src: Seq<u8>,
    y_invert: bool,
    transform: Transform,
    compute_damage: bool,
    chan: ChannelMap,
) -> Blit {
    Blit {
        ox: ox as int,
        oy: oy as int,
        width: src_width as int,
        height: src_height as int,
        stride: src_stride as int,
        src,
        y_invert,
        transform,
        damage: compute_damage,
        chan,
    }
}

proof fn lemma_row_offset(row: int, stride: int)
    requires
        0 <= row < 0x8000_0000,
        0 <= stride <= u32::MAX,
    ensures
        0 <= row * stride <= 0x7fff_ffff * 0xffff_ffff,
{
    assert(0 <= row * stride <= 0x7fff_ffff * 0xffff_ffff) by (nonlinear_arith)
        requires
            0 <= row < 0x8000_0000,
            0 <= stride <= u32::MAX,
    ;
}

// Progress of the untransformed blit, row by row and left to right.
impl Blit {
    /// `now` has the buffer shown above row `y` and left of `x` in that row.
    spec fn partly_applied(self, fb0: Framebuffer, now: Framebuffer, y: int, x: int) -> bool {
        &&& now.sized()
        &&& now.w() == fb0.w()
        &&& now.h() == fb0.h()
        &&& now.last_read() == fb0.last_read()
        &&& forall|px: int, py: int, c: int|
            0 <= px < fb0.w() && 0 <= py < fb0.h() && 0 <= c < 4 ==> #[trigger] now.byte_at(px, py, c) == if py < y
                || (py == y && px < x) {
                self.shown(fb0, px, py, c)
            } else {
                fb0.byte_at(px, py, c)
            }
    }

    /// `min_y` and `max_y` are the first and last changed rows above row `y`.
    spec fn rows_damaged(self, fb0: Framebuffer, y: int, found: bool, min_y: int, max_y: int) -> bool {
        &&& found <==> exists|px: int, py: int| #[trigger] self.changes(fb0, px, py) && py < y
        &&& found ==> {
            &&& self.oy <= min_y <= max_y < y
            &&& exists|px: int| #[trigger] self.changes(fb0, px, min_y)
            &&& exists|px: int| #[trigger] self.changes(fb0, px, max_y)
            &&& forall|px: int, py: int| #[trigger] self.changes(fb0, px, py) && py < y ==> min_y <= py <= max_y
        }
    }

    proof fn lemma_row_start(self, fb0: Framebuffer, now: Framebuffer, y: int)
        requires
            self.transform is Normal,
            self.partly_applied(fb0, now, y, 0),
        ensures
            self.partly_applied(fb0, now, y, self.left()),
    {
        assert forall|px: int, py: int, c: int|
            0 <= px < fb0.w() && 0 <= py < fb0.h() && 0 <= c < 4 && py == y && px < self.left() implies self.shown(
            fb0,
            px,
            py,
            c,
        ) == fb0.byte_at(px, py, c) by {
            assert(!self.covers(px, py, fb0.w(), fb0.h()));
        }
    }

    proof fn lemma_row_skipped(
        self,
        fb0: Framebuffer,
        now: Framebuffer,
        row: int,
        found: bool,
        min_y: int,
        max_y: int,
    )
        requires
            self.transform is Normal,
            self.partly_applied(fb0, now, self.oy + row, 0),
            self.rows_damaged(fb0, self.oy + row, found, min_y, max_y),
            !(0 <= self.oy + row < fb0.h()) || !self.has_row(row, fb0.w()),
        ensures
            self.partly_applied(fb0, now, self.oy + row + 1, 0),
            self.rows_damaged(fb0, self.oy + row + 1, found, min_y, max_y),
    {
        let y = self.oy + row;
        assert forall|px: int, py: int| py == y implies !self.covers(px, py, fb0.w(), fb0.h()) by {}
        assert forall|px: int, py: int| py == y implies !self.changes(fb0, px, py) by {}
    }

    proof fn lemma_row_end(
        self,
        fb0: Framebuffer,
        now: Framebuffer,
        row: int,
        changed: bool,
        found: bool,
        min_y: int,
        max_y: int,
    )
        requires
            self.transform is Normal,
            0 <= row < self.height,
            self.partly_applied(fb0, now, self.oy + row, self.right(fb0.w())),
            self.rows_damaged(fb0, self.oy + row, found, min_y, max_y),
            changed <==> exists|px: int|
                self.left() <= px < self.right(fb0.w()) && #[trigger] self.changes(fb0, px, self.oy + row),
        ensures
            self.partly_applied(fb0, now, self.oy + row + 1, 0),
            !changed ==> self.rows_damaged(fb0, self.oy + row + 1, found, min_y, max_y),
            changed ==> self.rows_damaged(
                fb0,
                self.oy + row + 1,
                true,
                if found {
                    min_y
                } else {
                    self.oy + row
                },
                self.oy + row,
            ),
    {
        let y = self.oy + row;
        assert forall|px: int, py: int|
            py == y && #[trigger] self.covers(px, py, fb0.w(), fb0.h()) implies self.left() <= px < self.right(
            fb0.w(),
        ) by {}
        assert forall|px: int, py: int, c: int|
            0 <= px < fb0.w() && 0 <= py < fb0.h() && 0 <= c < 4 && py == y && px >= self.right(
                fb0.w(),
            ) implies self.shown(fb0, px, py, c) == fb0.byte_at(px, py, c) by {
            assert(!self.covers(px, py, fb0.w(), fb0.h()));
        }
        assert forall|px: int, py: int| #[trigger] self.changes(fb0, px, py) && py < y + 1 implies py < y || (py == y
            && changed) by {
            if py == y {
                assert(self.covers(px, py, fb0.w(), fb0.h()));
            }
        }
        if changed {
            let px = choose|px: int|
                self.left() <= px < self.right(fb0.w()) && #[trigger] self.changes(fb0, px, y);
            assert(self.changes(fb0, px, y));
        }
    }

    proof fn lemma_rows_done(self, fb0: Framebuffer, now: Framebuffer, found: bool, min_y: int, max_y: int)
        requires
            self.transform is Normal,
            self.partly_applied(fb0, now, self.oy + self.height, 0),
            self.rows_damaged(fb0, self.oy + self.height, found, min_y, max_y),
        ensures
            self.applied(fb0, now),
            found <==> exists|x: int, y: int| #[trigger] self.changes(fb0, x, y),
            found ==> self.damaged(fb0, self.left(), min_y, self.right(fb0.w()) - 1, max_y),
    {
        assert forall|px: int, py: int| #[trigger] self.covers(px, py, fb0.w(), fb0.h()) implies py < self.oy
            + self.height && self.left() <= px < self.right(fb0.w()) by {}
        assert forall|px: int, py: int| #[trigger] self.changes(fb0, px, py) implies py < self.oy + self.height
            && self.left() <= px < self.right(fb0.w()) by {
            assert(self.covers(px, py, fb0.w(), fb0.h()));
        }
        assert forall|x: int, y: int, c: int|
            0 <= x < fb0.w() && 0 <= y < fb0.h() && 0 <= c < 4 implies #[trigger] now.byte_at(x, y, c) == self.shown(
            fb0,
            x,
            y,
            c,
        ) by {
            if y >= self.oy + self.height {
                assert(!self.covers(x, y, fb0.w(), fb0.h()));
            }
        }
    }

    proof fn lemma_step(self, fb0: Framebuffer, before: Framebuffer, after: Framebuffer, x: int, y: int, differs: bool)
        requires
            self.partly_applied(fb0, before, y, x),
            self.covers(x, y, fb0.w(), fb0.h()),
            after.sized(),
            after.w() == fb0.w(),
            after.h() == fb0.h(),
            after.last_read() == fb0.last_read(),
            differs <==> self.changes(fb0, x, y),
            forall|c: int| 0 <= c < 4 ==> #[trigger] after.byte_at(x, y, c) == self.shown(fb0, x, y, c),
            forall|px: int, py: int, c: int|
                0 <= px < fb0.w() && 0 <= py < fb0.h() && 0 <= c < 4 && !(px == x && py == y)
                    ==> #[trigger] after.byte_at(px, py, c) == before.byte_at(px, py, c),
        ensures
            self.partly_applied(fb0, after, y, x + 1),
    {
    }
}

/// What was captured of an upright output is what is read of the screen, pixel by pixel:
/// rows one behind the other, four bytes to a pixel, from where the output is; its own rows
/// from below where they are stored so.
pub proof fn law_captured_pixels_are_read_back(
    b: Blit,
    before: Framebuffer,
    after: Framebuffer,
    rx: int,
    ry: int,
    width: int,
    rows: int,
    out: Seq<u8>,
    row: int,
    col: int,
    c: int,
)
    requires
        b.applied(before, after),
        b.transform is Normal,
        is_xrgb(b.chan),
        after.holds_rows(rx, ry, width, rows, out),
        0 <= row < rows,
        0 <= col < width,
        0 <= c < 3,
        b.covers(rx + col, ry + row, before.w(), before.h()),
    ensures
        ({
            let (x, y) = (rx + col - b.ox, ry + row - b.oy);
            let line = if b.y_invert { b.height - 1 - y } else { y };
            out[(row * width + col) * 4 + c] == b.src[line * b.stride + x * 4 + c]
        }),
{
    law_read_gives_back_the_blit(b, before, after, rx, ry, width, rows, out, row, col, c);
    assert(b.under(rx + col, ry + row) == (rx + col - b.ox, ry + row - b.oy));
}

/// Outside the screen there is nothing to be read but zeroes.
pub proof fn law_outside_the_screen_is_black(
    fb: Framebuffer,
    rx: int,
    ry: int,
    width: int,
    rows: int,
    out: Seq<u8>,
    row: int,
    col: int,
    c: int,
)
    requires
        fb.holds_rows(rx, ry, width, rows, out),
        0 <= row < rows,
        0 <= col < width,
        0 <= c < 4,
        rx + col < 0 || rx + col >= fb.w() || ry + row < 0 || ry + row >= fb.h(),
    ensures
        out[(row * width + col) * 4 + c] == 0,
{
    assert(out[pixel_index(row, col, width) * 4 + c] == fb.seen(rx + col, ry + row, c));
}

/// The damage that a blit reports holds every pixel that it changes, and where it reports
/// none it changes none.
#[verifier::spinoff_prover]
#[verifier::rlimit(80)]
pub proof fn law_reported_damage_holds_every_change(b: Blit, fb: Framebuffer, r: Option<Rectangle>, x: int, y: int)
    requires
        b.reports(fb, r),
        b.damage,
        b.changes(fb, x, y),
        fb.w() <= 0x7fff,
        fb.h() <= 0x7fff,
    ensures
        r matches Some(d) && d.holds(x, y),
{
    let (x1, y1, x2, y2) = lemma_reported_box(b, fb, r, x, y);
    lemma_box_on_screen(b, fb, x1, y1, x2, y2);
    lemma_box_holds(r->0, x1, y1, x2, y2, x, y);
}

proof fn lemma_box_holds(d: Rectangle, x1: int, y1: int, x2: int, y2: int, x: int, y: int)
    requires
        0 <= x1 <= x <= x2 < 0x7fff,
        0 <= y1 <= y <= y2 < 0x7fff,
        d.x == geometry::wrap_i16(x1),
        d.y == geometry::wrap_i16(y1),
        d.width == geometry::wrap_u16(x2 - x1 + 1),
        d.height == geometry::wrap_u16(y2 - y1 + 1),
    ensures
        d.holds(x, y),
{
}

proof fn lemma_reported_box(b: Blit, fb: Framebuffer, r: Option<Rectangle>, x: int, y: int) -> (q: (int, int, int, int))
    requires
        b.reports(fb, r),
        b.damage,
        b.changes(fb, x, y),
    ensures
        b.damaged(fb, q.0, q.1, q.2, q.3),
        q.0 <= x <= q.2 && q.1 <= y <= q.3,
        r matches Some(d) && d.x == geometry::wrap_i16(q.0) && d.y == geometry::wrap_i16(q.1) && d.width
            == geometry::wrap_u16(q.2 - q.0 + 1) && d.height == geometry::wrap_u16(q.3 - q.1 + 1),
{
    let d = r->0;
    let (x1, y1, x2, y2) = choose|x1: int, y1: int, x2: int, y2: int| #[trigger]
        b.damaged(fb, x1, y1, x2, y2) && d.x == geometry::wrap_i16(x1) && d.y == geometry::wrap_i16(y1) && d.width
            == geometry::wrap_u16(x2 - x1 + 1) && d.height == geometry::wrap_u16(y2 - y1 + 1);
    (x1, y1, x2, y2)
}

/// The damage box is on the screen.
proof fn lemma_box_on_screen(b: Blit, fb: Framebuffer, x1: int, y1: int, x2: int, y2: int)
    requires
        b.damaged(fb, x1, y1, x2, y2),
    ensures
        0 <= x1,
        x2 < fb.w(),
        0 <= y1,
        y2 < fb.h(),
{
    let a = choose|a: int| #[trigger] b.changes(fb, a, y1);
    assert(0 <= y1) by {
        assert(b.changes(fb, a, y1));
    }
    let e = choose|e: int| #[trigger] b.changes(fb, e, y2);
    assert(y2 < fb.h()) by {
        assert(b.changes(fb, e, y2));
    }
    if !(b.transform is Normal) {
        let f = choose|f: int| #[trigger] b.changes(fb, x1, f);
        assert(0 <= x1) by {
            assert(b.changes(fb, x1, f));
        }
        let g = choose|g: int| #[trigger] b.changes(fb, x2, g);
        assert(x2 < fb.w()) by {
            assert(b.changes(fb, x2, g));
        }
    }
}

} // verus!
