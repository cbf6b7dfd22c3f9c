//! The pixel formats of captured buffers: the byte permutation that turns an arbitrary
//! byte-ordered 8888 format into the `[blue, green, red]` offsets that the framebuffer
//! wants.

use crate::bridge::capture;
use crate::bridge::capture::{Blit, ChannelMap, Framebuffer, XRGB};
use crate::util::transform;
use vstd::prelude::*;

verus! {

/// A `wl_shm` pixel format.
#[derive(Clone, Copy, PartialEq, Eq, Structural, Debug)]
pub enum Format {
    Xrgb8888,
    Argb8888,
    Xbgr8888,
    Abgr8888,
    Rgbx8888,
    Rgba8888,
    Bgrx8888,
    Bgra8888,
    /// Any other one, by its code.
    Other(u32),
}

/// The format that `wl_shm` numbers so: the two every compositor has, and the DRM
/// fourcc codes of the others.
pub fn format_of(code: u32) -> (f: Format)
    ensures
        f == (if code == 0 {
            Format::Argb8888
        } else if code == 1 {
            Format::Xrgb8888
        } else if code == 0x3432_4258 {
            Format::Xbgr8888
        } else if code == 0x3432_4241 {
            Format::Abgr8888
        } else if code == 0x3432_5852 {
            Format::Rgbx8888
        } else if code == 0x3432_4152 {
            Format::Rgba8888
        } else if code == 0x3432_5842 {
            Format::Bgrx8888
        } else if code == 0x3432_4142 {
            Format::Bgra8888
        } else {
            Format::Other(code)
        }),
{
    match code {
        0 => Format::Argb8888,
        1 => Format::Xrgb8888,
        0x3432_4258 => Format::Xbgr8888,
        0x3432_4241 => Format::Abgr8888,
        0x3432_5852 => Format::Rgbx8888,
        0x3432_4152 => Format::Rgba8888,
        0x3432_5842 => Format::Bgrx8888,
        0x3432_4142 => Format::Bgra8888,
        _ => Format::Other(code),
    }
}

/// Where in a little-endian 4-byte pixel the blue, green and red channels stand, and the
/// alpha channel if there is one: the reverse of the DRM fourcc channel order.
pub open spec fn layout(f: Format) -> Option<((int, int, int), Option<int>)> {
    match f {
        // memory B,G,R,x
        Format::Xrgb8888 => Some(((0, 1, 2), None)),
        Format::Argb8888 => Some(((0, 1, 2), Some(3))),
        // memory R,G,B,x
        Format::Xbgr8888 => Some(((2, 1, 0), None)),
        Format::Abgr8888 => Some(((2, 1, 0), Some(3))),
        // memory x,B,G,R
        Format::Rgbx8888 => Some(((1, 2, 3), None)),
        Format::Rgba8888 => Some(((1, 2, 3), Some(0))),
        // memory x,R,G,B
        Format::Bgrx8888 => Some(((3, 2, 1), None)),
        Format::Bgra8888 => Some(((3, 2, 1), Some(0))),
        Format::Other(_) => None,
    }
}

/// The offsets of a channel map.
pub open spec fn offsets(c: ChannelMap) -> (int, int, int) {
    (c[0] as int, c[1] as int, c[2] as int)
}

/// What [`pixel_layout`] says, in offsets.
pub open spec fn layout_view(r: Option<(ChannelMap, Option<usize>)>) -> Option<((int, int, int), Option<int>)> {
    match r {
        Some((c, a)) => Some(
            (
                offsets(c),
                match a {
                    Some(i) => Some(i as int),
                    None => None,
                },
            ),
        ),
        None => None,
    }
}

/// Byte offsets within a little-endian 4-byte pixel of the `[blue, green, red]`
/// channels, plus alpha if the format has it. `None` for packed or float formats (10-bit
/// and such) that need bit unpacking rather than a byte permutation.
pub fn pixel_layout(fmt: Format) -> (r: Option<(ChannelMap, Option<usize>)>)
    ensures
        layout_view(r) == layout(fmt),
{
    match fmt {
        Format::Xrgb8888 => Some(([0, 1, 2], None)),
        Format::Argb8888 => Some(([0, 1, 2], Some(3))),
        Format::Xbgr8888 => Some(([2, 1, 0], None)),
        Format::Abgr8888 => Some(([2, 1, 0], Some(3))),
        Format::Rgbx8888 => Some(([1, 2, 3], None)),
        Format::Rgba8888 => Some(([1, 2, 3], Some(0))),
        Format::Bgrx8888 => Some(([3, 2, 1], None)),
        Format::Bgra8888 => Some(([3, 2, 1], Some(0))),
        Format::Other(_) => None,
    }
}

/// Just the B,G,R source offsets, for blitting `fmt` into the framebuffer.
pub fn channel_map(fmt: Format) -> (r: Option<ChannelMap>)
    ensures
        r is Some == layout(fmt) is Some,
        r matches Some(c) ==> layout(fmt) matches Some((o, _)) && o == offsets(c),
{
    match pixel_layout(fmt) {
        Some((c, _)) => Some(c),
        None => None,
    }
}

/// The offsets that a format is blitted with: the native order for one that is no byte
/// permutation, whose colours may then be wrong.
pub open spec fn blit_offsets(fmt: Format) -> (int, int, int) {
    match layout(fmt) {
        Some((o, _)) => o,
        None => (0, 1, 2),
    }
}

/// [`channel_map`], falling back to the native order for a format that is no byte
/// permutation. Whether the colours are right is returned with it.
pub fn blit_channels(fmt: Format) -> (r: (ChannelMap, bool))
    ensures
        offsets(r.0) == blit_offsets(fmt),
        capture::channels_ok(r.0),
        r.1 == layout(fmt) is Some,
{
    match channel_map(fmt) {
        Some(c) => (c, true),
        None => (XRGB, false),
    }
}

/// Byte `i` of a pixel.
pub open spec fn byte_of(p: u32, i: int) -> int {
    if i == 0 {
        p as int % 256
    } else if i == 1 {
        p as int / 0x100 % 256
    } else if i == 2 {
        p as int / 0x1_0000 % 256
    } else {
        p as int / 0x100_0000
    }
}

/// A pixel as an X cursor has it (0xAARRGGBB). The formats without alpha are opaque, so
/// that an alpha-less cursor is not fully transparent.
pub open spec fn argb_of(p: u32, fmt: Option<Format>) -> u32 {
    match fmt {
        Some(f) => match layout(f) {
            Some(((b, g, r), a)) => ((match a {
                Some(i) => byte_of(p, i),
                None => 0xff,
            }) * 0x100_0000 + byte_of(p, r) * 0x1_0000 + byte_of(p, g) * 0x100 + byte_of(p, b)) as u32,
            None => opaque_of(p),
        },
        None => opaque_of(p),
    }
}

/// A pixel with full alpha.
pub open spec fn opaque_of(p: u32) -> u32 {
    (0xff00_0000 + p as int % 0x100_0000) as u32
}

fn byte(p: u32, i: usize) -> (b: u32)
    requires
        i < 4,
    ensures
        b == byte_of(p, i as int),
        b < 256,
{
    if i == 0 {
        p % 256
    } else if i == 1 {
        p / 0x100 % 256
    } else if i == 2 {
        p / 0x1_0000 % 256
    } else {
        p / 0x100_0000
    }
}

/// Converts a pixel of a format to X cursor ARGB.
pub fn argb(p: u32, fmt: Option<Format>) -> (v: u32)
    ensures
        v == argb_of(p, fmt),
{
    let known = match fmt {
        Some(f) => pixel_layout(f),
        None => None,
    };
    match known {
        Some((c, a)) => {
            let alpha: u32 = match a {
                Some(i) => byte(p, i),
                None => 0xff,
            };
            alpha * 0x100_0000 + byte(p, c[2]) * 0x1_0000 + byte(p, c[1]) * 0x100 + byte(p, c[0])
        },
        None => 0xff00_0000 + p % 0x100_0000,
    }
}

/// What a buffer is like.
#[derive(Clone, Copy, PartialEq, Eq, Structural, Debug)]
pub struct BufferSpec {
    pub format: Format,
    pub width: u32,
    pub height: u32,
    pub stride: u32,
}

impl BufferSpec {
    pub open spec fn bytes(self) -> int {
        self.stride * self.height
    }

    /// How many bytes a buffer has; `None` for one of none, which cannot be made.
    pub fn size(&self) -> (r: Option<u64>)
        ensures
            r == (if self.bytes() == 0 {
                None
            } else {
                Some(self.bytes() as u64)
            }),
            0 <= self.bytes() <= u64::MAX,
    {
        assert(0 <= self.stride * self.height <= 0xffff_ffff * 0xffff_ffff) by (nonlinear_arith)
            requires
                0 <= self.stride <= 0xffff_ffff,
                0 <= self.height <= 0xffff_ffff,
        ;
        let size: u64 = self.stride as u64 * self.height as u64;
        if size == 0 {
            None
        } else {
            Some(size)
        }
    }
}

/// The channels of a byte-ordered format are different bytes of the pixel.
pub proof fn law_channels_are_different_bytes(fmt: Format)
    requires
        layout(fmt) is Some,
    ensures
        ({
            let ((b, g, r), a) = layout(fmt)->0;
            &&& 0 <= b < 4 && 0 <= g < 4 && 0 <= r < 4
            &&& b != g && g != r && b != r
            &&& a matches Some(i) ==> 0 <= i < 4 && i != b && i != g && i != r
        }),
{
}

/// The two formats that are in the framebuffer's own order need no permutation.
pub proof fn law_native_formats_are_not_permuted()
    ensures
        blit_offsets(Format::Xrgb8888) == (0int, 1int, 2int),
        blit_offsets(Format::Argb8888) == (0int, 1int, 2int),
        forall|p: u32| #[trigger] argb_of(p, Some(Format::Argb8888)) == p,
{
    assert forall|p: u32| #[trigger] argb_of(p, Some(Format::Argb8888)) == p by {
        let q = p as int;
        assert(q == q / 0x100_0000 * 0x100_0000 + q / 0x1_0000 % 256 * 0x1_0000 + q / 0x100 % 256 * 0x100 + q % 256);
    }
}

/// The word with these bytes, the most significant one first.
pub open spec fn word(b3: u8, b2: u8, b1: u8, b0: u8) -> u32 {
    (b3 * 0x100_0000 + b2 * 0x1_0000 + b1 * 0x100 + b0) as u32
}

/// A pixel with this colour and this alpha (or unused) byte, packed as DRM defines the
/// format that `wl_shm` has the name of: the letters name the channels from the most
/// significant byte of the little-endian word down.
pub open spec fn packs(fmt: Format, p: u32, r: u8, g: u8, b: u8, a: u8) -> bool {
    match fmt {
        Format::Xrgb8888 | Format::Argb8888 => p == word(a, r, g, b),
        Format::Xbgr8888 | Format::Abgr8888 => p == word(a, b, g, r),
        Format::Rgbx8888 | Format::Rgba8888 => p == word(r, g, b, a),
        Format::Bgrx8888 | Format::Bgra8888 => p == word(b, g, r, a),
        Format::Other(_) => false,
    }
}

proof fn lemma_word(b3: u8, b2: u8, b1: u8, b0: u8)
    ensures
        byte_of(word(b3, b2, b1, b0), 0) == b0,
        byte_of(word(b3, b2, b1, b0), 1) == b1,
        byte_of(word(b3, b2, b1, b0), 2) == b2,
        byte_of(word(b3, b2, b1, b0), 3) == b3,
{
    let p = b3 * 0x100_0000 + b2 * 0x1_0000 + b1 * 0x100 + b0;
    assert(p / 0x100 == b3 * 0x1_0000 + b2 * 0x100 + b1);
    assert(p / 0x1_0000 == b3 * 0x100 + b2);
    assert(p / 0x100_0000 == b3);
}

/// A pixel of a byte-ordered format has, as X cursor ARGB, the colour that it was packed
/// from, with its own alpha if the format has one, and opaque if it has none.
#[verifier::spinoff_prover]
#[verifier::rlimit(80)]
pub proof fn law_argb_gives_back_the_packed_colour(fmt: Format, p: u32, r: u8, g: u8, b: u8, a: u8)
    requires
        packs(fmt, p, r, g, b, a),
    ensures
        match fmt {
            Format::Argb8888 | Format::Abgr8888 | Format::Rgba8888 | Format::Bgra8888 => argb_of(p, Some(fmt)) == word(
                a,
                r,
                g,
                b,
            ),
            _ => argb_of(p, Some(fmt)) == word(0xff, r, g, b),
        },
{
    lemma_word(a, r, g, b);
    lemma_word(a, b, g, r);
    lemma_word(r, g, b, a);
    lemma_word(b, g, r, a);
}

/// A pixel of any other format, or of none that is known, is taken for xRGB.
pub proof fn law_argb_takes_other_formats_for_xrgb(code: u32, x: u8, r: u8, g: u8, b: u8)
    ensures
        argb_of(word(x, r, g, b), None) == word(0xff, r, g, b),
        argb_of(word(x, r, g, b), Some(Format::Other(code))) == word(0xff, r, g, b),
{
}

/// A buffer of a byte-ordered format that is blitted shows the colours that its pixels
/// were packed from: where the buffer's pixel `(bx, by)` lands, the framebuffer has its
/// blue, green and red, in that order.
#[verifier::spinoff_prover]
#[verifier::rlimit(80)]
pub proof fn law_blits_give_back_the_packed_colour(
    blit: Blit,
    fmt: Format,
    before: Framebuffer,
    after: Framebuffer,
    bx: int,
    by: int,
    r: u8,
    g: u8,
    b: u8,
    a: u8,
)
    requires
        offsets(blit.chan) == blit_offsets(fmt),
        blit.applied(before, after),
        0 <= bx < blit.width,
        0 <= by < blit.height,
        ({
            let (dx, dy) = blit.transform.pixel(bx, by, blit.width, blit.height);
            blit.covers(blit.ox + dx, blit.oy + dy, before.w(), before.h())
        }),
        ({
            let row = if blit.y_invert { blit.height - 1 - by } else { by };
            let o = row * blit.stride + bx * 4;
            packs(fmt, word(blit.src[o + 3], blit.src[o + 2], blit.src[o + 1], blit.src[o]), r, g, b, a)
        }),
    ensures
        ({
            let (dx, dy) = blit.transform.pixel(bx, by, blit.width, blit.height);
            let (x, y) = (blit.ox + dx, blit.oy + dy);
            after.byte_at(x, y, 0) == b && after.byte_at(x, y, 1) == g && after.byte_at(x, y, 2) == r
        }),
{
    let (dx, dy) = blit.transform.pixel(bx, by, blit.width, blit.height);
    let (x, y) = (blit.ox + dx, blit.oy + dy);
    let o = blit.offset(bx, by);
    let (s3, s2, s1, s0) = (blit.src[o + 3], blit.src[o + 2], blit.src[o + 1], blit.src[o]);
    transform::law_pixel_under_undoes_pixel(blit.transform, bx, by, dx, dy, blit.width, blit.height);
    assert(blit.under(x, y) == (bx, by));
    assert(s3 == byte_of(word(s3, s2, s1, s0), 3) && s2 == byte_of(word(s3, s2, s1, s0), 2) && s1 == byte_of(
        word(s3, s2, s1, s0),
        1,
    ) && s0 == byte_of(word(s3, s2, s1, s0), 0)) by {
        lemma_word(s3, s2, s1, s0);
    }
    assert(blit.src[o + blit.chan[0]] == b && blit.src[o + blit.chan[1]] == g && blit.src[o + blit.chan[2]] == r) by {
        lemma_word(a, r, g, b);
        lemma_word(a, b, g, r);
        lemma_word(r, g, b, a);
        lemma_word(b, g, r, a);
    }
    assert(after.byte_at(x, y, 0) == blit.shown(before, x, y, 0));
    assert(after.byte_at(x, y, 1) == blit.shown(before, x, y, 1));
    assert(after.byte_at(x, y, 2) == blit.shown(before, x, y, 2));
}

/// The codes of the formats are the DRM fourcc codes, four letters from the least
/// significant byte up, but for the two that `wl_shm` numbers itself.
pub proof fn law_codes_spell_the_formats(code: u32, f: Format)
    requires
        call_ensures(format_of, (code,), f),
    ensures
        f == Format::Argb8888 <==> code == 0,
        f == Format::Xrgb8888 <==> code == 1,
        f == Format::Xbgr8888 <==> code == word(0x34, 0x32, 0x42, 0x58),
        f == Format::Abgr8888 <==> code == word(0x34, 0x32, 0x42, 0x41),
        f == Format::Rgbx8888 <==> code == word(0x34, 0x32, 0x58, 0x52),
        f == Format::Rgba8888 <==> code == word(0x34, 0x32, 0x41, 0x52),
        f == Format::Bgrx8888 <==> code == word(0x34, 0x32, 0x58, 0x42),
        f == Format::Bgra8888 <==> code == word(0x34, 0x32, 0x41, 0x42),
        f matches Format::Other(c) ==> c == code,
{
}

} // verus!
