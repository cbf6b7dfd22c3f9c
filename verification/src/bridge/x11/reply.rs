//! The replies, as bytes up to where they are padded: [`wire::build_reply`] makes them
//! as long as the wire wants them and puts their length in, and the sequence number is
//! stamped as they are queued.

use crate::bridge::x11::randr::{ModeInfo, MAX_SCREEN};
use crate::bridge::x11::request::{Ask, MAX_REQUEST_LENGTH};
use crate::bridge::x11::wire;
use crate::bridge::x11::{ROOT_COLORMAP, ROOT_DEPTH, ROOT_VISUAL, ROOT_WINDOW};
use crate::util::geometry::Rectangle;
use crate::util::list;
use vstd::prelude::*;

verus! {

/// How a reply starts: that it is one, a byte of its own, and room for the sequence
/// number and the length.
pub open spec fn start_bytes(detail: u8) -> Seq<u8> {
    seq![1u8, detail, 0, 0, 0, 0, 0, 0]
}

fn start(detail: u8) -> (v: Vec<u8>)
    ensures
        v@ == start_bytes(detail),
{
    let mut v: Vec<u8> = Vec::with_capacity(32);
    v.push(1);
    v.push(detail);
    wire::put_zeros(&mut v, 6);
    assert(v@ =~= start_bytes(detail));
    v
}

/// The pixel of a colour: the upper halves of the channels, as red, green and blue.
pub open spec fn pixel_of(red: u16, green: u16, blue: u16) -> u32 {
    (red / 256 * 0x1_0000 + green / 256 * 0x100 + blue / 256) as u32
}

fn pixel(red: u16, green: u16, blue: u16) -> (p: u32)
    ensures
        p == pixel_of(red, green, blue),
{
    (red / 256) as u32 * 0x1_0000 + (green / 256) as u32 * 0x100 + (blue / 256) as u32
}

/// The colour of a pixel, whose channels fill both halves of 16 bits.
pub open spec fn colour_bytes(p: u32) -> Seq<u8> {
    wire::le16((p / 0x1_0000 % 256 * 257) as u16) + wire::le16((p / 0x100 % 256 * 257) as u16) + wire::le16(
        (p % 256 * 257) as u16,
    ) + wire::zeros(2)
}

/// The colours of pixels.
pub open spec fn colours_bytes(pixels: Seq<u32>) -> Seq<u8>
    decreases pixels.len(),
{
    if pixels.len() == 0 {
        Seq::empty()
    } else {
        colours_bytes(pixels.drop_last()) + colour_bytes(pixels.last())
    }
}

/// How wide a text is: six pixels a character, in 32 bits.
pub open spec fn text_width(characters: u64) -> i32 {
    (characters * 6 % 0x1_0000_0000) as u32 as i32
}

fn width_of(characters: u64) -> (n: i32)
    ensures
        n == text_width(characters),
{
    (characters as u128 * 6 % 0x1_0000_0000) as u32 as i32
}

/// The one glyph of the one font: six pixels wide, eleven up and two down.
pub open spec fn glyph_bytes() -> Seq<u8> {
    wire::le_i16(0) + wire::le_i16(6) + wire::le_i16(6) + wire::le_i16(11) + wire::le_i16(2) + wire::le16(0)
}

fn glyph(v: &mut Vec<u8>)
    ensures
        final(v)@ == old(v)@ + glyph_bytes(),
{
    wire::put_i16(v, 0);
    wire::put_i16(v, 6);
    wire::put_i16(v, 6);
    wire::put_i16(v, 11);
    wire::put_i16(v, 2);
    wire::put16(v, 0);
    assert(v@ =~= old(v)@ + glyph_bytes());
}

/// The RENDER identity transform: 1.0 on the diagonal, in 16.16 fixed point.
pub open spec fn identity_bytes() -> Seq<u8> {
    wire::le_i32(0x1_0000) + wire::zeros(12) + wire::le_i32(0x1_0000) + wire::zeros(12) + wire::le_i32(0x1_0000)
}

fn identity_transform(v: &mut Vec<u8>)
    ensures
        final(v)@ == old(v)@ + identity_bytes(),
{
    wire::put_i32(v, 0x1_0000);
    wire::put_zeros(v, 12);
    wire::put_i32(v, 0x1_0000);
    wire::put_zeros(v, 12);
    wire::put_i32(v, 0x1_0000);
    assert(v@ =~= old(v)@ + identity_bytes());
}

/// The linear gamma ramp.
pub open spec fn ramp() -> Seq<u16> {
    Seq::new(256, |i: int| (i * 65535 / 255) as u16)
}

fn gamma_ramp() -> (v: Vec<u16>)
    ensures
        v@ == ramp(),
{
    let mut v: Vec<u16> = Vec::with_capacity(256);
    let mut i: u32 = 0;
    while i < 256
        invariant
            i <= 256,
            v@ =~= ramp().take(i as int),
        decreases 256 - i,
    {
        v.push((i * 65535 / 255) as u16);
        i += 1;
    }
    v
}

/// The replies that do not depend on anything but the request.
pub open spec fn fixed_bytes(ask: Ask) -> Option<Seq<u8>> {
    match ask {
        Ask::GetInputFocus => Some(start_bytes(1) + wire::le32(ROOT_WINDOW)),
        Ask::QueryTree => Some(start_bytes(0) + wire::le32(ROOT_WINDOW) + wire::le32(0) + wire::le16(0) + wire::zeros(14)),
        Ask::TranslateCoordinates { x, y } => Some(start_bytes(1) + wire::le32(0) + wire::le_i16(x) + wire::le_i16(y)),
        Ask::GetWindowAttributes => Some(((((((start_bytes(0) + wire::le32(ROOT_VISUAL) + wire::le16(1)).push(1)).push(1) + wire::le32(0) + wire::le32(0)).push(0)).push(1)).push(2)).push(0) + wire::le32(ROOT_COLORMAP) + wire::le32(0) + wire::le32(0) + wire::le16(0) + wire::zeros(2)),
        Ask::GetPointerControl => Some(start_bytes(0) + wire::le16(2) + wire::le16(1) + wire::le16(4) + wire::zeros(18)),
        Ask::GetScreenSaver => Some(((start_bytes(0) + wire::le16(0) + wire::le16(0)).push(0)).push(0) + wire::zeros(18)),
        Ask::GetFontPath => Some(start_bytes(0) + wire::le16(0) + wire::zeros(22)),
        Ask::GetPointerMapping => Some((((((((start_bytes(7) + wire::zeros(24)).push(1)).push(2)).push(3)).push(4)).push(5)).push(6)).push(7)),
        Ask::QueryKeymap => Some(start_bytes(0) + wire::zeros(32)),
        Ask::GetKeyboardControl => Some(((start_bytes(1) + wire::le32(0)).push(0)).push(0) + wire::le16(0) + wire::le16(0) + wire::zeros(2) + wire::zeros(32)),
        Ask::AllocColor { red, green, blue } => Some(start_bytes(0) + wire::le16(red) + wire::le16(green) + wire::le16(blue) + wire::zeros(2) + wire::le32(pixel_of(red, green, blue))),
        Ask::LookupColor => Some(start_bytes(0) + wire::zeros(12)),
        Ask::QueryBestSize { width, height } => Some(start_bytes(0) + wire::le16(width) + wire::le16(height)),
        Ask::QueryFont => Some(((((start_bytes(0) + glyph_bytes() + wire::zeros(4) + glyph_bytes() + wire::zeros(4) + wire::le16(32) + wire::le16(126) + wire::le16(32) + wire::le16(0)).push(0)).push(0)).push(0)).push(1) + wire::le_i16(11) + wire::le_i16(2) + wire::le32(0)),
        Ask::QueryTextExtents { characters } => Some(start_bytes(0) + wire::le_i16(11) + wire::le_i16(2) + wire::le_i16(11) + wire::le_i16(2) + wire::le_i32(text_width(characters)) + wire::le_i32(0) + wire::le_i32(text_width(characters))),
        Ask::ListInstalledColormaps => Some(start_bytes(0) + wire::le16(1) + wire::zeros(22) + wire::le32(ROOT_COLORMAP)),
        Ask::GrabPointer => Some(start_bytes(0)),
        Ask::GrabKeyboard => Some(start_bytes(0)),
        Ask::XtestGetVersion => Some(start_bytes(2) + wire::le16(2)),
        Ask::XtestCompareCursor => Some(start_bytes(1)),
        Ask::BigreqEnable => Some(start_bytes(0) + wire::le32(MAX_REQUEST_LENGTH)),
        Ask::RandrQueryVersion => Some(start_bytes(0) + wire::le32(1) + wire::le32(6) + wire::zeros(16)),
        Ask::RandrGetScreenSizeRange => Some(start_bytes(0) + wire::le16(8) + wire::le16(8) + wire::le16(MAX_SCREEN) + wire::le16(MAX_SCREEN) + wire::zeros(16)),
        Ask::RandrGetCrtcGammaSize => Some(start_bytes(0) + wire::le16(256) + wire::zeros(22)),
        Ask::RandrGetCrtcGamma => Some(start_bytes(0) + wire::le16(256) + wire::zeros(22) + wire::le16s(ramp()) + wire::le16s(ramp()) + wire::le16s(ramp())),
        Ask::RandrGetCrtcTransform => Some((start_bytes(0) + identity_bytes()).push(0) + wire::zeros(3) + identity_bytes() + wire::zeros(4) + wire::le16(0) + wire::le16(0) + wire::le16(0) + wire::le16(0)),
        Ask::RandrListOutputProperties => Some(start_bytes(0) + wire::le16(0) + wire::zeros(22)),
        Ask::RandrGetOutputProperty => Some(start_bytes(0) + wire::le32(0) + wire::le32(0) + wire::le32(0) + wire::zeros(12)),
        Ask::RandrQueryOutputProperty => Some(start_bytes(0).push(0).push(0).push(1) + wire::zeros(21)),
        Ask::DamageQueryVersion => Some(start_bytes(0) + wire::le32(1) + wire::le32(1) + wire::zeros(16)),
        Ask::XfixesQueryVersion => Some(start_bytes(0) + wire::le32(5) + wire::le32(0) + wire::zeros(16)),
        Ask::XfixesGetCursorName => Some(start_bytes(0) + wire::le32(0) + wire::le16(0) + wire::zeros(18)),
        Ask::XfixesGetClientDisconnectMode => Some(start_bytes(0) + wire::le32(0) + wire::zeros(20)),
        Ask::ShmQueryVersion => Some((start_bytes(0) + wire::le16(1) + wire::le16(2) + wire::le16(0) + wire::le16(0)).push(2) + wire::zeros(15)),
        _ => None,
    }
}

/// The reply to a request whose answer is always the same. `None` where it is not one.
#[verifier::rlimit(40)]
pub fn fixed(ask: Ask) -> (r: Option<Vec<u8>>)
    ensures
        match r {
            Some(v) => Some(v@),
            None => None,
        } == fixed_bytes(ask),
{
    match ask {
        Ask::GetInputFocus => {
            let mut v = start(1);
            wire::put32(&mut v, ROOT_WINDOW);
            Some(v)
        },
        Ask::QueryTree => {
            let mut v = start(0);
            wire::put32(&mut v, ROOT_WINDOW);
            wire::put32(&mut v, 0);
            wire::put16(&mut v, 0);
            wire::put_zeros(&mut v, 14);
            Some(v)
        },
        Ask::TranslateCoordinates { x, y } => {
            let mut v = start(1);
            wire::put32(&mut v, 0);
            wire::put_i16(&mut v, x);
            wire::put_i16(&mut v, y);
            Some(v)
        },
        Ask::GetWindowAttributes => {
            let mut v = start(0);
            wire::put32(&mut v, ROOT_VISUAL);
            wire::put16(&mut v, 1);
            v.push(1);
            v.push(1);
            wire::put32(&mut v, 0);
            wire::put32(&mut v, 0);
            v.push(0);
            v.push(1);
            v.push(2);
            v.push(0);
            wire::put32(&mut v, ROOT_COLORMAP);
            wire::put32(&mut v, 0);
            wire::put32(&mut v, 0);
            wire::put16(&mut v, 0);
            wire::put_zeros(&mut v, 2);
            Some(v)
        },
        Ask::GetPointerControl => {
            let mut v = start(0);
            wire::put16(&mut v, 2);
            wire::put16(&mut v, 1);
            wire::put16(&mut v, 4);
            wire::put_zeros(&mut v, 18);
            Some(v)
        },
        Ask::GetScreenSaver => {
            let mut v = start(0);
            wire::put16(&mut v, 0);
            wire::put16(&mut v, 0);
            v.push(0);
            v.push(0);
            wire::put_zeros(&mut v, 18);
            Some(v)
        },
        Ask::GetFontPath => {
            let mut v = start(0);
            wire::put16(&mut v, 0);
            wire::put_zeros(&mut v, 22);
            Some(v)
        },
        Ask::GetPointerMapping => {
            let mut v = start(7);
            wire::put_zeros(&mut v, 24);
            v.push(1);
            v.push(2);
            v.push(3);
            v.push(4);
            v.push(5);
            v.push(6);
            v.push(7);
            Some(v)
        },
        Ask::QueryKeymap => {
            let mut v = start(0);
            wire::put_zeros(&mut v, 32);
            Some(v)
        },
        Ask::GetKeyboardControl => {
            let mut v = start(1);
            wire::put32(&mut v, 0);
            v.push(0);
            v.push(0);
            wire::put16(&mut v, 0);
            wire::put16(&mut v, 0);
            wire::put_zeros(&mut v, 2);
            wire::put_zeros(&mut v, 32);
            Some(v)
        },
        Ask::AllocColor { red, green, blue } => {
            let mut v = start(0);
            wire::put16(&mut v, red);
            wire::put16(&mut v, green);
            wire::put16(&mut v, blue);
            wire::put_zeros(&mut v, 2);
            wire::put32(&mut v, pixel(red, green, blue));
            Some(v)
        },
        Ask::LookupColor => {
            let mut v = start(0);
            wire::put_zeros(&mut v, 12);
            Some(v)
        },
        Ask::QueryBestSize { width, height } => {
            let mut v = start(0);
            wire::put16(&mut v, width);
            wire::put16(&mut v, height);
            Some(v)
        },
        Ask::QueryFont => {
            let mut v = start(0);
            glyph(&mut v);
            wire::put_zeros(&mut v, 4);
            glyph(&mut v);
            wire::put_zeros(&mut v, 4);
            wire::put16(&mut v, 32);
            wire::put16(&mut v, 126);
            wire::put16(&mut v, 32);
            wire::put16(&mut v, 0);
            v.push(0);
            v.push(0);
            v.push(0);
            v.push(1);
            wire::put_i16(&mut v, 11);
            wire::put_i16(&mut v, 2);
            wire::put32(&mut v, 0);
            Some(v)
        },
        Ask::QueryTextExtents { characters } => {
            let mut v = start(0);
            wire::put_i16(&mut v, 11);
            wire::put_i16(&mut v, 2);
            wire::put_i16(&mut v, 11);
            wire::put_i16(&mut v, 2);
            wire::put_i32(&mut v, width_of(characters));
            wire::put_i32(&mut v, 0);
            wire::put_i32(&mut v, width_of(characters));
            Some(v)
        },
        Ask::ListInstalledColormaps => {
            let mut v = start(0);
            wire::put16(&mut v, 1);
            wire::put_zeros(&mut v, 22);
            wire::put32(&mut v, ROOT_COLORMAP);
            Some(v)
        },
        Ask::GrabPointer => {
            let mut v = start(0);
            Some(v)
        },
        Ask::GrabKeyboard => {
            let mut v = start(0);
            Some(v)
        },
        Ask::XtestGetVersion => {
            let mut v = start(2);
            wire::put16(&mut v, 2);
            Some(v)
        },
        Ask::XtestCompareCursor => {
            let mut v = start(1);
            Some(v)
        },
        Ask::BigreqEnable => {
            let mut v = start(0);
            wire::put32(&mut v, MAX_REQUEST_LENGTH);
            Some(v)
        },
        Ask::RandrQueryVersion => {
            let mut v = start(0);
            wire::put32(&mut v, 1);
            wire::put32(&mut v, 6);
            wire::put_zeros(&mut v, 16);
            Some(v)
        },
        Ask::RandrGetScreenSizeRange => {
            let mut v = start(0);
            wire::put16(&mut v, 8);
            wire::put16(&mut v, 8);
            wire::put16(&mut v, MAX_SCREEN);
            wire::put16(&mut v, MAX_SCREEN);
            wire::put_zeros(&mut v, 16);
            Some(v)
        },
        Ask::RandrGetCrtcGammaSize => {
            let mut v = start(0);
            wire::put16(&mut v, 256);
            wire::put_zeros(&mut v, 22);
            Some(v)
        },
        Ask::RandrGetCrtcGamma => {
            let ramp = gamma_ramp();
            let mut v = start(0);
            wire::put16(&mut v, 256);
            wire::put_zeros(&mut v, 22);
            wire::put16s(&mut v, &ramp);
            wire::put16s(&mut v, &ramp);
            wire::put16s(&mut v, &ramp);
            Some(v)
        },
        Ask::RandrGetCrtcTransform => {
            let mut v = start(0);
            identity_transform(&mut v);
            v.push(0);
            wire::put_zeros(&mut v, 3);
            identity_transform(&mut v);
            wire::put_zeros(&mut v, 4);
            wire::put16(&mut v, 0);
            wire::put16(&mut v, 0);
            wire::put16(&mut v, 0);
            wire::put16(&mut v, 0);
            Some(v)
        },
        Ask::RandrListOutputProperties => {
            let mut v = start(0);
            wire::put16(&mut v, 0);
            wire::put_zeros(&mut v, 22);
            Some(v)
        },
        Ask::RandrGetOutputProperty => {
            let mut v = start(0);
            wire::put32(&mut v, 0);
            wire::put32(&mut v, 0);
            wire::put32(&mut v, 0);
            wire::put_zeros(&mut v, 12);
            Some(v)
        },
        Ask::RandrQueryOutputProperty => {
            let mut v = start(0);
            v.push(0);
            v.push(0);
            v.push(1);
            wire::put_zeros(&mut v, 21);
            Some(v)
        },
        Ask::DamageQueryVersion => {
            let mut v = start(0);
            wire::put32(&mut v, 1);
            wire::put32(&mut v, 1);
            wire::put_zeros(&mut v, 16);
            Some(v)
        },
        Ask::XfixesQueryVersion => {
            let mut v = start(0);
            wire::put32(&mut v, 5);
            wire::put32(&mut v, 0);
            wire::put_zeros(&mut v, 16);
            Some(v)
        },
        Ask::XfixesGetCursorName => {
            let mut v = start(0);
            wire::put32(&mut v, 0);
            wire::put16(&mut v, 0);
            wire::put_zeros(&mut v, 18);
            Some(v)
        },
        Ask::XfixesGetClientDisconnectMode => {
            let mut v = start(0);
            wire::put32(&mut v, 0);
            wire::put_zeros(&mut v, 20);
            Some(v)
        },
        Ask::ShmQueryVersion => {
            let mut v = start(0);
            wire::put16(&mut v, 1);
            wire::put16(&mut v, 2);
            wire::put16(&mut v, 0);
            wire::put16(&mut v, 0);
            v.push(2);
            wire::put_zeros(&mut v, 15);
            Some(v)
        },
        _ => None,
    }
}

/// `InternAtom`, `GetSelectionOwner`, `GetOutputPrimary`: one word.
pub open spec fn word_bytes(w: u32) -> Seq<u8> {
    start_bytes(0) + wire::le32(w)
}

pub fn word(w: u32) -> (v: Vec<u8>)
    ensures
        v@ == word_bytes(w),
{
    let mut v = start(0);
    wire::put32(&mut v, w);
    v
}

/// `GetAtomName`.
pub open spec fn name_bytes(name: Seq<u8>) -> Seq<u8> {
    start_bytes(0) + wire::le16(name.len() as u16) + wire::zeros(22) + name
}

pub fn name(n: &[u8]) -> (v: Vec<u8>)
    requires
        n@.len() <= 0xffff,
    ensures
        v@ == name_bytes(n@),
{
    assert(n.len() == n@.len());
    let mut v = start(0);
    wire::put16(&mut v, n.len() as u16);
    wire::put_zeros(&mut v, 22);
    list::append_bytes(&mut v, n);
    v
}

/// `ListProperties`.
pub open spec fn atoms_bytes(atoms: Seq<u32>) -> Seq<u8> {
    start_bytes(0) + wire::le16(atoms.len() as u16) + wire::zeros(22) + wire::le32s(atoms)
}

pub fn atoms(a: &Vec<u32>) -> (v: Vec<u8>)
    requires
        a@.len() <= 0xffff,
    ensures
        v@ == atoms_bytes(a@),
{
    let mut v = start(0);
    wire::put16(&mut v, a.len() as u16);
    wire::put_zeros(&mut v, 22);
    wire::put32s(&mut v, a);
    v
}

/// `QueryExtension`: whether the extension is there, its opcode, its first event and
/// its first error.
pub open spec fn extension_bytes(present: bool, major: u8, event: u8, error: u8) -> Seq<u8> {
    start_bytes(0).push(if present { 1u8 } else { 0u8 }).push(major).push(event).push(error)
}

pub fn extension(present: bool, major: u8, event: u8, error: u8) -> (v: Vec<u8>)
    ensures
        v@ == extension_bytes(present, major, event, error),
{
    let mut v = start(0);
    v.push(if present { 1 } else { 0 });
    v.push(major);
    v.push(event);
    v.push(error);
    v
}

/// Strings, each with its length in front.
pub open spec fn strings_bytes(names: Seq<Seq<u8>>) -> Seq<u8>
    decreases names.len(),
{
    if names.len() == 0 {
        Seq::empty()
    } else {
        strings_bytes(names.drop_last()) + seq![names.last().len() as u8] + names.last()
    }
}

/// `ListExtensions`.
pub open spec fn list_bytes(names: Seq<Seq<u8>>) -> Seq<u8> {
    start_bytes(names.len() as u8) + wire::zeros(24) + strings_bytes(names)
}

pub open spec fn string_views(names: Seq<Vec<u8>>) -> Seq<Seq<u8>> {
    names.map_values(|n: Vec<u8>| n@)
}

pub fn list(names: &Vec<Vec<u8>>) -> (v: Vec<u8>)
    requires
        names@.len() <= 255,
        forall|i: int| 0 <= i < names@.len() ==> (#[trigger] names@[i])@.len() <= 255,
    ensures
        v@ == list_bytes(string_views(names@)),
{
    let ghost all = string_views(names@);
    let mut v = start(names.len() as u8);
    wire::put_zeros(&mut v, 24);
    let ghost head = v@;
    let mut i: usize = 0;
    assert(strings_bytes(all.take(0)) =~= Seq::empty());
    assert(v@ =~= head + strings_bytes(all.take(0)));
    while i < names.len()
        invariant
            i <= names.len(),
            all == string_views(names@),
            forall|j: int| 0 <= j < names@.len() ==> (#[trigger] names@[j])@.len() <= 255,
            v@ == head + strings_bytes(all.take(i as int)),
        decreases names.len() - i,
    {
        let ghost before = v@;
        v.push(names[i].len() as u8);
        list::append_bytes(&mut v, names[i].as_slice());
        proof {
            assert(all.take(i as int + 1).drop_last() =~= all.take(i as int));
            assert(all.take(i as int + 1).last() == names@[i as int]@);
            assert(v@ =~= head + strings_bytes(all.take(i as int + 1)));
        }
        i += 1;
    }
    assert(all.take(i as int) =~= all);
    v
}

/// `QueryColors`.
pub open spec fn query_colors_bytes(pixels: Seq<u32>) -> Seq<u8> {
    start_bytes(0) + wire::le16(pixels.len() as u16) + wire::zeros(22) + colours_bytes(pixels)
}

pub fn query_colors(pixels: &Vec<u32>) -> (v: Vec<u8>)
    requires
        pixels@.len() <= 0xffff,
    ensures
        v@ == query_colors_bytes(pixels@),
{
    let mut v = start(0);
    wire::put16(&mut v, pixels.len() as u16);
    wire::put_zeros(&mut v, 22);
    let ghost head = v@;
    let mut i: usize = 0;
    assert(colours_bytes(pixels@.take(0)) =~= Seq::empty());
    assert(v@ =~= head + colours_bytes(pixels@.take(0)));
    while i < pixels.len()
        invariant
            i <= pixels.len(),
            v@ == head + colours_bytes(pixels@.take(i as int)),
        decreases pixels.len() - i,
    {
        let p: u32 = pixels[i];
        let ghost before = v@;
        wire::put16(&mut v, (p / 0x1_0000 % 256 * 257) as u16);
        wire::put16(&mut v, (p / 0x100 % 256 * 257) as u16);
        wire::put16(&mut v, (p % 256 * 257) as u16);
        wire::put_zeros(&mut v, 2);
        assert(v@ =~= before + colour_bytes(p));
        assert(pixels@.take(i as int + 1).drop_last() =~= pixels@.take(i as int));
        assert(v@ =~= head + colours_bytes(pixels@.take(i as int + 1)));
        i += 1;
    }
    assert(pixels@.take(i as int) =~= pixels@);
    v
}

/// `GetGeometry`: every drawable is the screen.
pub open spec fn geometry_bytes(width: u16, height: u16) -> Seq<u8> {
    start_bytes(ROOT_DEPTH) + wire::le32(ROOT_WINDOW) + wire::le_i16(0) + wire::le_i16(0) + wire::le16(width)
        + wire::le16(height) + wire::le16(0) + wire::zeros(2)
}

pub fn geometry(width: u16, height: u16) -> (v: Vec<u8>)
    ensures
        v@ == geometry_bytes(width, height),
{
    let mut v = start(ROOT_DEPTH);
    wire::put32(&mut v, ROOT_WINDOW);
    wire::put_i16(&mut v, 0);
    wire::put_i16(&mut v, 0);
    wire::put16(&mut v, width);
    wire::put16(&mut v, height);
    wire::put16(&mut v, 0);
    wire::put_zeros(&mut v, 2);
    v
}

/// `QueryPointer`.
pub open spec fn pointer_bytes(x: i16, y: i16) -> Seq<u8> {
    start_bytes(1) + wire::le32(ROOT_WINDOW) + wire::le32(0) + wire::le_i16(x) + wire::le_i16(y) + wire::le_i16(x)
        + wire::le_i16(y) + wire::le16(0) + wire::zeros(2)
}

pub fn pointer(x: i16, y: i16) -> (v: Vec<u8>)
    ensures
        v@ == pointer_bytes(x, y),
{
    let mut v = start(1);
    wire::put32(&mut v, ROOT_WINDOW);
    wire::put32(&mut v, 0);
    wire::put_i16(&mut v, x);
    wire::put_i16(&mut v, y);
    wire::put_i16(&mut v, x);
    wire::put_i16(&mut v, y);
    wire::put16(&mut v, 0);
    wire::put_zeros(&mut v, 2);
    v
}

/// `GetKeyboardMapping`: so many keysyms a keycode, and the keysyms.
pub open spec fn keyboard_bytes(per: u8, keysyms: Seq<u32>) -> Seq<u8> {
    start_bytes(per) + wire::zeros(24) + wire::le32s(keysyms)
}

pub fn keyboard(per: u8, keysyms: &Vec<u32>) -> (v: Vec<u8>)
    ensures
        v@ == keyboard_bytes(per, keysyms@),
{
    let mut v = start(per);
    wire::put_zeros(&mut v, 24);
    wire::put32s(&mut v, keysyms);
    v
}

/// `GetModifierMapping`: eight rows of keycodes.
pub open spec fn modifiers_bytes(keycodes: Seq<u8>) -> Seq<u8> {
    start_bytes((keycodes.len() / 8) as u8) + wire::zeros(24) + keycodes
}

pub fn modifiers(keycodes: &Vec<u8>) -> (v: Vec<u8>)
    requires
        keycodes@.len() % 8 == 0,
        keycodes@.len() / 8 <= 255,
    ensures
        v@ == modifiers_bytes(keycodes@),
{
    let mut v = start((keycodes.len() / 8) as u8);
    wire::put_zeros(&mut v, 24);
    list::append_bytes(&mut v, keycodes.as_slice());
    v
}

/// A mode, as RandR lists it.
pub open spec fn mode_bytes(m: ModeInfo) -> Seq<u8> {
    wire::le32(m.id) + wire::le16(m.width) + wire::le16(m.height) + wire::le32(m.dot_clock) + wire::le16(m.hsync_start)
        + wire::le16(m.hsync_end) + wire::le16(m.htotal) + wire::le16(m.hskew) + wire::le16(m.vsync_start) + wire::le16(
        m.vsync_end,
    ) + wire::le16(m.vtotal) + wire::le16(m.name_len) + wire::le32(m.mode_flags)
}

/// Modes, as RandR lists them.
pub open spec fn modes_bytes(modes: Seq<ModeInfo>) -> Seq<u8>
    decreases modes.len(),
{
    if modes.len() == 0 {
        Seq::empty()
    } else {
        modes_bytes(modes.drop_last()) + mode_bytes(modes.last())
    }
}

fn put_mode(v: &mut Vec<u8>, m: ModeInfo)
    ensures
        final(v)@ == old(v)@ + mode_bytes(m),
{
    wire::put32(v, m.id);
    wire::put16(v, m.width);
    wire::put16(v, m.height);
    wire::put32(v, m.dot_clock);
    wire::put16(v, m.hsync_start);
    wire::put16(v, m.hsync_end);
    wire::put16(v, m.htotal);
    wire::put16(v, m.hskew);
    wire::put16(v, m.vsync_start);
    wire::put16(v, m.vsync_end);
    wire::put16(v, m.vtotal);
    wire::put16(v, m.name_len);
    wire::put32(v, m.mode_flags);
    assert(v@ =~= old(v)@ + mode_bytes(m));
}

fn put_modes(v: &mut Vec<u8>, modes: &Vec<ModeInfo>)
    ensures
        final(v)@ == old(v)@ + modes_bytes(modes@),
{
    let ghost head = v@;
    let mut i: usize = 0;
    assert(modes_bytes(modes@.take(0)) =~= Seq::empty());
    assert(v@ =~= head + modes_bytes(modes@.take(0)));
    while i < modes.len()
        invariant
            i <= modes.len(),
            v@ == head + modes_bytes(modes@.take(i as int)),
        decreases modes.len() - i,
    {
        put_mode(v, modes[i]);
        assert(modes@.take(i as int + 1).drop_last() =~= modes@.take(i as int));
        assert(v@ =~= head + modes_bytes(modes@.take(i as int + 1)));
        i += 1;
    }
    assert(modes@.take(i as int) =~= modes@);
}

/// What `GetScreenResources` and `GetScreenResourcesCurrent` report.
pub struct Resources {
    pub timestamp: u32,
    pub config_timestamp: u32,
    pub crtcs: Vec<u32>,
    pub outputs: Vec<u32>,
    pub modes: Vec<ModeInfo>,
    pub names: Vec<u8>,
}

/// `GetScreenResources` and `GetScreenResourcesCurrent`.
pub open spec fn resources_bytes(
    timestamp: u32,
    config_timestamp: u32,
    crtcs: Seq<u32>,
    outputs: Seq<u32>,
    modes: Seq<ModeInfo>,
    names: Seq<u8>,
) -> Seq<u8> {
    start_bytes(0) + wire::le32(timestamp) + wire::le32(config_timestamp) + wire::le16(crtcs.len() as u16) + wire::le16(
        outputs.len() as u16,
    ) + wire::le16(modes.len() as u16) + wire::le16(names.len() as u16) + wire::zeros(8) + wire::le32s(crtcs)
        + wire::le32s(outputs) + modes_bytes(modes) + names
}

impl Resources {
    /// The counts are 16 bits on the wire.
    pub open spec fn fits(self) -> bool {
        self.crtcs@.len() <= 0xffff && self.outputs@.len() <= 0xffff && self.modes@.len() <= 0xffff
            && self.names@.len() <= 0xffff
    }

    pub open spec fn bytes(self) -> Seq<u8> {
        resources_bytes(
            self.timestamp,
            self.config_timestamp,
            self.crtcs@,
            self.outputs@,
            self.modes@,
            self.names@,
        )
    }

    pub fn reply(&self) -> (v: Vec<u8>)
        requires
            self.fits(),
        ensures
            v@ == self.bytes(),
    {
        let mut v = start(0);
        wire::put32(&mut v, self.timestamp);
        wire::put32(&mut v, self.config_timestamp);
        wire::put16(&mut v, self.crtcs.len() as u16);
        wire::put16(&mut v, self.outputs.len() as u16);
        wire::put16(&mut v, self.modes.len() as u16);
        wire::put16(&mut v, self.names.len() as u16);
        wire::put_zeros(&mut v, 8);
        wire::put32s(&mut v, &self.crtcs);
        wire::put32s(&mut v, &self.outputs);
        put_modes(&mut v, &self.modes);
        list::append_bytes(&mut v, self.names.as_slice());
        v
    }
}

/// `GetScreenInfo`, the RandR 1.0 view: the whole screen as one size at one refresh
/// rate.
pub open spec fn screen_info_bytes(timestamp: u32, config_timestamp: u32, width: u16, height: u16) -> Seq<u8> {
    start_bytes(1) + wire::le32(ROOT_WINDOW) + wire::le32(timestamp) + wire::le32(config_timestamp) + wire::le16(1)
        + wire::le16(0) + wire::le16(1) + wire::le16(60) + wire::le16(2) + wire::zeros(2) + wire::le16(width)
        + wire::le16(height) + wire::le16((width * 254 / 960) as u16) + wire::le16((height * 254 / 960) as u16)
        + wire::le16(1) + wire::le16(60)
}

pub fn screen_info(timestamp: u32, config_timestamp: u32, width: u16, height: u16) -> (v: Vec<u8>)
    ensures
        v@ == screen_info_bytes(timestamp, config_timestamp, width, height),
{
    let mut v = start(1);
    wire::put32(&mut v, ROOT_WINDOW);
    wire::put32(&mut v, timestamp);
    wire::put32(&mut v, config_timestamp);
    wire::put16(&mut v, 1);
    wire::put16(&mut v, 0);
    wire::put16(&mut v, 1);
    wire::put16(&mut v, 60);
    wire::put16(&mut v, 2);
    wire::put_zeros(&mut v, 2);
    wire::put16(&mut v, width);
    wire::put16(&mut v, height);
    wire::put16(&mut v, (width as u32 * 254 / 960) as u16);
    wire::put16(&mut v, (height as u32 * 254 / 960) as u16);
    wire::put16(&mut v, 1);
    wire::put16(&mut v, 60);
    v
}

/// The reply to a RandR request succeeded.
pub const SUCCESS: u8 = 0;

/// The reply to a RandR request did not succeed.
pub const FAILED: u8 = 3;

/// `GetOutputInfo` of an output.
pub open spec fn output_info_bytes(
    timestamp: u32,
    crtc: u32,
    mm_width: u32,
    mm_height: u32,
    connected: bool,
    own_crtc: u32,
    modes: Seq<u32>,
    output_name: Seq<u8>,
) -> Seq<u8> {
    (start_bytes(SUCCESS) + wire::le32(timestamp) + wire::le32(crtc) + wire::le32(mm_width) + wire::le32(
        mm_height,
    )).push(if connected { 0u8 } else { 1u8 }).push(0u8) + wire::le16(1) + wire::le16(modes.len() as u16) + wire::le16(1)
        + wire::le16(0) + wire::le16(output_name.len() as u16) + wire::le32(own_crtc) + wire::le32s(modes) + output_name
}

pub fn output_info(
    timestamp: u32,
    crtc: u32,
    mm_width: u32,
    mm_height: u32,
    connected: bool,
    own_crtc: u32,
    modes: &Vec<u32>,
    output_name: &Vec<u8>,
) -> (v: Vec<u8>)
    requires
        modes@.len() <= 0xffff,
        output_name@.len() <= 0xffff,
    ensures
        v@ == output_info_bytes(timestamp, crtc, mm_width, mm_height, connected, own_crtc, modes@, output_name@),
{
    let mut v = start(SUCCESS);
    wire::put32(&mut v, timestamp);
    wire::put32(&mut v, crtc);
    wire::put32(&mut v, mm_width);
    wire::put32(&mut v, mm_height);
    v.push(if connected { 0 } else { 1 });
    v.push(0);
    wire::put16(&mut v, 1);
    wire::put16(&mut v, modes.len() as u16);
    wire::put16(&mut v, 1);
    wire::put16(&mut v, 0);
    wire::put16(&mut v, output_name.len() as u16);
    wire::put32(&mut v, own_crtc);
    wire::put32s(&mut v, modes);
    list::append_bytes(&mut v, output_name.as_slice());
    v
}

/// A failed `GetOutputInfo`, for an unknown output: disconnected, with nothing.
pub open spec fn empty_output_info_bytes(timestamp: u32) -> Seq<u8> {
    (start_bytes(FAILED) + wire::le32(timestamp) + wire::zeros(12)).push(1u8).push(0u8) + wire::zeros(10)
}

pub fn empty_output_info(timestamp: u32) -> (v: Vec<u8>)
    ensures
        v@ == empty_output_info_bytes(timestamp),
{
    let mut v = start(FAILED);
    wire::put32(&mut v, timestamp);
    wire::put_zeros(&mut v, 12);
    v.push(1);
    v.push(0);
    wire::put_zeros(&mut v, 10);
    v
}

/// `GetCrtcInfo`: where an output is, its mode, and that it is not rotated.
pub open spec fn crtc_info_bytes(timestamp: u32, x: i16, y: i16, width: u16, height: u16, mode: u32, output: u32) -> Seq<
    u8,
> {
    start_bytes(SUCCESS) + wire::le32(timestamp) + wire::le_i16(x) + wire::le_i16(y) + wire::le16(width) + wire::le16(
        height,
    ) + wire::le32(mode) + wire::le16(1) + wire::le16(1) + wire::le16(1) + wire::le16(1) + wire::le32(output)
        + wire::le32(output)
}

pub fn crtc_info(timestamp: u32, x: i16, y: i16, width: u16, height: u16, mode: u32, output: u32) -> (v: Vec<u8>)
    ensures
        v@ == crtc_info_bytes(timestamp, x, y, width, height, mode, output),
{
    let mut v = start(SUCCESS);
    wire::put32(&mut v, timestamp);
    wire::put_i16(&mut v, x);
    wire::put_i16(&mut v, y);
    wire::put16(&mut v, width);
    wire::put16(&mut v, height);
    wire::put32(&mut v, mode);
    wire::put16(&mut v, 1);
    wire::put16(&mut v, 1);
    wire::put16(&mut v, 1);
    wire::put16(&mut v, 1);
    wire::put32(&mut v, output);
    wire::put32(&mut v, output);
    v
}

/// A failed `GetCrtcInfo`, for an unknown CRTC.
pub open spec fn empty_crtc_info_bytes(timestamp: u32) -> Seq<u8> {
    start_bytes(FAILED) + wire::le32(timestamp) + wire::zeros(12) + wire::le16(1) + wire::le16(1) + wire::zeros(4)
}

pub fn empty_crtc_info(timestamp: u32) -> (v: Vec<u8>)
    ensures
        v@ == empty_crtc_info_bytes(timestamp),
{
    let mut v = start(FAILED);
    wire::put32(&mut v, timestamp);
    wire::put_zeros(&mut v, 12);
    wire::put16(&mut v, 1);
    wire::put16(&mut v, 1);
    wire::put_zeros(&mut v, 4);
    v
}

/// `GetPanning`, `GetProviders`, `GetMonitors`: the time of the last change, and
/// nothing (no panning, no providers, no monitors).
pub open spec fn bare_timestamp_bytes(timestamp: u32, n: int) -> Seq<u8> {
    start_bytes(0) + wire::le32(timestamp) + wire::zeros(n)
}

pub fn bare_timestamp(timestamp: u32, n: usize) -> (v: Vec<u8>)
    ensures
        v@ == bare_timestamp_bytes(timestamp, n as int),
{
    let mut v = start(0);
    wire::put32(&mut v, timestamp);
    wire::put_zeros(&mut v, n);
    v
}

/// `SetCrtcConfig`.
pub open spec fn set_crtc_bytes(status: u8, timestamp: u32) -> Seq<u8> {
    start_bytes(status) + wire::le32(timestamp) + wire::zeros(20)
}

pub fn set_crtc(status: u8, timestamp: u32) -> (v: Vec<u8>)
    ensures
        v@ == set_crtc_bytes(status, timestamp),
{
    let mut v = start(status);
    wire::put32(&mut v, timestamp);
    wire::put_zeros(&mut v, 20);
    v
}

/// `CreateMode`.
pub open spec fn create_mode_bytes(mode: u32) -> Seq<u8> {
    start_bytes(0) + wire::le32(mode) + wire::zeros(20)
}

pub fn create_mode(mode: u32) -> (v: Vec<u8>)
    ensures
        v@ == create_mode_bytes(mode),
{
    let mut v = start(0);
    wire::put32(&mut v, mode);
    wire::put_zeros(&mut v, 20);
    v
}

/// `GetCursorImage`, and `GetCursorImageAndName`, whose name is empty.
pub open spec fn cursor_bytes(
    x: i16,
    y: i16,
    width: u16,
    height: u16,
    xhot: u16,
    yhot: u16,
    serial: u32,
    image: Seq<u32>,
) -> Seq<u8> {
    start_bytes(0) + wire::le_i16(x) + wire::le_i16(y) + wire::le16(width) + wire::le16(height) + wire::le16(xhot)
        + wire::le16(yhot) + wire::le32(serial) + wire::zeros(8) + wire::le32s(image)
}

pub fn cursor(x: i16, y: i16, width: u16, height: u16, xhot: u16, yhot: u16, serial: u32, image: &Vec<u32>) -> (v: Vec<
    u8,
>)
    ensures
        v@ == cursor_bytes(x, y, width, height, xhot, yhot, serial, image@),
{
    let mut v = start(0);
    wire::put_i16(&mut v, x);
    wire::put_i16(&mut v, y);
    wire::put16(&mut v, width);
    wire::put16(&mut v, height);
    wire::put16(&mut v, xhot);
    wire::put16(&mut v, yhot);
    wire::put32(&mut v, serial);
    wire::put_zeros(&mut v, 8);
    wire::put32s(&mut v, image);
    v
}

/// `FetchRegion`: the extents, and the rectangles.
pub open spec fn region_bytes(extents: Rectangle, rects: Seq<Rectangle>) -> Seq<u8> {
    start_bytes(0) + wire::le_rect(extents) + wire::zeros(16) + wire::le_rects(rects)
}

pub fn region(extents: Rectangle, rects: &Vec<Rectangle>) -> (v: Vec<u8>)
    ensures
        v@ == region_bytes(extents, rects@),
{
    let mut v = start(0);
    wire::put_rect(&mut v, extents);
    wire::put_zeros(&mut v, 16);
    wire::put_rects(&mut v, rects);
    v
}

/// `GetProperty`: the type, how many bytes follow what is returned, how many items are
/// returned, and they.
pub open spec fn property_bytes(format: u8, type_: u32, bytes_after: u32, items: u32, value: Seq<u8>) -> Seq<u8> {
    start_bytes(format) + wire::le32(type_) + wire::le32(bytes_after) + wire::le32(items) + wire::zeros(12) + value
}

pub fn property(format: u8, type_: u32, bytes_after: u32, items: u32, value: &[u8]) -> (v: Vec<u8>)
    ensures
        v@ == property_bytes(format, type_, bytes_after, items, value@),
{
    let mut v = start(format);
    wire::put32(&mut v, type_);
    wire::put32(&mut v, bytes_after);
    wire::put32(&mut v, items);
    wire::put_zeros(&mut v, 12);
    list::append_bytes(&mut v, value);
    v
}

/// `GetImage`.
pub open spec fn image_bytes(data: Seq<u8>) -> Seq<u8> {
    start_bytes(ROOT_DEPTH) + wire::le32(ROOT_VISUAL) + wire::zeros(20) + data
}

pub fn image(data: &Vec<u8>) -> (v: Vec<u8>)
    ensures
        v@ == image_bytes(data@),
{
    let mut v = start(ROOT_DEPTH);
    wire::put32(&mut v, ROOT_VISUAL);
    wire::put_zeros(&mut v, 20);
    list::append_bytes(&mut v, data.as_slice());
    v
}

/// `ShmGetImage`.
pub open spec fn shm_image_bytes(size: u32) -> Seq<u8> {
    start_bytes(ROOT_DEPTH) + wire::le32(ROOT_VISUAL) + wire::le32(size)
}

pub fn shm_image(size: u32) -> (v: Vec<u8>)
    ensures
        v@ == shm_image_bytes(size),
{
    let mut v = start(ROOT_DEPTH);
    wire::put32(&mut v, ROOT_VISUAL);
    wire::put32(&mut v, size);
    v
}

/// An X error, of the 32 bytes it always has: its code, and the opcodes it is about.
pub open spec fn error_bytes(code: u8, major: u8, minor: u16) -> Seq<u8> {
    seq![0u8, code] + wire::zeros(6) + wire::le16(minor) + seq![major] + wire::zeros(21)
}

pub fn error(code: u8, major: u8, minor: u16) -> (v: Vec<u8>)
    ensures
        v@ == error_bytes(code, major, minor),
{
    let mut v: Vec<u8> = Vec::with_capacity(32);
    v.push(0);
    v.push(code);
    wire::put_zeros(&mut v, 6);
    wire::put16(&mut v, minor);
    v.push(major);
    wire::put_zeros(&mut v, 21);
    assert(v@ =~= error_bytes(code, major, minor));
    v
}

/// An error is as long as every message to a client.
pub proof fn law_errors_are_32_bytes(code: u8, major: u8, minor: u16)
    ensures
        error_bytes(code, major, minor).len() == 32,
        wire::u16_at(error_bytes(code, major, minor), 8) == minor,
        error_bytes(code, major, minor)[10] == major,
{
    let b = error_bytes(code, major, minor);
    assert(b[8] == wire::le16(minor)[0]);
    assert(b[9] == wire::le16(minor)[1]);
}

/// A colour that was allocated is looked up as itself, to the precision of the visual.
pub proof fn law_allocated_colours_are_found_again(red: u16, green: u16, blue: u16)
    ensures
        pixel_of(red, green, blue) / 0x1_0000 % 256 == red / 256,
        pixel_of(red, green, blue) / 0x100 % 256 == green / 256,
        pixel_of(red, green, blue) % 256 == blue / 256,
{
    lemma_channels(pixel_of(red, green, blue), (red / 256) as u8, (green / 256) as u8, (blue / 256) as u8);
}

/// A reply that is one number (an atom, a window) has it behind the head.
pub proof fn law_word_fields(w: u32)
    ensures
        ({
            let b = word_bytes(w);
            &&& b[0] == 1
            &&& wire::u32_at(b, 8) == w
        }),
{
    let b = word_bytes(w);
    assert(b.subrange(8, 12) =~= wire::le32(w));
    wire::lemma_reads_32(b, 8, w);
}

/// `GetAtomName` gives the length of the name, and the name.
pub proof fn law_name_fields(name: Seq<u8>)
    ensures
        ({
            let b = name_bytes(name);
            &&& b[0] == 1
            &&& wire::u16_at(b, 8) == name.len() as u16
            &&& b.subrange(32, 32 + name.len() as int) == name
            &&& b.len() == 32 + name.len()
        }),
{
    let b = name_bytes(name);
    assert(b.subrange(8, 10) =~= wire::le16(name.len() as u16));
    wire::lemma_reads_16(b, 8, name.len() as u16);
    assert(b.subrange(32, 32 + name.len() as int) =~= name);
}

/// `ListProperties` gives how many atoms there are, and each of them.
pub proof fn law_atoms_fields(atoms: Seq<u32>, i: int)
    requires
        0 <= i < atoms.len(),
    ensures
        ({
            let b = atoms_bytes(atoms);
            &&& wire::u16_at(b, 8) == atoms.len() as u16
            &&& wire::u32_at(b, 32 + 4 * i) == atoms[i]
        }),
{
    let b = atoms_bytes(atoms);
    assert(b.subrange(8, 10) =~= wire::le16(atoms.len() as u16));
    wire::lemma_reads_16(b, 8, atoms.len() as u16);
    wire::law_lists_have_each_number_in_its_place(atoms, Seq::empty(), i);
    let l = wire::le32s(atoms);
    assert(b[32 + 4 * i] == l[4 * i] && b[32 + 4 * i + 1] == l[4 * i + 1] && b[32 + 4 * i + 2] == l[4 * i + 2] && b[32 + 4 * i
        + 3] == l[4 * i + 3]);
}

/// `QueryExtension` says whether the extension is there, then its opcode, its first event
/// and its first error.
pub proof fn law_extension_fields(present: bool, major: u8, event: u8, error: u8)
    ensures
        ({
            let b = extension_bytes(present, major, event, error);
            &&& b[0] == 1
            &&& b[8] == (if present { 1u8 } else { 0u8 })
            &&& b[9] == major
            &&& b[10] == event
            &&& b[11] == error
        }),
{
    let b = extension_bytes(present, major, event, error);

}

/// `GetGeometry` gives the depth, the root window, and a size at the origin.
pub proof fn law_geometry_fields(width: u16, height: u16)
    ensures
        ({
            let b = geometry_bytes(width, height);
            &&& b[0] == 1
            &&& b[1] == 24
            &&& wire::u32_at(b, 8) == ROOT_WINDOW
            &&& wire::i16_at(b, 12) == 0i16
            &&& wire::i16_at(b, 14) == 0i16
            &&& wire::u16_at(b, 16) == width
            &&& wire::u16_at(b, 18) == height
            &&& wire::u16_at(b, 20) == 0u16
        }),
{
    let b = geometry_bytes(width, height);
    assert(b.subrange(8, 12) =~= wire::le32(ROOT_WINDOW));
    wire::lemma_reads_32(b, 8, ROOT_WINDOW);
    assert(b.subrange(12, 14) =~= wire::le_i16(0i16));
    wire::lemma_reads_i16(b, 12, 0i16);
    assert(b.subrange(14, 16) =~= wire::le_i16(0i16));
    wire::lemma_reads_i16(b, 14, 0i16);
    assert(b.subrange(16, 18) =~= wire::le16(width));
    wire::lemma_reads_16(b, 16, width);
    assert(b.subrange(18, 20) =~= wire::le16(height));
    wire::lemma_reads_16(b, 18, height);
    assert(b.subrange(20, 22) =~= wire::le16(0u16));
    wire::lemma_reads_16(b, 20, 0u16);
}

/// `QueryPointer` gives where the pointer is, on the root and so in the window.
pub proof fn law_pointer_fields(x: i16, y: i16)
    ensures
        ({
            let b = pointer_bytes(x, y);
            &&& b[1] == 1
            &&& wire::u32_at(b, 8) == ROOT_WINDOW
            &&& wire::u32_at(b, 12) == 0u32
            &&& wire::i16_at(b, 16) == x
            &&& wire::i16_at(b, 18) == y
            &&& wire::i16_at(b, 20) == x
            &&& wire::i16_at(b, 22) == y
        }),
{
    let b = pointer_bytes(x, y);
    assert(b.subrange(8, 12) =~= wire::le32(ROOT_WINDOW));
    wire::lemma_reads_32(b, 8, ROOT_WINDOW);
    assert(b.subrange(12, 16) =~= wire::le32(0u32));
    wire::lemma_reads_32(b, 12, 0u32);
    assert(b.subrange(16, 18) =~= wire::le_i16(x));
    wire::lemma_reads_i16(b, 16, x);
    assert(b.subrange(18, 20) =~= wire::le_i16(y));
    wire::lemma_reads_i16(b, 18, y);
    assert(b.subrange(20, 22) =~= wire::le_i16(x));
    wire::lemma_reads_i16(b, 20, x);
    assert(b.subrange(22, 24) =~= wire::le_i16(y));
    wire::lemma_reads_i16(b, 22, y);
}

/// `GetKeyboardMapping` says how many keysyms a keycode has, and lists them.
pub proof fn law_keyboard_fields(per: u8, keysyms: Seq<u32>, i: int)
    requires
        0 <= i < keysyms.len(),
    ensures
        ({
            let b = keyboard_bytes(per, keysyms);
            &&& b[1] == per
            &&& b.len() == 32 + 4 * keysyms.len()
            &&& wire::u32_at(b, 32 + 4 * i) == keysyms[i]
        }),
{
    let b = keyboard_bytes(per, keysyms);
    wire::law_lists_have_each_number_in_its_place(keysyms, Seq::empty(), i);
    let l = wire::le32s(keysyms);
    assert(b[32 + 4 * i] == l[4 * i] && b[32 + 4 * i + 1] == l[4 * i + 1] && b[32 + 4 * i + 2] == l[4 * i + 2] && b[32 + 4 * i
        + 3] == l[4 * i + 3]);
}

/// `GetModifierMapping` says how many keycodes a modifier has, and lists the rows.
pub proof fn law_modifiers_fields(keycodes: Seq<u8>)
    requires
        keycodes.len() / 8 <= 255,
    ensures
        ({
            let b = modifiers_bytes(keycodes);
            &&& b[1] == keycodes.len() / 8
            &&& b.subrange(32, 32 + keycodes.len() as int) == keycodes
        }),
{
    let b = modifiers_bytes(keycodes);
    assert(b.subrange(32, 32 + keycodes.len() as int) =~= keycodes);
}

/// A mode has its fields where RandR has them, in 32 bytes.
pub proof fn law_mode_fields(m: ModeInfo)
    ensures
        ({
            let b = mode_bytes(m);
            &&& b.len() == 32
            &&& wire::u32_at(b, 0) == m.id
            &&& wire::u16_at(b, 4) == m.width
            &&& wire::u16_at(b, 6) == m.height
            &&& wire::u32_at(b, 8) == m.dot_clock
            &&& wire::u16_at(b, 12) == m.hsync_start
            &&& wire::u16_at(b, 14) == m.hsync_end
            &&& wire::u16_at(b, 16) == m.htotal
            &&& wire::u16_at(b, 18) == m.hskew
            &&& wire::u16_at(b, 20) == m.vsync_start
            &&& wire::u16_at(b, 22) == m.vsync_end
            &&& wire::u16_at(b, 24) == m.vtotal
            &&& wire::u16_at(b, 26) == m.name_len
            &&& wire::u32_at(b, 28) == m.mode_flags
        }),
{
    let b = mode_bytes(m);
    assert(b.subrange(0, 4) =~= wire::le32(m.id));
    wire::lemma_reads_32(b, 0, m.id);
    assert(b.subrange(4, 6) =~= wire::le16(m.width));
    wire::lemma_reads_16(b, 4, m.width);
    assert(b.subrange(6, 8) =~= wire::le16(m.height));
    wire::lemma_reads_16(b, 6, m.height);
    assert(b.subrange(8, 12) =~= wire::le32(m.dot_clock));
    wire::lemma_reads_32(b, 8, m.dot_clock);
    assert(b.subrange(12, 14) =~= wire::le16(m.hsync_start));
    wire::lemma_reads_16(b, 12, m.hsync_start);
    assert(b.subrange(14, 16) =~= wire::le16(m.hsync_end));
    wire::lemma_reads_16(b, 14, m.hsync_end);
    assert(b.subrange(16, 18) =~= wire::le16(m.htotal));
    wire::lemma_reads_16(b, 16, m.htotal);
    assert(b.subrange(18, 20) =~= wire::le16(m.hskew));
    wire::lemma_reads_16(b, 18, m.hskew);
    assert(b.subrange(20, 22) =~= wire::le16(m.vsync_start));
    wire::lemma_reads_16(b, 20, m.vsync_start);
    assert(b.subrange(22, 24) =~= wire::le16(m.vsync_end));
    wire::lemma_reads_16(b, 22, m.vsync_end);
    assert(b.subrange(24, 26) =~= wire::le16(m.vtotal));
    wire::lemma_reads_16(b, 24, m.vtotal);
    assert(b.subrange(26, 28) =~= wire::le16(m.name_len));
    wire::lemma_reads_16(b, 26, m.name_len);
    assert(b.subrange(28, 32) =~= wire::le32(m.mode_flags));
    wire::lemma_reads_32(b, 28, m.mode_flags);
}

proof fn lemma_modes(modes: Seq<ModeInfo>, i: int)
    requires
        0 <= i < modes.len(),
    ensures
        modes_bytes(modes).len() == 32 * modes.len(),
        modes_bytes(modes).subrange(32 * i, 32 * i + 32) == mode_bytes(modes[i]),
    decreases modes.len(),
{
    let r = modes.drop_last();
    let all = modes_bytes(modes);
    assert(mode_bytes(modes.last()).len() == 32);
    if r.len() > 0 {
        lemma_modes(r, if i < r.len() { i } else { 0 });
    } else {
        assert(modes_bytes(r) =~= Seq::empty());
    }
    assert(all =~= modes_bytes(r) + mode_bytes(modes.last()));
    if i < r.len() {
        assert(all.subrange(32 * i, 32 * i + 32) =~= modes_bytes(r).subrange(32 * i, 32 * i + 32));
    } else {
        assert(all.subrange(32 * i, 32 * i + 32) =~= mode_bytes(modes.last()));
    }
}

/// `GetScreenResources` gives the two times, how many CRTCs, outputs and modes there are
/// and how long their names, and then they themselves in that order.
#[verifier::spinoff_prover]
#[verifier::rlimit(80)]
pub proof fn law_resources_fields(
    timestamp: u32,
    config_timestamp: u32,
    crtcs: Seq<u32>,
    outputs: Seq<u32>,
    modes: Seq<ModeInfo>,
    names: Seq<u8>,
)
    ensures
        ({
            let b = resources_bytes(timestamp, config_timestamp, crtcs, outputs, modes, names);
            let c = 32 + 4 * crtcs.len() as int;
            let o = c + 4 * outputs.len();
            let m = o + 32 * modes.len();
            &&& wire::u32_at(b, 8) == timestamp
            &&& wire::u32_at(b, 12) == config_timestamp
            &&& wire::u16_at(b, 16) == crtcs.len() as u16
            &&& wire::u16_at(b, 18) == outputs.len() as u16
            &&& wire::u16_at(b, 20) == modes.len() as u16
            &&& wire::u16_at(b, 22) == names.len() as u16
            &&& b.subrange(32, c) == wire::le32s(crtcs)
            &&& b.subrange(c, o) == wire::le32s(outputs)
            &&& b.subrange(o, m) == modes_bytes(modes)
            &&& b.skip(m) == names
            &&& b.len() == m + names.len()
        }),
{
    let b = resources_bytes(timestamp, config_timestamp, crtcs, outputs, modes, names);
    let c = 32 + 4 * crtcs.len() as int;
    let o = c + 4 * outputs.len();
    let m = o + 32 * modes.len();
    let h = resources_bytes(timestamp, config_timestamp, crtcs, outputs, modes, names).take(32);
    assert(h =~= start_bytes(0) + wire::le32(timestamp) + wire::le32(config_timestamp) + wire::le16(crtcs.len() as u16)
        + wire::le16(outputs.len() as u16) + wire::le16(modes.len() as u16) + wire::le16(names.len() as u16)
        + wire::zeros(8));
    wire::law_lists_have_each_number_in_its_place(crtcs, Seq::empty(), 0);
    wire::law_lists_have_each_number_in_its_place(outputs, Seq::empty(), 0);
    if modes.len() > 0 {
        lemma_modes(modes, 0);
    } else {
        assert(modes_bytes(modes) =~= Seq::empty());
    }
    assert(b =~= h + wire::le32s(crtcs) + wire::le32s(outputs) + modes_bytes(modes) + names);
    assert(b.subrange(32, c) =~= wire::le32s(crtcs));
    assert(b.subrange(c, o) =~= wire::le32s(outputs));
    assert(b.subrange(o, m) =~= modes_bytes(modes));
    assert(b.skip(m) =~= names);
    lemma_resources_head(
        timestamp,
        config_timestamp,
        crtcs.len() as u16,
        outputs.len() as u16,
        modes.len() as u16,
        names.len() as u16,
    );
    assert(forall|i: int| 0 <= i < 32 ==> b[i] == #[trigger] h[i]);
    assert(wire::u32_at(b, 8) == wire::u32_at(h, 8) && wire::u32_at(b, 12) == wire::u32_at(h, 12));
    assert(wire::u16_at(b, 16) == wire::u16_at(h, 16) && wire::u16_at(b, 18) == wire::u16_at(h, 18));
    assert(wire::u16_at(b, 20) == wire::u16_at(h, 20) && wire::u16_at(b, 22) == wire::u16_at(h, 22));
}

proof fn lemma_resources_head(timestamp: u32, config_timestamp: u32, crtcs: u16, outputs: u16, modes: u16, names: u16)
    ensures
        ({
            let h = start_bytes(0) + wire::le32(timestamp) + wire::le32(config_timestamp) + wire::le16(crtcs) + wire::le16(
                outputs,
            ) + wire::le16(modes) + wire::le16(names) + wire::zeros(8);
            &&& h.len() == 32
            &&& wire::u32_at(h, 8) == timestamp && wire::u32_at(h, 12) == config_timestamp
            &&& wire::u16_at(h, 16) == crtcs && wire::u16_at(h, 18) == outputs
            &&& wire::u16_at(h, 20) == modes && wire::u16_at(h, 22) == names
        }),
{
    let h = start_bytes(0) + wire::le32(timestamp) + wire::le32(config_timestamp) + wire::le16(crtcs) + wire::le16(outputs)
        + wire::le16(modes) + wire::le16(names) + wire::zeros(8);
    assert(h.subrange(8, 12) =~= wire::le32(timestamp));
    wire::lemma_reads_32(h, 8, timestamp);
    assert(h.subrange(12, 16) =~= wire::le32(config_timestamp));
    wire::lemma_reads_32(h, 12, config_timestamp);
    assert(h.subrange(16, 18) =~= wire::le16(crtcs));
    wire::lemma_reads_16(h, 16, crtcs);
    assert(h.subrange(18, 20) =~= wire::le16(outputs));
    wire::lemma_reads_16(h, 18, outputs);
    assert(h.subrange(20, 22) =~= wire::le16(modes));
    wire::lemma_reads_16(h, 20, modes);
    assert(h.subrange(22, 24) =~= wire::le16(names));
    wire::lemma_reads_16(h, 22, names);
}

/// Each mode of a list is in its place.
pub proof fn law_modes_are_in_their_places(modes: Seq<ModeInfo>, i: int)
    requires
        0 <= i < modes.len(),
    ensures
        modes_bytes(modes).len() == 32 * modes.len(),
        modes_bytes(modes).subrange(32 * i, 32 * i + 32) == mode_bytes(modes[i]),
{
    lemma_modes(modes, i);
}

/// `GetScreenInfo` gives the one size that there is, unrotated and at 60 Hz.
pub proof fn law_screen_info_fields(timestamp: u32, config_timestamp: u32, width: u16, height: u16)
    ensures
        ({
            let b = screen_info_bytes(timestamp, config_timestamp, width, height);
            &&& b[1] == 1
            &&& wire::u32_at(b, 8) == ROOT_WINDOW
            &&& wire::u32_at(b, 12) == timestamp
            &&& wire::u32_at(b, 16) == config_timestamp
            &&& wire::u16_at(b, 20) == 1u16
            &&& wire::u16_at(b, 22) == 0u16
            &&& wire::u16_at(b, 24) == 1u16
            &&& wire::u16_at(b, 26) == 60u16
            &&& wire::u16_at(b, 32) == width
            &&& wire::u16_at(b, 34) == height
            &&& wire::u16_at(b, 36) == (width * 254 / 960) as u16
            &&& wire::u16_at(b, 38) == (height * 254 / 960) as u16
            &&& wire::u16_at(b, 40) == 1u16
            &&& wire::u16_at(b, 42) == 60u16
        }),
{
    let b = screen_info_bytes(timestamp, config_timestamp, width, height);
    assert(b.subrange(8, 12) =~= wire::le32(ROOT_WINDOW));
    wire::lemma_reads_32(b, 8, ROOT_WINDOW);
    assert(b.subrange(12, 16) =~= wire::le32(timestamp));
    wire::lemma_reads_32(b, 12, timestamp);
    assert(b.subrange(16, 20) =~= wire::le32(config_timestamp));
    wire::lemma_reads_32(b, 16, config_timestamp);
    assert(b.subrange(20, 22) =~= wire::le16(1u16));
    wire::lemma_reads_16(b, 20, 1u16);
    assert(b.subrange(22, 24) =~= wire::le16(0u16));
    wire::lemma_reads_16(b, 22, 0u16);
    assert(b.subrange(24, 26) =~= wire::le16(1u16));
    wire::lemma_reads_16(b, 24, 1u16);
    assert(b.subrange(26, 28) =~= wire::le16(60u16));
    wire::lemma_reads_16(b, 26, 60u16);
    assert(b.subrange(32, 34) =~= wire::le16(width));
    wire::lemma_reads_16(b, 32, width);
    assert(b.subrange(34, 36) =~= wire::le16(height));
    wire::lemma_reads_16(b, 34, height);
    assert(b.subrange(36, 38) =~= wire::le16((width * 254 / 960) as u16));
    wire::lemma_reads_16(b, 36, (width * 254 / 960) as u16);
    assert(b.subrange(38, 40) =~= wire::le16((height * 254 / 960) as u16));
    wire::lemma_reads_16(b, 38, (height * 254 / 960) as u16);
    assert(b.subrange(40, 42) =~= wire::le16(1u16));
    wire::lemma_reads_16(b, 40, 1u16);
    assert(b.subrange(42, 44) =~= wire::le16(60u16));
    wire::lemma_reads_16(b, 42, 60u16);
}

/// `GetOutputInfo` has its fields where RandR has them; 0 is connected.
#[verifier::spinoff_prover]
#[verifier::rlimit(80)]
pub proof fn law_output_info_fields(
    timestamp: u32,
    crtc: u32,
    mm_width: u32,
    mm_height: u32,
    connected: bool,
    own_crtc: u32,
    modes: Seq<u32>,
    output_name: Seq<u8>,
)
    ensures
        ({
            let b = output_info_bytes(timestamp, crtc, mm_width, mm_height, connected, own_crtc, modes, output_name);
            &&& b[1] == 0
            &&& wire::u32_at(b, 8) == timestamp
            &&& wire::u32_at(b, 12) == crtc
            &&& wire::u32_at(b, 16) == mm_width
            &&& wire::u32_at(b, 20) == mm_height
            &&& b[24] == (if connected { 0u8 } else { 1u8 })
            &&& b[25] == 0
            &&& wire::u16_at(b, 26) == 1u16
            &&& wire::u16_at(b, 28) == modes.len() as u16
            &&& wire::u16_at(b, 30) == 1u16
            &&& wire::u16_at(b, 32) == 0u16
            &&& wire::u16_at(b, 34) == output_name.len() as u16
            &&& wire::u32_at(b, 36) == own_crtc
            &&& b.subrange(40, 40 + 4 * modes.len() as int) == wire::le32s(modes)
            &&& b.subrange(40 + 4 * modes.len() as int, 40 + 4 * modes.len() + output_name.len() as int) == output_name
        }),
{
    let b = output_info_bytes(timestamp, crtc, mm_width, mm_height, connected, own_crtc, modes, output_name);
    wire::law_lists_have_each_number_in_its_place(modes, Seq::empty(), 0);
    lemma_output_info_head(
        timestamp,
        crtc,
        mm_width,
        mm_height,
        connected,
        own_crtc,
        modes.len() as u16,
        output_name.len() as u16,
    );
    let g = output_info_head(
        timestamp,
        crtc,
        mm_width,
        mm_height,
        connected,
        own_crtc,
        modes.len() as u16,
        output_name.len() as u16,
    );
    assert(b == g + (wire::le32s(modes) + output_name)) by {
        assert(b =~= g + (wire::le32s(modes) + output_name));
    }
    lemma_tail(g, wire::le32s(modes), output_name);
    lemma_head_kept(g, wire::le32s(modes) + output_name, 8);
    lemma_head_kept(g, wire::le32s(modes) + output_name, 12);
    lemma_head_kept(g, wire::le32s(modes) + output_name, 16);
    lemma_head_kept(g, wire::le32s(modes) + output_name, 20);
    lemma_head_kept(g, wire::le32s(modes) + output_name, 24);
    lemma_head_kept(g, wire::le32s(modes) + output_name, 28);
    lemma_head_kept(g, wire::le32s(modes) + output_name, 32);
    lemma_head_kept(g, wire::le32s(modes) + output_name, 36);
    assert(b[1] == g[1] && b[24] == g[24] && b[25] == g[25]);
}

proof fn lemma_tail(g: Seq<u8>, a: Seq<u8>, b: Seq<u8>)
    ensures
        (g + (a + b)).subrange(g.len() as int, g.len() + a.len() as int) == a,
        (g + (a + b)).subrange(g.len() + a.len() as int, g.len() + a.len() + b.len() as int) == b,
{
    assert((g + (a + b)).subrange(g.len() as int, g.len() + a.len() as int) =~= a);
    assert((g + (a + b)).subrange(g.len() + a.len() as int, g.len() + a.len() + b.len() as int) =~= b);
}

proof fn lemma_head_kept(g: Seq<u8>, rest: Seq<u8>, i: int)
    requires
        0 <= i,
        i + 4 <= g.len(),
    ensures
        wire::u32_at(g + rest, i) == wire::u32_at(g, i),
        wire::u16_at(g + rest, i) == wire::u16_at(g, i),
        wire::u16_at(g + rest, i + 2) == wire::u16_at(g, i + 2),
{
}

spec fn output_info_head(
    timestamp: u32,
    crtc: u32,
    mm_width: u32,
    mm_height: u32,
    connected: bool,
    own_crtc: u32,
    modes: u16,
    names: u16,
) -> Seq<u8> {
    (start_bytes(SUCCESS) + wire::le32(timestamp) + wire::le32(crtc) + wire::le32(mm_width) + wire::le32(
        mm_height,
    )).push(if connected { 0u8 } else { 1u8 }).push(0u8) + wire::le16(1) + wire::le16(modes) + wire::le16(1)
        + wire::le16(0) + wire::le16(names) + wire::le32(own_crtc)
}

proof fn lemma_output_info_head(
    timestamp: u32,
    crtc: u32,
    mm_width: u32,
    mm_height: u32,
    connected: bool,
    own_crtc: u32,
    modes: u16,
    names: u16,
)
    ensures
        ({
            let h = output_info_head(timestamp, crtc, mm_width, mm_height, connected, own_crtc, modes, names);
            &&& h.len() == 40
            &&& h[1] == 0 && h[24] == (if connected { 0u8 } else { 1u8 }) && h[25] == 0
            &&& wire::u32_at(h, 8) == timestamp && wire::u32_at(h, 12) == crtc
            &&& wire::u32_at(h, 16) == mm_width && wire::u32_at(h, 20) == mm_height
            &&& wire::u16_at(h, 26) == 1 && wire::u16_at(h, 28) == modes
            &&& wire::u16_at(h, 30) == 1 && wire::u16_at(h, 32) == 0
            &&& wire::u16_at(h, 34) == names && wire::u32_at(h, 36) == own_crtc
        }),
{
    let h = output_info_head(timestamp, crtc, mm_width, mm_height, connected, own_crtc, modes, names);
    assert(h.subrange(8, 12) =~= wire::le32(timestamp));
    wire::lemma_reads_32(h, 8, timestamp);
    assert(h.subrange(12, 16) =~= wire::le32(crtc));
    wire::lemma_reads_32(h, 12, crtc);
    assert(h.subrange(16, 20) =~= wire::le32(mm_width));
    wire::lemma_reads_32(h, 16, mm_width);
    assert(h.subrange(20, 24) =~= wire::le32(mm_height));
    wire::lemma_reads_32(h, 20, mm_height);
    assert(h.subrange(26, 28) =~= wire::le16(1));
    wire::lemma_reads_16(h, 26, 1);
    assert(h.subrange(28, 30) =~= wire::le16(modes));
    wire::lemma_reads_16(h, 28, modes);
    assert(h.subrange(30, 32) =~= wire::le16(1));
    wire::lemma_reads_16(h, 30, 1);
    assert(h.subrange(32, 34) =~= wire::le16(0));
    wire::lemma_reads_16(h, 32, 0);
    assert(h.subrange(34, 36) =~= wire::le16(names));
    wire::lemma_reads_16(h, 34, names);
    assert(h.subrange(36, 40) =~= wire::le32(own_crtc));
    wire::lemma_reads_32(h, 36, own_crtc);
}

/// `GetCrtcInfo` has its fields where RandR has them.
pub proof fn law_crtc_info_fields(timestamp: u32, x: i16, y: i16, width: u16, height: u16, mode: u32, output: u32)
    ensures
        ({
            let b = crtc_info_bytes(timestamp, x, y, width, height, mode, output);
            &&& b[1] == 0
            &&& wire::u32_at(b, 8) == timestamp
            &&& wire::i16_at(b, 12) == x
            &&& wire::i16_at(b, 14) == y
            &&& wire::u16_at(b, 16) == width
            &&& wire::u16_at(b, 18) == height
            &&& wire::u32_at(b, 20) == mode
            &&& wire::u16_at(b, 24) == 1u16
            &&& wire::u16_at(b, 26) == 1u16
            &&& wire::u16_at(b, 28) == 1u16
            &&& wire::u16_at(b, 30) == 1u16
            &&& wire::u32_at(b, 32) == output
            &&& wire::u32_at(b, 36) == output
        }),
{
    let b = crtc_info_bytes(timestamp, x, y, width, height, mode, output);
    assert(b.subrange(8, 12) =~= wire::le32(timestamp));
    wire::lemma_reads_32(b, 8, timestamp);
    assert(b.subrange(12, 14) =~= wire::le_i16(x));
    wire::lemma_reads_i16(b, 12, x);
    assert(b.subrange(14, 16) =~= wire::le_i16(y));
    wire::lemma_reads_i16(b, 14, y);
    assert(b.subrange(16, 18) =~= wire::le16(width));
    wire::lemma_reads_16(b, 16, width);
    assert(b.subrange(18, 20) =~= wire::le16(height));
    wire::lemma_reads_16(b, 18, height);
    assert(b.subrange(20, 24) =~= wire::le32(mode));
    wire::lemma_reads_32(b, 20, mode);
    assert(b.subrange(24, 26) =~= wire::le16(1u16));
    wire::lemma_reads_16(b, 24, 1u16);
    assert(b.subrange(26, 28) =~= wire::le16(1u16));
    wire::lemma_reads_16(b, 26, 1u16);
    assert(b.subrange(28, 30) =~= wire::le16(1u16));
    wire::lemma_reads_16(b, 28, 1u16);
    assert(b.subrange(30, 32) =~= wire::le16(1u16));
    wire::lemma_reads_16(b, 30, 1u16);
    assert(b.subrange(32, 36) =~= wire::le32(output));
    wire::lemma_reads_32(b, 32, output);
    assert(b.subrange(36, 40) =~= wire::le32(output));
    wire::lemma_reads_32(b, 36, output);
}

/// `SetCrtcConfig` gives a status and a time.
pub proof fn law_set_crtc_fields(status: u8, timestamp: u32)
    ensures
        ({
            let b = set_crtc_bytes(status, timestamp);
            &&& b[1] == status
            &&& wire::u32_at(b, 8) == timestamp
        }),
{
    let b = set_crtc_bytes(status, timestamp);
    assert(b.subrange(8, 12) =~= wire::le32(timestamp));
    wire::lemma_reads_32(b, 8, timestamp);
}

/// `CreateMode` gives the mode.
pub proof fn law_create_mode_fields(mode: u32)
    ensures
        ({
            let b = create_mode_bytes(mode);
            &&& b[0] == 1
            &&& wire::u32_at(b, 8) == mode
        }),
{
    let b = create_mode_bytes(mode);
    assert(b.subrange(8, 12) =~= wire::le32(mode));
    wire::lemma_reads_32(b, 8, mode);
}

/// `GetCursorImage` has its fields where XFixes has them.
pub proof fn law_cursor_fields(
    x: i16,
    y: i16,
    width: u16,
    height: u16,
    xhot: u16,
    yhot: u16,
    serial: u32,
    image: Seq<u32>,
)
    ensures
        ({
            let b = cursor_bytes(x, y, width, height, xhot, yhot, serial, image);
            &&& wire::i16_at(b, 8) == x
            &&& wire::i16_at(b, 10) == y
            &&& wire::u16_at(b, 12) == width
            &&& wire::u16_at(b, 14) == height
            &&& wire::u16_at(b, 16) == xhot
            &&& wire::u16_at(b, 18) == yhot
            &&& wire::u32_at(b, 20) == serial
            &&& b.subrange(32, 32 + 4 * image.len() as int) == wire::le32s(image)
        }),
{
    let b = cursor_bytes(x, y, width, height, xhot, yhot, serial, image);
    assert(b.subrange(8, 10) =~= wire::le_i16(x));
    wire::lemma_reads_i16(b, 8, x);
    assert(b.subrange(10, 12) =~= wire::le_i16(y));
    wire::lemma_reads_i16(b, 10, y);
    assert(b.subrange(12, 14) =~= wire::le16(width));
    wire::lemma_reads_16(b, 12, width);
    assert(b.subrange(14, 16) =~= wire::le16(height));
    wire::lemma_reads_16(b, 14, height);
    assert(b.subrange(16, 18) =~= wire::le16(xhot));
    wire::lemma_reads_16(b, 16, xhot);
    assert(b.subrange(18, 20) =~= wire::le16(yhot));
    wire::lemma_reads_16(b, 18, yhot);
    assert(b.subrange(20, 24) =~= wire::le32(serial));
    wire::lemma_reads_32(b, 20, serial);
    wire::law_lists_have_each_number_in_its_place(image, Seq::empty(), 0);
    assert(b.subrange(32, 32 + 4 * image.len() as int) =~= wire::le32s(image));
}

/// `FetchRegion` gives the extents and then the rectangles.
pub proof fn law_region_fields(extents: Rectangle, rects: Seq<Rectangle>)
    ensures
        ({
            let b = region_bytes(extents, rects);
            &&& wire::rect_at(b, 8) == extents
            &&& b.skip(32) == wire::le_rects(rects)
        }),
{
    let b = region_bytes(extents, rects);
    wire::law_rectangles_read_back(extents, b.take(8), b.skip(16));
    assert(b.take(8) + wire::le_rect(extents) + b.skip(16) =~= b);
    assert(b.skip(32) =~= wire::le_rects(rects));
}

/// `GetProperty` has its fields where the protocol has them.
pub proof fn law_property_fields(format: u8, type_: u32, bytes_after: u32, items: u32, value: Seq<u8>)
    ensures
        ({
            let b = property_bytes(format, type_, bytes_after, items, value);
            &&& b[1] == format
            &&& wire::u32_at(b, 8) == type_
            &&& wire::u32_at(b, 12) == bytes_after
            &&& wire::u32_at(b, 16) == items
            &&& b.subrange(32, 32 + value.len() as int) == value
        }),
{
    let b = property_bytes(format, type_, bytes_after, items, value);
    assert(b.subrange(8, 12) =~= wire::le32(type_));
    wire::lemma_reads_32(b, 8, type_);
    assert(b.subrange(12, 16) =~= wire::le32(bytes_after));
    wire::lemma_reads_32(b, 12, bytes_after);
    assert(b.subrange(16, 20) =~= wire::le32(items));
    wire::lemma_reads_32(b, 16, items);
    assert(b.subrange(32, 32 + value.len() as int) =~= value);
}

/// `GetImage` gives the depth, the visual and the pixels.
pub proof fn law_image_fields(data: Seq<u8>)
    ensures
        ({
            let b = image_bytes(data);
            &&& b[1] == 24
            &&& wire::u32_at(b, 8) == ROOT_VISUAL
            &&& b.subrange(32, 32 + data.len() as int) == data
        }),
{
    let b = image_bytes(data);
    assert(b.subrange(8, 12) =~= wire::le32(ROOT_VISUAL));
    wire::lemma_reads_32(b, 8, ROOT_VISUAL);
    assert(b.subrange(32, 32 + data.len() as int) =~= data);
}

/// `ShmGetImage` gives the depth, the visual and the size.
pub proof fn law_shm_image_fields(size: u32)
    ensures
        ({
            let b = shm_image_bytes(size);
            &&& b[1] == 24
            &&& wire::u32_at(b, 8) == ROOT_VISUAL
            &&& wire::u32_at(b, 12) == size
        }),
{
    let b = shm_image_bytes(size);
    assert(b.subrange(8, 12) =~= wire::le32(ROOT_VISUAL));
    wire::lemma_reads_32(b, 8, ROOT_VISUAL);
    assert(b.subrange(12, 16) =~= wire::le32(size));
    wire::lemma_reads_32(b, 12, size);
}

/// An error has a 0 in front, its code, and the opcodes of the request it is about.
pub proof fn law_error_fields(code: u8, major: u8, minor: u16)
    ensures
        ({
            let b = error_bytes(code, major, minor);
            &&& b[0] == 0
            &&& b[1] == code
            &&& wire::u32_at(b, 4) == 0u32
            &&& wire::u16_at(b, 8) == minor
            &&& b[10] == major
        }),
{
    let b = error_bytes(code, major, minor);
    assert(b.subrange(4, 8) =~= wire::le32(0u32));
    wire::lemma_reads_32(b, 4, 0u32);
    assert(b.subrange(8, 10) =~= wire::le16(minor));
    wire::lemma_reads_16(b, 8, minor);
}

proof fn lemma_channels(p: u32, r: u8, g: u8, b: u8)
    requires
        p % 0x100_0000 == r * 0x1_0000 + g * 0x100 + b,
    ensures
        p / 0x1_0000 % 256 == r,
        p / 0x100 % 256 == g,
        p % 256 == b,
{
    let q = p as int / 0x100_0000;
    assert(p == q * 0x100_0000 + r * 0x1_0000 + g * 0x100 + b);
    assert(p as int / 0x1_0000 == q * 0x100 + r);
    assert(p as int / 0x100 == q * 0x1_0000 + r * 0x100 + g);
}

/// The colour of a pixel 0xRRGGBB is red, green and blue, each on the scale of 16 bits.
#[verifier::spinoff_prover]
#[verifier::rlimit(80)]
pub proof fn law_colour_fields(p: u32, r: u8, g: u8, blue: u8)
    requires
        p % 0x100_0000 == r * 0x1_0000 + g * 0x100 + blue,
    ensures
        ({
            let b = colour_bytes(p);
            &&& b.len() == 8
            &&& wire::u16_at(b, 0) == (r * 257) as u16
            &&& wire::u16_at(b, 2) == (g * 257) as u16
            &&& wire::u16_at(b, 4) == (blue * 257) as u16
        }),
{
    let b = colour_bytes(p);
    lemma_channels(p, r, g, blue);
    assert(b.subrange(0, 2) =~= wire::le16((r * 257) as u16));
    wire::lemma_reads_16(b, 0, (r * 257) as u16);
    assert(b.subrange(2, 4) =~= wire::le16((g * 257) as u16));
    wire::lemma_reads_16(b, 2, (g * 257) as u16);
    assert(b.subrange(4, 6) =~= wire::le16((blue * 257) as u16));
    wire::lemma_reads_16(b, 4, (blue * 257) as u16);
}

/// The channels of a colour are all the way up or down where those of its pixel are.
pub proof fn law_colours_reach_both_ends(p: u32)
    ensures
        p % 0x100_0000 == 0 ==> wire::u16_at(colour_bytes(p), 0) == 0 && wire::u16_at(colour_bytes(p), 2) == 0
            && wire::u16_at(colour_bytes(p), 4) == 0,
        p % 0x100_0000 == 0xff_ffff ==> wire::u16_at(colour_bytes(p), 0) == 0xffff && wire::u16_at(colour_bytes(p), 2)
            == 0xffff && wire::u16_at(colour_bytes(p), 4) == 0xffff,
{
    if p % 0x100_0000 == 0 {
        law_colour_fields(p, 0, 0, 0);
    }
    if p % 0x100_0000 == 0xff_ffff {
        law_colour_fields(p, 255, 255, 255);
    }
}

/// Each colour of a list is in its place.
pub proof fn law_colours_are_in_their_places(pixels: Seq<u32>, i: int)
    requires
        0 <= i < pixels.len(),
    ensures
        query_colors_bytes(pixels).len() == 32 + 8 * pixels.len(),
        query_colors_bytes(pixels).subrange(32 + 8 * i, 40 + 8 * i) == colour_bytes(pixels[i]),
        pixels.len() <= 0xffff ==> wire::u16_at(query_colors_bytes(pixels), 8) == pixels.len(),
{
    lemma_colours(pixels, i);
    let b = query_colors_bytes(pixels);
    assert(b.subrange(8, 10) =~= wire::le16(pixels.len() as u16));
    wire::lemma_reads_16(b, 8, pixels.len() as u16);
    assert(b.subrange(32 + 8 * i, 40 + 8 * i) =~= colours_bytes(pixels).subrange(8 * i, 8 * i + 8));
}

proof fn lemma_colours(pixels: Seq<u32>, i: int)
    requires
        0 <= i < pixels.len(),
    ensures
        colours_bytes(pixels).len() == 8 * pixels.len(),
        colours_bytes(pixels).subrange(8 * i, 8 * i + 8) == colour_bytes(pixels[i]),
    decreases pixels.len(),
{
    let r = pixels.drop_last();
    let all = colours_bytes(pixels);
    assert(colour_bytes(pixels.last()).len() == 8);
    if r.len() > 0 {
        lemma_colours(r, if i < r.len() { i } else { 0 });
    }
    if i < r.len() {
        assert(all.subrange(8 * i, 8 * i + 8) =~= colours_bytes(r).subrange(8 * i, 8 * i + 8));
    } else {
        assert(all.subrange(8 * i, 8 * i + 8) =~= colour_bytes(pixels.last()));
    }
}

/// The gamma ramp is linear: it rises by the same step from nothing to full.
pub proof fn law_gamma_ramp_is_linear(i: int)
    requires
        0 <= i < 255,
    ensures
        ramp().len() == 256,
        ramp()[0] == 0,
        ramp()[255] == 0xffff,
        ramp()[i + 1] - ramp()[i] == 257,
{
}

/// `TranslateCoordinates` leaves a point where it is: every window is at the origin.
pub proof fn law_translated_coordinates(x: i16, y: i16)
    ensures
        ({
            let b = fixed_bytes(Ask::TranslateCoordinates { x, y })->0;
            &&& fixed_bytes(Ask::TranslateCoordinates { x, y }) is Some
            &&& b[1] == 1
            &&& wire::u32_at(b, 8) == 0u32
            &&& wire::i16_at(b, 12) == x
            &&& wire::i16_at(b, 14) == y
        }),
{
    let b = fixed_bytes(Ask::TranslateCoordinates { x, y })->0;
    assert(b.subrange(8, 12) =~= wire::le32(0u32));
    wire::lemma_reads_32(b, 8, 0u32);
    assert(b.subrange(12, 14) =~= wire::le_i16(x));
    wire::lemma_reads_i16(b, 12, x);
    assert(b.subrange(14, 16) =~= wire::le_i16(y));
    wire::lemma_reads_i16(b, 14, y);
}

/// `AllocColor` gives back the colour that was asked for, and its pixel 0xRRGGBB.
#[verifier::spinoff_prover]
#[verifier::rlimit(80)]
pub proof fn law_allocated_colour_fields(red: u16, green: u16, blue: u16)
    ensures
        ({
            let b = fixed_bytes(Ask::AllocColor { red, green, blue })->0;
            &&& fixed_bytes(Ask::AllocColor { red, green, blue }) is Some
            &&& wire::u16_at(b, 8) == red
            &&& wire::u16_at(b, 10) == green
            &&& wire::u16_at(b, 12) == blue
            &&& wire::u32_at(b, 16) == (red / 256 * 0x1_0000 + green / 256 * 0x100 + blue / 256) as u32
        }),
{
    let b = fixed_bytes(Ask::AllocColor { red, green, blue })->0;
    assert(b.subrange(8, 10) =~= wire::le16(red));
    wire::lemma_reads_16(b, 8, red);
    assert(b.subrange(10, 12) =~= wire::le16(green));
    wire::lemma_reads_16(b, 10, green);
    assert(b.subrange(12, 14) =~= wire::le16(blue));
    wire::lemma_reads_16(b, 12, blue);
    assert(b.subrange(16, 20) =~= wire::le32((red / 256 * 0x1_0000 + green / 256 * 0x100 + blue / 256) as u32));
    wire::lemma_reads_32(b, 16, (red / 256 * 0x1_0000 + green / 256 * 0x100 + blue / 256) as u32);
}

/// `QueryBestSize` takes the size that was asked for.
pub proof fn law_best_size_is_the_size(width: u16, height: u16)
    ensures
        ({
            let b = fixed_bytes(Ask::QueryBestSize { width, height })->0;
            &&& fixed_bytes(Ask::QueryBestSize { width, height }) is Some
            &&& wire::u16_at(b, 8) == width
            &&& wire::u16_at(b, 10) == height
        }),
{
    let b = fixed_bytes(Ask::QueryBestSize { width, height })->0;
    assert(b.subrange(8, 10) =~= wire::le16(width));
    wire::lemma_reads_16(b, 8, width);
    assert(b.subrange(10, 12) =~= wire::le16(height));
    wire::lemma_reads_16(b, 10, height);
}

/// `GetPointerMapping` has seven buttons, each mapped to itself.
pub proof fn law_pointer_buttons_are_in_order(i: int)
    requires
        0 <= i < 7,
    ensures
        ({
            let b = fixed_bytes(Ask::GetPointerMapping)->0;
            &&& fixed_bytes(Ask::GetPointerMapping) is Some
            &&& b[1] == 7
            &&& b.len() == 39
            &&& b[32 + i] == i + 1
        }),
{
    let b = fixed_bytes(Ask::GetPointerMapping)->0;

}

/// The focus is always on the root window.
pub proof fn law_focus_is_the_root()
    ensures
        ({
            let b = fixed_bytes(Ask::GetInputFocus)->0;
            &&& fixed_bytes(Ask::GetInputFocus) is Some
            &&& b[1] == 1
            &&& wire::u32_at(b, 8) == ROOT_WINDOW
        }),
{
    let b = fixed_bytes(Ask::GetInputFocus)->0;
    assert(b.subrange(8, 12) =~= wire::le32(ROOT_WINDOW));
    wire::lemma_reads_32(b, 8, ROOT_WINDOW);
}

/// `GetScreenSizeRange` allows what the screen can be set to.
pub proof fn law_screen_sizes_range_up_to_the_largest()
    ensures
        ({
            let b = fixed_bytes(Ask::RandrGetScreenSizeRange)->0;
            &&& fixed_bytes(Ask::RandrGetScreenSizeRange) is Some
            &&& wire::u16_at(b, 8) == 8u16
            &&& wire::u16_at(b, 10) == 8u16
            &&& wire::u16_at(b, 12) == MAX_SCREEN
            &&& wire::u16_at(b, 14) == MAX_SCREEN
        }),
{
    let b = fixed_bytes(Ask::RandrGetScreenSizeRange)->0;
    assert(b.subrange(8, 10) =~= wire::le16(8u16));
    wire::lemma_reads_16(b, 8, 8u16);
    assert(b.subrange(10, 12) =~= wire::le16(8u16));
    wire::lemma_reads_16(b, 10, 8u16);
    assert(b.subrange(12, 14) =~= wire::le16(MAX_SCREEN));
    wire::lemma_reads_16(b, 12, MAX_SCREEN);
    assert(b.subrange(14, 16) =~= wire::le16(MAX_SCREEN));
    wire::lemma_reads_16(b, 14, MAX_SCREEN);
}

/// The versions that are spoken: RandR 1.6, DAMAGE 1.1, XFIXES 5.0, XTEST 2.2 and MIT-SHM
/// 1.2, the major version in front of the minor one.
pub proof fn law_versions()
    ensures
        ({
            let randr = fixed_bytes(Ask::RandrQueryVersion)->0;
            let damage = fixed_bytes(Ask::DamageQueryVersion)->0;
            let xfixes = fixed_bytes(Ask::XfixesQueryVersion)->0;
            let xtest = fixed_bytes(Ask::XtestGetVersion)->0;
            let shm = fixed_bytes(Ask::ShmQueryVersion)->0;
            &&& wire::u32_at(randr, 8) == 1 && wire::u32_at(randr, 12) == 6
            &&& wire::u32_at(damage, 8) == 1 && wire::u32_at(damage, 12) == 1
            &&& wire::u32_at(xfixes, 8) == 5 && wire::u32_at(xfixes, 12) == 0
            &&& xtest[1] == 2 && wire::u16_at(xtest, 8) == 2
            &&& wire::u16_at(shm, 8) == 1 && wire::u16_at(shm, 10) == 2
        }),
{
    let randr = fixed_bytes(Ask::RandrQueryVersion)->0;
    let damage = fixed_bytes(Ask::DamageQueryVersion)->0;
    let xfixes = fixed_bytes(Ask::XfixesQueryVersion)->0;
    let xtest = fixed_bytes(Ask::XtestGetVersion)->0;
    let shm = fixed_bytes(Ask::ShmQueryVersion)->0;
    assert(randr.subrange(8, 12) =~= wire::le32(1));
    wire::lemma_reads_32(randr, 8, 1);
    assert(randr.subrange(12, 16) =~= wire::le32(6));
    wire::lemma_reads_32(randr, 12, 6);
    assert(damage.subrange(8, 12) =~= wire::le32(1));
    wire::lemma_reads_32(damage, 8, 1);
    assert(damage.subrange(12, 16) =~= wire::le32(1));
    wire::lemma_reads_32(damage, 12, 1);
    assert(xfixes.subrange(8, 12) =~= wire::le32(5));
    wire::lemma_reads_32(xfixes, 8, 5);
    assert(xfixes.subrange(12, 16) =~= wire::le32(0));
    wire::lemma_reads_32(xfixes, 12, 0);
    assert(xtest.subrange(8, 10) =~= wire::le16(2));
    wire::lemma_reads_16(xtest, 8, 2);
    assert(shm.subrange(8, 10) =~= wire::le16(1));
    wire::lemma_reads_16(shm, 8, 1);
    assert(shm.subrange(10, 12) =~= wire::le16(2));
    wire::lemma_reads_16(shm, 10, 2);
}

/// A text is six pixels wide for each of its characters, eleven high and two deep.
pub proof fn law_text_is_six_pixels_a_character(characters: u64)
    requires
        characters * 6 < 0x8000_0000,
    ensures
        ({
            let b = fixed_bytes(Ask::QueryTextExtents { characters })->0;
            &&& wire::i16_at(b, 8) == 11 && wire::i16_at(b, 10) == 2
            &&& wire::u32_at(b, 16) == characters * 6
            &&& wire::u32_at(b, 20) == 0
            &&& wire::u32_at(b, 24) == characters * 6
        }),
{
    let b = fixed_bytes(Ask::QueryTextExtents { characters })->0;
    let w = (characters * 6) as u32;
    assert(text_width(characters) == characters * 6);
    assert(b.subrange(8, 10) =~= wire::le_i16(11));
    wire::lemma_reads_i16(b, 8, 11);
    assert(b.subrange(10, 12) =~= wire::le_i16(2));
    wire::lemma_reads_i16(b, 10, 2);
    assert(wire::le_i32(text_width(characters)) == wire::le32(w));
    assert(b.subrange(16, 20) =~= wire::le32(w));
    wire::lemma_reads_32(b, 16, w);
    assert(b.subrange(20, 24) =~= wire::le32(0));
    wire::lemma_reads_32(b, 20, 0);
    assert(b.subrange(24, 28) =~= wire::le32(w));
    wire::lemma_reads_32(b, 24, w);
}

} // verus!
