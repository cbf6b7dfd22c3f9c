//! The opening of a connection: what the client says first, and the description of the
//! one screen that it gets back.

use crate::bridge::x11::wire;
use crate::bridge::x11::{CLIENT_RESOURCE_ID_BASE, ROOT_COLORMAP, ROOT_DEPTH, ROOT_VISUAL, ROOT_WINDOW};
use crate::util::geometry;
use crate::util::geometry::Geometry;
use crate::util::list;
use vstd::prelude::*;

verus! {

/// Whether a client may connect. There is no X authentication; instead only connections
/// from our own user, and root, are accepted.
pub fn admits(uid: u32, peer: u32) -> (b: bool)
    ensures
        b == (peer == uid || peer == 0),
{
    peer == uid || peer == 0
}

/// How far apart the resource ids of two connections start: the mask that clients
/// allocate under is 21 bits wide.
pub const RESOURCE_ID_SPACING: u32 = 0x0020_0000;

/// The last connection that resource ids of its own can be given to.
pub const MAX_CONNECTION: u32 = 2045;

/// The client asks for the byte order that is not spoken here.
#[derive(Clone, Copy, PartialEq, Eq, Structural, Debug)]
pub struct BigEndian;

/// How many bytes of authorization follow the first twelve that a client sends, which
/// are read and ignored: a name and its data, each padded to whole units of four.
pub fn authorization_length(head: [u8; 12]) -> (r: Result<usize, BigEndian>)
    ensures
        r == (if head@[0] != 0x6c {
            Err(BigEndian)
        } else {
            Ok((wire::padded_len(wire::u16_at(head@, 6) as int) + wire::padded_len(wire::u16_at(head@, 8) as int)) as usize)
        }),
{
    // 'l', for the least significant byte first
    if head[0] != 0x6c {
        return Err(BigEndian);
    }
    let name: usize = wire::get16(head.as_slice(), 6) as usize;
    let data: usize = wire::get16(head.as_slice(), 8) as usize;
    Ok(wire::pad4(name) + wire::pad4(data))
}

/// Where the resource ids of a connection start.
pub open spec fn base_of(connection: u32) -> int {
    CLIENT_RESOURCE_ID_BASE + connection * RESOURCE_ID_SPACING
}

/// Where the resource ids of a connection start: clients must not allocate ids that
/// collide.
pub fn resource_id_base(connection: u32) -> (base: u32)
    requires
        connection <= MAX_CONNECTION,
    ensures
        base == base_of(connection),
{
    CLIENT_RESOURCE_ID_BASE + connection * RESOURCE_ID_SPACING
}

/// The vendor, `xwlrvnc`, padded to whole units.
pub open spec fn vendor_bytes() -> Seq<u8> {
    seq![0x78u8, 0x77, 0x6c, 0x72, 0x76, 0x6e, 0x63, 0]
}

/// A format that pixmaps have: depth, bits a pixel, and scanlines padded to 32 bits.
pub open spec fn format_bytes(depth: u8, bits_per_pixel: u8) -> Seq<u8> {
    seq![depth, bits_per_pixel, 32u8] + wire::zeros(5)
}

/// The server, up to its vendor: success, version 11.0, 34 more units of four bytes,
/// release 0, the resource ids, no motion history to speak of, the longest plain
/// request, one screen and three formats, least significant byte and bit first, and
/// the keycodes 8 to 255.
pub open spec fn server_bytes(resource_id_base: u32) -> Seq<u8> {
    seq![1u8, 0] + wire::le16(11) + wire::le16(0) + wire::le16(34) + wire::le32(0) + wire::le32(resource_id_base)
        + wire::le32(0x001f_ffff) + wire::le32(256) + wire::le16(7) + wire::le16(65535) + seq![1u8, 3, 0, 0, 32, 32, 8, 255]
        + wire::zeros(4)
}

/// The screen: its root and colormap, white and black, no event masks, its size in
/// pixels and in millimetres, and the one 24-bit TrueColor visual.
pub open spec fn screen_bytes(geom: Geometry) -> Seq<u8> {
    wire::le32(ROOT_WINDOW) + wire::le32(ROOT_COLORMAP) + wire::le32(0x00ff_ffff) + wire::le32(0) + wire::le32(0)
        + wire::le16(geom.width) + wire::le16(geom.height) + wire::le16((geom.width * 254 / 960) as u16) + wire::le16(
        (geom.height * 254 / 960) as u16,
    ) + wire::le16(1) + wire::le16(1) + wire::le32(ROOT_VISUAL) + seq![0u8, 0, ROOT_DEPTH, 1] + seq![ROOT_DEPTH, 0]
        + wire::le16(1) + wire::zeros(4) + wire::le32(ROOT_VISUAL) + seq![4u8, 8] + wire::le16(256) + wire::le32(
        0x00ff_0000,
    ) + wire::le32(0x0000_ff00) + wire::le32(0x0000_00ff) + wire::zeros(4)
}

/// The setup reply.
pub open spec fn setup_bytes(geom: Geometry, resource_id_base: u32) -> Seq<u8> {
    server_bytes(resource_id_base) + vendor_bytes() + format_bytes(1, 1) + format_bytes(24, 32) + format_bytes(32, 32)
        + screen_bytes(geom)
}

fn put_format(v: &mut Vec<u8>, depth: u8, bits_per_pixel: u8)
    ensures
        final(v)@ == old(v)@ + format_bytes(depth, bits_per_pixel),
{
    v.push(depth);
    v.push(bits_per_pixel);
    v.push(32);
    wire::put_zeros(v, 5);
    assert(v@ =~= old(v)@ + format_bytes(depth, bits_per_pixel));
}

fn put_server(v: &mut Vec<u8>, resource_id_base: u32)
    ensures
        final(v)@ == old(v)@ + server_bytes(resource_id_base),
{
    v.push(1);
    v.push(0);
    wire::put16(v, 11);
    wire::put16(v, 0);
    wire::put16(v, 34);
    wire::put32(v, 0);
    wire::put32(v, resource_id_base);
    wire::put32(v, 0x001f_ffff);
    wire::put32(v, 256);
    wire::put16(v, 7);
    wire::put16(v, 65535);
    list::append_bytes(v, [1u8, 3, 0, 0, 32, 32, 8, 255].as_slice());
    wire::put_zeros(v, 4);
    assert(v@ =~= old(v)@ + server_bytes(resource_id_base));
}

fn put_screen(v: &mut Vec<u8>, geom: Geometry)
    ensures
        final(v)@ == old(v)@ + screen_bytes(geom),
{
    wire::put32(v, ROOT_WINDOW);
    wire::put32(v, ROOT_COLORMAP);
    wire::put32(v, 0x00ff_ffff);
    wire::put32(v, 0);
    wire::put32(v, 0);
    wire::put16(v, geom.width);
    wire::put16(v, geom.height);
    wire::put16(v, geometry::mm(geom.width) as u16);
    wire::put16(v, geometry::mm(geom.height) as u16);
    wire::put16(v, 1);
    wire::put16(v, 1);
    wire::put32(v, ROOT_VISUAL);
    list::append_bytes(v, [0u8, 0, ROOT_DEPTH, 1].as_slice());
    list::append_bytes(v, [ROOT_DEPTH, 0].as_slice());
    wire::put16(v, 1);
    wire::put_zeros(v, 4);
    wire::put32(v, ROOT_VISUAL);
    list::append_bytes(v, [4u8, 8].as_slice());
    wire::put16(v, 256);
    wire::put32(v, 0x00ff_0000);
    wire::put32(v, 0x0000_ff00);
    wire::put32(v, 0x0000_00ff);
    wire::put_zeros(v, 4);
    assert(v@ =~= old(v)@ + screen_bytes(geom));
}

/// The setup reply for a single TrueColor 24-bit screen of the given size.
/// `resource_id_base` must be unique per connection so clients don't allocate
/// colliding ids.
pub fn setup(geom: Geometry, resource_id_base: u32) -> (v: Vec<u8>)
    ensures
        v@ == setup_bytes(geom, resource_id_base),
{
    let mut v: Vec<u8> = Vec::with_capacity(144);
    put_server(&mut v, resource_id_base);
    assert(v@ =~= server_bytes(resource_id_base));
    list::append_bytes(&mut v, [0x78u8, 0x77, 0x6c, 0x72, 0x76, 0x6e, 0x63, 0].as_slice());
    assert(v@ =~= server_bytes(resource_id_base) + vendor_bytes());
    put_format(&mut v, 1, 1);
    put_format(&mut v, 24, 32);
    put_format(&mut v, 32, 32);
    put_screen(&mut v, geom);
    v
}

/// The length in the setup reply is that of what follows its first eight bytes.
pub proof fn law_setup_says_its_length(geom: Geometry, resource_id_base: u32)
    ensures
        setup_bytes(geom, resource_id_base).len() == 8 + 4 * wire::u16_at(setup_bytes(geom, resource_id_base), 6),
{
    let b = setup_bytes(geom, resource_id_base);
    assert(b[6] == wire::le16(34)[0]);
    assert(b[7] == wire::le16(34)[1]);
}

/// The resource ids of two connections do not overlap.
pub proof fn law_connections_do_not_share_ids(a: u32, b: u32)
    requires
        a < b <= MAX_CONNECTION,
    ensures
        base_of(a) + 0x001f_ffff < base_of(b) <= u32::MAX,
{
}

/// The setup has its fields where the protocol has them: the ids that the client may use,
/// the keycodes from 8 to 255, the root window and its size, and the masks of the visual.
pub proof fn law_setup_describes_the_screen(geom: Geometry, resource_id_base: u32)
    ensures
        ({
            let b = setup_bytes(geom, resource_id_base);
            &&& b[0] == 1 && b[34] == 8 && b[35] == 255
            &&& wire::u16_at(b, 2) == 11
            &&& wire::u32_at(b, 12) == resource_id_base
            &&& wire::u32_at(b, 16) == 0x001f_ffff
            &&& wire::u32_at(b, 72) == ROOT_WINDOW
            &&& wire::u32_at(b, 76) == ROOT_COLORMAP
            &&& wire::u16_at(b, 92) == geom.width
            &&& wire::u16_at(b, 94) == geom.height
            &&& wire::u32_at(b, 104) == ROOT_VISUAL
            &&& b[110] == 24 && b[112] == 24
            &&& wire::u32_at(b, 120) == ROOT_VISUAL
            &&& b[124] == 4
            &&& wire::u32_at(b, 128) == 0x00ff_0000
            &&& wire::u32_at(b, 132) == 0x0000_ff00
            &&& wire::u32_at(b, 136) == 0x0000_00ff
        }),
{
    lemma_server_fields(resource_id_base);
    lemma_screen_fields(geom);
    let a = server_bytes(resource_id_base);
    let m = vendor_bytes() + format_bytes(1, 1) + format_bytes(24, 32) + format_bytes(32, 32);
    let c = screen_bytes(geom);
    assert(m.len() == 32);
    assert(setup_bytes(geom, resource_id_base) =~= a + m + c);
    lemma_setup_parts(a, m, c);
}

proof fn lemma_setup_parts(a: Seq<u8>, m: Seq<u8>, c: Seq<u8>)
    requires
        a.len() == 40,
        m.len() == 32,
    ensures
        forall|i: int| 0 <= i < 40 ==> (a + m + c)[i] == #[trigger] a[i],
        forall|i: int| 0 <= i < c.len() ==> (a + m + c)[72 + i] == #[trigger] c[i],
        forall|i: int| 0 <= i <= 36 ==> wire::u32_at(a + m + c, i) == #[trigger] wire::u32_at(a, i),
        forall|i: int| 0 <= i <= 36 ==> wire::u16_at(a + m + c, i) == #[trigger] wire::u16_at(a, i),
        forall|i: int| 0 <= i <= c.len() - 4 ==> wire::u32_at(a + m + c, 72 + i) == #[trigger] wire::u32_at(c, i),
        forall|i: int| 0 <= i <= c.len() - 4 ==> wire::u16_at(a + m + c, 72 + i) == #[trigger] wire::u16_at(c, i),
{
    let b = a + m + c;
    assert forall|i: int| 0 <= i <= c.len() - 4 implies wire::u32_at(b, 72 + i) == #[trigger] wire::u32_at(c, i) by {
        assert(b[72 + i] == c[i] && b[72 + i + 1] == c[i + 1] && b[72 + i + 2] == c[i + 2] && b[72 + i + 3] == c[i + 3]);
    }
    assert forall|i: int| 0 <= i <= c.len() - 4 implies wire::u16_at(b, 72 + i) == #[trigger] wire::u16_at(c, i) by {
        assert(b[72 + i] == c[i] && b[72 + i + 1] == c[i + 1]);
    }
}

proof fn lemma_server_fields(base: u32)
    ensures
        ({
            let b = server_bytes(base);
            &&& b.len() == 40
            &&& b[0] == 1 && b[34] == 8 && b[35] == 255
            &&& wire::u16_at(b, 2) == 11
            &&& wire::u32_at(b, 12) == base && wire::u32_at(b, 16) == 0x001f_ffff
        }),
{
    let b = server_bytes(base);
    assert(b.subrange(2, 4) =~= wire::le16(11));
    wire::lemma_reads_16(b, 2, 11);
    assert(b.subrange(12, 16) =~= wire::le32(base));
    wire::lemma_reads_32(b, 12, base);
    assert(b.subrange(16, 20) =~= wire::le32(0x001f_ffff));
    wire::lemma_reads_32(b, 16, 0x001f_ffff);
}

#[verifier::spinoff_prover]
#[verifier::rlimit(80)]
proof fn lemma_screen_fields(geom: Geometry)
    ensures
        ({
            let b = screen_bytes(geom);
            &&& b.len() == 72
            &&& wire::u32_at(b, 0) == ROOT_WINDOW && wire::u32_at(b, 4) == ROOT_COLORMAP
            &&& wire::u16_at(b, 20) == geom.width && wire::u16_at(b, 22) == geom.height
            &&& wire::u32_at(b, 32) == ROOT_VISUAL
            &&& b[38] == 24 && b[40] == 24
            &&& wire::u32_at(b, 48) == ROOT_VISUAL && b[52] == 4
            &&& wire::u32_at(b, 56) == 0x00ff_0000 && wire::u32_at(b, 60) == 0x0000_ff00 && wire::u32_at(b, 64) == 0x0000_00ff
        }),
{
    let b = screen_bytes(geom);
    assert(b.subrange(0, 4) =~= wire::le32(ROOT_WINDOW));
    wire::lemma_reads_32(b, 0, ROOT_WINDOW);
    assert(b.subrange(4, 8) =~= wire::le32(ROOT_COLORMAP));
    wire::lemma_reads_32(b, 4, ROOT_COLORMAP);
    assert(b.subrange(20, 22) =~= wire::le16(geom.width));
    wire::lemma_reads_16(b, 20, geom.width);
    assert(b.subrange(22, 24) =~= wire::le16(geom.height));
    wire::lemma_reads_16(b, 22, geom.height);
    assert(b.subrange(32, 36) =~= wire::le32(ROOT_VISUAL));
    wire::lemma_reads_32(b, 32, ROOT_VISUAL);
    assert(b.subrange(48, 52) =~= wire::le32(ROOT_VISUAL));
    wire::lemma_reads_32(b, 48, ROOT_VISUAL);
    assert(b.subrange(56, 60) =~= wire::le32(0x00ff_0000));
    wire::lemma_reads_32(b, 56, 0x00ff_0000);
    assert(b.subrange(60, 64) =~= wire::le32(0x0000_ff00));
    wire::lemma_reads_32(b, 60, 0x0000_ff00);
    assert(b.subrange(64, 68) =~= wire::le32(0x0000_00ff));
    wire::lemma_reads_32(b, 64, 0x0000_00ff);
}

} // verus!
