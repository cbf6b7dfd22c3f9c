//! Numbers and padding as the X protocol has them on the wire: little-endian, in
//! units of four bytes.

use crate::util::geometry;
use crate::util::geometry::Rectangle;
use vstd::prelude::*;

verus! {

/// A 16-bit number, low byte first.
pub open spec fn le16(v: u16) -> Seq<u8> {
    seq![(v % 256) as u8, (v / 256) as u8]
}

/// A 32-bit number, low byte first.
pub open spec fn le32(v: u32) -> Seq<u8> {
    seq![(v % 256) as u8, (v / 0x100 % 256) as u8, (v / 0x1_0000 % 256) as u8, (v / 0x100_0000) as u8]
}

/// A signed 16-bit number in two's complement.
pub open spec fn le_i16(v: i16) -> Seq<u8> {
    le16(geometry::wrap_u16(v as int) as u16)
}

/// A signed 32-bit number in two's complement.
pub open spec fn le_i32(v: i32) -> Seq<u8> {
    le32((v as int % 0x1_0000_0000) as u32)
}

/// A rectangle: corner and size.
pub open spec fn le_rect(r: Rectangle) -> Seq<u8> {
    le_i16(r.x) + le_i16(r.y) + le16(r.width) + le16(r.height)
}

/// The numbers one behind the other.
pub open spec fn le32s(s: Seq<u32>) -> Seq<u8>
    decreases s.len(),
{
    if s.len() == 0 {
        Seq::empty()
    } else {
        le32s(s.drop_last()) + le32(s.last())
    }
}

pub open spec fn le16s(s: Seq<u16>) -> Seq<u8>
    decreases s.len(),
{
    if s.len() == 0 {
        Seq::empty()
    } else {
        le16s(s.drop_last()) + le16(s.last())
    }
}

pub open spec fn le_rects(s: Seq<Rectangle>) -> Seq<u8>
    decreases s.len(),
{
    if s.len() == 0 {
        Seq::empty()
    } else {
        le_rects(s.drop_last()) + le_rect(s.last())
    }
}

/// `n` zero bytes.
pub open spec fn zeros(n: int) -> Seq<u8> {
    Seq::new(n as nat, |i: int| 0u8)
}

/// The 16-bit number at byte `i`.
pub open spec fn u16_at(b: Seq<u8>, i: int) -> u16 {
    (b[i] + b[i + 1] * 256) as u16
}

/// The 32-bit number at byte `i`.
pub open spec fn u32_at(b: Seq<u8>, i: int) -> u32 {
    (b[i] + b[i + 1] * 256 + b[i + 2] * 0x1_0000 + b[i + 3] * 0x100_0000) as u32
}

/// The signed 16-bit number at byte `i`.
pub open spec fn i16_at(b: Seq<u8>, i: int) -> i16 {
    geometry::wrap_i16(u16_at(b, i) as int) as i16
}

/// The rectangle at byte `i`.
pub open spec fn rect_at(b: Seq<u8>, i: int) -> Rectangle {
    Rectangle { x: i16_at(b, i), y: i16_at(b, i + 2), width: u16_at(b, i + 4), height: u16_at(b, i + 6) }
}

pub fn put16(v: &mut Vec<u8>, x: u16)
    ensures
        final(v)@ == old(v)@ + le16(x),
{
    let ghost v0 = v@;
    v.push((x % 256) as u8);
    v.push((x / 256) as u8);
    assert(v@ =~= v0 + le16(x));
}

pub fn put32(v: &mut Vec<u8>, x: u32)
    ensures
        final(v)@ == old(v)@ + le32(x),
{
    let ghost v0 = v@;
    v.push((x % 256) as u8);
    v.push((x / 0x100 % 256) as u8);
    v.push((x / 0x1_0000 % 256) as u8);
    v.push((x / 0x100_0000) as u8);
    assert(v@ =~= v0 + le32(x));
}

pub fn put_i16(v: &mut Vec<u8>, x: i16)
    ensures
        final(v)@ == old(v)@ + le_i16(x),
{
    put16(v, geometry::to_u16(x as i32));
}

pub fn put_i32(v: &mut Vec<u8>, x: i32)
    ensures
        final(v)@ == old(v)@ + le_i32(x),
{
    let u: u32 = if x >= 0 { x as u32 } else { (x as i64 + 0x1_0000_0000) as u32 };
    put32(v, u);
}

pub fn put_rect(v: &mut Vec<u8>, r: Rectangle)
    ensures
        final(v)@ == old(v)@ + le_rect(r),
{
    let ghost v0 = v@;
    put_i16(v, r.x);
    put_i16(v, r.y);
    put16(v, r.width);
    put16(v, r.height);
    assert(v@ =~= v0 + le_rect(r));
}

pub fn put32s(v: &mut Vec<u8>, s: &Vec<u32>)
    ensures
        final(v)@ == old(v)@ + le32s(s@),
{
    let ghost v0 = v@;
    let mut i: usize = 0;
    assert(s@.take(0) =~= Seq::empty());
    assert(v@ =~= v0 + le32s(s@.take(0)));
    while i < s.len()
        invariant
            i <= s.len(),
            v@ == v0 + le32s(s@.take(i as int)),
        decreases s.len() - i,
    {
        assert(s@.take(i as int + 1).drop_last() =~= s@.take(i as int));
        put32(v, s[i]);
        assert(v@ =~= v0 + le32s(s@.take(i as int + 1)));
        i += 1;
    }
    assert(s@.take(i as int) =~= s@);
}

pub fn put16s(v: &mut Vec<u8>, s: &Vec<u16>)
    ensures
        final(v)@ == old(v)@ + le16s(s@),
{
    let ghost v0 = v@;
    let mut i: usize = 0;
    assert(s@.take(0) =~= Seq::empty());
    assert(v@ =~= v0 + le16s(s@.take(0)));
    while i < s.len()
        invariant
            i <= s.len(),
            v@ == v0 + le16s(s@.take(i as int)),
        decreases s.len() - i,
    {
        assert(s@.take(i as int + 1).drop_last() =~= s@.take(i as int));
        put16(v, s[i]);
        assert(v@ =~= v0 + le16s(s@.take(i as int + 1)));
        i += 1;
    }
    assert(s@.take(i as int) =~= s@);
}

pub fn put_rects(v: &mut Vec<u8>, s: &Vec<Rectangle>)
    ensures
        final(v)@ == old(v)@ + le_rects(s@),
{
    let ghost v0 = v@;
    let mut i: usize = 0;
    assert(s@.take(0) =~= Seq::empty());
    assert(v@ =~= v0 + le_rects(s@.take(0)));
    while i < s.len()
        invariant
            i <= s.len(),
            v@ == v0 + le_rects(s@.take(i as int)),
        decreases s.len() - i,
    {
        assert(s@.take(i as int + 1).drop_last() =~= s@.take(i as int));
        put_rect(v, s[i]);
        assert(v@ =~= v0 + le_rects(s@.take(i as int + 1)));
        i += 1;
    }
    assert(s@.take(i as int) =~= s@);
}

pub fn put_zeros(v: &mut Vec<u8>, n: usize)
    ensures
        final(v)@ == old(v)@ + zeros(n as int),
{
    let ghost v0 = v@;
    let mut i: usize = 0;
    assert(v@ =~= v0 + zeros(0));
    while i < n
        invariant
            i <= n,
            v@ == v0 + zeros(i as int),
        decreases n - i,
    {
        v.push(0);
        assert(v@ =~= v0 + zeros(i as int + 1));
        i += 1;
    }
}

pub fn get16(b: &[u8], i: usize) -> (x: u16)
    requires
        i + 2 <= b@.len(),
    ensures
        x == u16_at(b@, i as int),
{
    b[i] as u16 + b[i + 1] as u16 * 256
}

pub fn get32(b: &[u8], i: usize) -> (x: u32)
    requires
        i + 4 <= b@.len(),
    ensures
        x == u32_at(b@, i as int),
{
    b[i] as u32 + b[i + 1] as u32 * 256 + b[i + 2] as u32 * 0x1_0000 + b[i + 3] as u32 * 0x100_0000
}

pub fn get_i16(b: &[u8], i: usize) -> (x: i16)
    requires
        i + 2 <= b@.len(),
    ensures
        x == i16_at(b@, i as int),
{
    geometry::to_i16(get16(b, i) as i32)
}

pub fn get_rect(b: &[u8], i: usize) -> (r: Rectangle)
    requires
        i + 8 <= b@.len(),
    ensures
        r == rect_at(b@, i as int),
{
    assert(b.len() == b@.len());
    Rectangle { x: get_i16(b, i), y: get_i16(b, i + 2), width: get16(b, i + 4), height: get16(b, i + 6) }
}

/// The next multiple of four.
pub open spec fn padded_len(n: int) -> int {
    n + (4 - n % 4) % 4
}

/// Rounds a length up to whole units of four.
pub fn pad4(n: usize) -> (r: usize)
    requires
        n + 3 <= usize::MAX,
    ensures
        r == padded_len(n as int),
{
    n + (4 - n % 4) % 4
}

/// The bytes with zeroes behind them up to `n`.
pub open spec fn at_least(b: Seq<u8>, n: int) -> Seq<u8> {
    if b.len() < n {
        b + zeros(n - b.len())
    } else {
        b
    }
}

/// An event or a reply is at least 32 bytes long.
pub open spec fn padded_event(b: Seq<u8>) -> Seq<u8> {
    at_least(b, 32)
}

/// A reply as it goes out: at least 32 bytes, in whole units of four, and the number
/// of units beyond the first 32 bytes in its length field.
pub open spec fn framed(b: Seq<u8>) -> Seq<u8> {
    let p = at_least(at_least(b, 32), padded_len(at_least(b, 32).len() as int));
    p.take(4) + le32(((p.len() - 32) / 4 % 0x1_0000_0000) as u32) + p.skip(8)
}

/// Pads an event to its 32 bytes.
pub fn pad_event(b: &mut Vec<u8>)
    ensures
        final(b)@ == padded_event(old(b)@),
{
    if b.len() < 32 {
        let n: usize = 32 - b.len();
        put_zeros(b, n);
    }
}

/// Pads a reply to the 32-byte wire minimum and to a multiple of four, and patches in
/// the length field. The sequence number at `[2..4]` is stamped when the reply is
/// queued.
///
/// The meaningful bytes of a reply may be fewer (12 for `QueryExtension`); the wire
/// format is always at least 32 bytes with `length` counting the extra 4-byte units
/// beyond that. Patching `[4..8]` from the final length works for every reply
/// because that field is always the reply length.
pub fn build_reply(reply: Vec<u8>) -> (buf: Vec<u8>)
    ensures
        buf@ == framed(reply@),
{
    let mut b = reply;
    if b.len() < 32 {
        let n: usize = 32 - b.len();
        put_zeros(&mut b, n);
    }
    let ghost p1 = b@;
    let pad: usize = (4 - b.len() % 4) % 4;
    put_zeros(&mut b, pad);
    let ghost p = b@;
    assert(p =~= at_least(p1, padded_len(p1.len() as int)));
    let units: u32 = ((b.len() - 32) as u64 / 4 % 0x1_0000_0000) as u32;
    b[4] = (units % 256) as u8;
    b[5] = (units / 0x100 % 256) as u8;
    b[6] = (units / 0x1_0000 % 256) as u8;
    b[7] = (units / 0x100_0000) as u8;
    assert(b@ =~= p.take(4) + le32(units) + p.skip(8));
    b
}

/// A reply has at least 32 bytes.
pub proof fn lemma_framed_len(b: Seq<u8>)
    ensures
        framed(b).len() >= 32,
{
}

/// Writing a 32-bit number and reading it back gives the number.
pub proof fn law_le32_reads_back(v: u32, a: Seq<u8>, b: Seq<u8>)
    ensures
        u32_at(a + le32(v) + b, a.len() as int) == v,
{
    let s = a + le32(v) + b;
    let n = a.len() as int;
    assert(s[n] == le32(v)[0] && s[n + 1] == le32(v)[1] && s[n + 2] == le32(v)[2] && s[n + 3] == le32(v)[3]);
}

/// Writing a 16-bit number and reading it back gives the number.
pub proof fn law_le16_reads_back(v: u16, a: Seq<u8>, b: Seq<u8>)
    ensures
        u16_at(a + le16(v) + b, a.len() as int) == v,
{
    let s = a + le16(v) + b;
    let n = a.len() as int;
    assert(s[n] == le16(v)[0] && s[n + 1] == le16(v)[1]);
}

/// A framed reply has the length that it says: 32 bytes and its units of four.
pub proof fn law_reply_says_its_length(b: Seq<u8>)
    requires
        b.len() <= 0x3_ffff_ffff,
    ensures
        framed(b).len() == 32 + 4 * u32_at(framed(b), 4),
        framed(b).len() % 4 == 0,
        framed(b).len() >= b.len(),
{
    let p = at_least(at_least(b, 32), padded_len(at_least(b, 32).len() as int));
    let units = ((p.len() - 32) / 4 % 0x1_0000_0000) as u32;
    law_le32_reads_back(units, p.take(4), p.skip(8));
}

/// Numbers go out least significant byte first.
pub proof fn law_numbers_are_little_endian(v: u32, w: u16)
    ensures
        le32(v).len() == 4,
        v == le32(v)[0] + le32(v)[1] * 0x100 + le32(v)[2] * 0x1_0000 + le32(v)[3] * 0x100_0000,
        le16(w).len() == 2,
        w == le16(w)[0] + le16(w)[1] * 0x100,
{
}

/// Signed numbers go out in two's complement, and are read back as they were.
pub proof fn law_signed_numbers_read_back(v: i16, w: i32, a: Seq<u8>, b: Seq<u8>)
    ensures
        i16_at(a + le_i16(v) + b, a.len() as int) == v,
        v >= 0 ==> u16_at(le_i16(v), 0) == v,
        v < 0 ==> u16_at(le_i16(v), 0) == v + 0x1_0000,
        w >= 0 ==> u32_at(le_i32(w), 0) == w,
        w < 0 ==> u32_at(le_i32(w), 0) == w + 0x1_0000_0000,
{
    let u = geometry::wrap_u16(v as int) as u16;
    law_le16_reads_back(u, a, b);
    let e = Seq::<u8>::empty();
    law_le16_reads_back(u, e, e);
    assert(e + le16(u) + e =~= le16(u));
    let x = (w as int % 0x1_0000_0000) as u32;
    law_le32_reads_back(x, e, e);
    assert(e + le32(x) + e =~= le32(x));
}

/// A rectangle goes out as its corner and then its size, and is read back as it was.
pub proof fn law_rectangles_read_back(r: Rectangle, a: Seq<u8>, b: Seq<u8>)
    ensures
        rect_at(a + le_rect(r) + b, a.len() as int) == r,
        le_rect(r).len() == 8,
{
    let s = a + le_rect(r) + b;
    let n = a.len() as int;
    let e = Seq::<u8>::empty();
    assert(s =~= a + le_i16(r.x) + (le_i16(r.y) + le16(r.width) + le16(r.height) + b));
    assert(s =~= (a + le_i16(r.x)) + le_i16(r.y) + (le16(r.width) + le16(r.height) + b));
    assert(s =~= (a + le_i16(r.x) + le_i16(r.y)) + le16(r.width) + (le16(r.height) + b));
    assert(s =~= (a + le_i16(r.x) + le_i16(r.y) + le16(r.width)) + le16(r.height) + b);
    law_signed_numbers_read_back(r.x, 0, a, le_i16(r.y) + le16(r.width) + le16(r.height) + b);
    law_signed_numbers_read_back(r.y, 0, a + le_i16(r.x), le16(r.width) + le16(r.height) + b);
    law_le16_reads_back(r.width, a + le_i16(r.x) + le_i16(r.y), le16(r.height) + b);
    law_le16_reads_back(r.height, a + le_i16(r.x) + le_i16(r.y) + le16(r.width), b);
}

/// A list of numbers has each of them in its place.
pub proof fn law_lists_have_each_number_in_its_place(s: Seq<u32>, t: Seq<u16>, i: int)
    ensures
        le32s(s).len() == 4 * s.len(),
        0 <= i < s.len() ==> u32_at(le32s(s), 4 * i) == s[i],
        le16s(t).len() == 2 * t.len(),
        0 <= i < t.len() ==> u16_at(le16s(t), 2 * i) == t[i],
    decreases s.len(), t.len(),
{
    if s.len() > 0 {
        law_lists_have_each_number_in_its_place(s.drop_last(), t, i);
        let e = Seq::<u8>::empty();
        law_le32_reads_back(s.last(), le32s(s.drop_last()), e);
        assert(le32s(s.drop_last()) + le32(s.last()) + e =~= le32s(s));
    } else if t.len() > 0 {
        law_lists_have_each_number_in_its_place(s, t.drop_last(), i);
        let e = Seq::<u8>::empty();
        law_le16_reads_back(t.last(), le16s(t.drop_last()), e);
        assert(le16s(t.drop_last()) + le16(t.last()) + e =~= le16s(t));
    }
}

/// So does a list of rectangles.
pub proof fn law_lists_have_each_rectangle_in_its_place(s: Seq<Rectangle>, i: int)
    requires
        0 <= i < s.len(),
    ensures
        le_rects(s).len() == 8 * s.len(),
        rect_at(le_rects(s), 8 * i) == s[i],
    decreases s.len(),
{
    let e = Seq::<u8>::empty();
    let r = s.drop_last();
    if r.len() > 0 {
        law_lists_have_each_rectangle_in_its_place(r, if i < r.len() { i } else { 0 });
    }
    law_rectangles_read_back(s.last(), le_rects(r), e);
    assert(le_rects(r) + le_rect(s.last()) + e =~= le_rects(s));
}

/// A length is rounded up to whole units of four, by less than one unit.
pub proof fn law_padding_is_to_whole_units(n: int)
    requires
        0 <= n,
    ensures
        padded_len(n) % 4 == 0,
        n <= padded_len(n) < n + 4,
{
}

/// The number at a place of a message whose bytes there are the number's.
pub proof fn lemma_reads_32(b: Seq<u8>, i: int, v: u32)
    requires
        0 <= i,
        i + 4 <= b.len(),
        b.subrange(i, i + 4) == le32(v),
    ensures
        u32_at(b, i) == v,
{
    let s = b.subrange(i, i + 4);
    assert(s[0] == b[i] && s[1] == b[i + 1] && s[2] == b[i + 2] && s[3] == b[i + 3]);
}

/// The number at a place of a message whose bytes there are the number's.
pub proof fn lemma_reads_16(b: Seq<u8>, i: int, v: u16)
    requires
        0 <= i,
        i + 2 <= b.len(),
        b.subrange(i, i + 2) == le16(v),
    ensures
        u16_at(b, i) == v,
{
    let s = b.subrange(i, i + 2);
    assert(s[0] == b[i] && s[1] == b[i + 1]);
}

/// The signed number at a place of a message whose bytes there are the number's.
pub proof fn lemma_reads_i16(b: Seq<u8>, i: int, v: i16)
    requires
        0 <= i,
        i + 2 <= b.len(),
        b.subrange(i, i + 2) == le_i16(v),
    ensures
        i16_at(b, i) == v,
{
    lemma_reads_16(b, i, geometry::wrap_u16(v as int) as u16);
}

/// What a reply says beyond its length field goes out as it is, and zeroes behind it.
pub proof fn law_framing_keeps_the_reply(b: Seq<u8>, i: int)
    requires
        b.len() >= 8,
        0 <= i < framed(b).len(),
        !(4 <= i < 8),
    ensures
        framed(b)[i] == (if i < b.len() {
            b[i]
        } else {
            0
        }),
{
}

} // verus!
