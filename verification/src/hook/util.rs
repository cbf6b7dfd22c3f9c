//! The process's environment and memory map, as the kernel writes them.

use crate::util::list;
use vstd::arithmetic::div_mod::*;
use vstd::prelude::*;
use vstd::slice::*;

verus! {

/// The processor.
#[derive(Clone, Copy, PartialEq, Eq, Structural, Debug)]
pub enum Arch {
    X86_64,
    Aarch64,
    Arm,
}

/// The address in a pointer: without the Thumb bit on ARM, and without the top byte,
/// which AArch64 ignores.
pub open spec fn untagged(ptr: usize, arch: Arch) -> int {
    match arch {
        Arch::X86_64 => ptr as int,
        Arch::Aarch64 => ptr as int % 0x100_0000_0000_0000,
        Arch::Arm => ptr - ptr % 2,
    }
}

/// The address in a pointer.
pub fn untag(ptr: usize, arch: Arch) -> (addr: usize)
    ensures
        addr == untagged(ptr, arch),
{
    match arch {
        Arch::X86_64 => ptr,
        Arch::Aarch64 => (ptr as u64 % 0x100_0000_0000_0000) as usize,
        Arch::Arm => ptr - ptr % 2,
    }
}

/// The value of a hexadecimal digit.
pub open spec fn digit(b: u8) -> Option<int> {
    if 0x30 <= b <= 0x39 {
        Some(b - 0x30)
    } else if 0x61 <= b <= 0x66 {
        Some(b - 0x61 + 10)
    } else if 0x41 <= b <= 0x46 {
        Some(b - 0x41 + 10)
    } else {
        None
    }
}

/// Where the hexadecimal digits from `p` on end.
pub open spec fn digits_end(s: Seq<u8>, p: int) -> int
    decreases s.len() - p,
{
    if 0 <= p < s.len() && digit(s[p]) is Some {
        digits_end(s, p + 1)
    } else {
        p
    }
}

/// The number that the digits spell.
pub open spec fn hex_value(s: Seq<u8>) -> int
    decreases s.len(),
{
    if s.len() == 0 {
        0
    } else {
        hex_value(s.drop_last()) * 16 + match digit(s.last()) {
            Some(d) => d,
            None => 0,
        }
    }
}

/// One more than the largest address.
pub open spec fn address_space() -> int {
    usize::MAX + 1
}

/// The number at `p`, as it fits an address; `None` if there is no digit.
pub open spec fn hex_at(s: Seq<u8>, p: int) -> Option<int> {
    let end = digits_end(s, p);
    if end > p {
        Some(hex_value(s.subrange(p, end)) % address_space())
    } else {
        None
    }
}

fn digit_of(b: u8) -> (r: Option<u8>)
    ensures
        match r {
            Some(d) => digit(b) == Some(d as int) && d < 16,
            None => digit(b) is None,
        },
{
    if 0x30 <= b && b <= 0x39 {
        Some(b - 0x30)
    } else if 0x61 <= b && b <= 0x66 {
        Some(b - 0x61 + 10)
    } else if 0x41 <= b && b <= 0x46 {
        Some(b - 0x41 + 10)
    } else {
        None
    }
}

proof fn lemma_digits_end(s: Seq<u8>, p: int, q: int)
    requires
        0 <= p <= q <= s.len(),
        forall|i: int| p <= i < q ==> digit(#[trigger] s[i]) is Some,
        q < s.len() ==> digit(s[q]) is None,
    ensures
        digits_end(s, p) == q,
    decreases q - p,
{
    if p < q {
        assert(digit(s[p]) is Some);
        lemma_digits_end(s, p + 1, q);
    }
}

/// One more digit, whether the number was cut to the address space before or after.
proof fn lemma_next_digit(v: int, d: int, m: int)
    requires
        m > 0,
    ensures
        ((v % m) * 16 + d) % m == (v * 16 + d) % m,
{
    let q = v / m;
    lemma_fundamental_div_mod(v, m);
    assert(v * 16 + d == m * (q * 16) + ((v % m) * 16 + d)) by (nonlinear_arith)
        requires
            v == m * q + v % m,
    ;
    lemma_mod_multiples_vanish(q * 16, (v % m) * 16 + d, m);
}

/// Reads the hexadecimal number at `pos` and moves past it. A number too large for an
/// address keeps its low bits.
pub fn parse_hex(buf: &[u8], pos: &mut usize) -> (r: Option<usize>)
    requires
        *old(pos) <= buf@.len(),
    ensures
        *final(pos) == digits_end(buf@, *old(pos) as int),
        *old(pos) <= *final(pos) <= buf@.len(),
        match r {
            Some(v) => hex_at(buf@, *old(pos) as int) == Some(v as int),
            None => hex_at(buf@, *old(pos) as int) is None,
        },
{
    let start: usize = *pos;
    let mut val: usize = 0;
    let mut p: usize = start;
    assert(buf.len() == buf@.len());
    assert(buf@.subrange(start as int, start as int) =~= Seq::empty());
    assert(0int % address_space() == 0) by {
        lemma_small_mod(0, address_space() as nat);
    }
    while p < buf.len()
        invariant_except_break
            start <= p <= buf.len(),
            buf.len() == buf@.len(),
            forall|i: int| start <= i < p ==> digit(#[trigger] buf@[i]) is Some,
            val == hex_value(buf@.subrange(start as int, p as int)) % address_space(),
        ensures
            start <= p <= buf.len(),
            forall|i: int| start <= i < p ==> digit(#[trigger] buf@[i]) is Some,
            p < buf.len() ==> digit(buf@[p as int]) is None,
            val == hex_value(buf@.subrange(start as int, p as int)) % address_space(),
        decreases buf.len() - p,
    {
        let d: u8 = match digit_of(buf[p]) {
            Some(d) => d,
            None => {
                break;
            },
        };
        proof {
            let before = buf@.subrange(start as int, p as int);
            let after = buf@.subrange(start as int, p as int + 1);
            assert(after.drop_last() =~= before);
            assert(after.last() == buf@[p as int]);
            lemma_next_digit(hex_value(before), d as int, address_space());
        }
        val = ((val as u128 * 16 + d as u128) % (usize::MAX as u128 + 1)) as usize;
        p += 1;
    }
    proof {
        lemma_digits_end(buf@, start as int, p as int);
    }
    *pos = p;
    if p > start {
        Some(val)
    } else {
        None
    }
}

/// A letter without its case.
pub open spec fn lower(b: u8) -> u8 {
    if 0x41 <= b <= 0x5a {
        (b + 0x20) as u8
    } else {
        b
    }
}

/// What a switch says, whatever its case.
pub open spec fn switch(s: Seq<u8>) -> Option<bool> {
    let t = s.map_values(|b: u8| lower(b));
    if t == seq![0x31u8] || t == seq![0x74u8, 0x72u8, 0x75u8, 0x65u8] || t == seq![0x79u8, 0x65u8, 0x73u8] {
        Some(true)
    } else if t == seq![0x30u8] || t == seq![0x66u8, 0x61u8, 0x6cu8, 0x73u8, 0x65u8] || t == seq![0x6eu8, 0x6fu8] {
        Some(false)
    } else {
        None
    }
}

fn lower_of(b: u8) -> (r: u8)
    ensures
        r == lower(b),
{
    if 0x41 <= b && b <= 0x5a {
        b + 0x20
    } else {
        b
    }
}

/// What a switch says: `1`, `true` and `yes`, or `0`, `false` and `no`, whatever their
/// case.
pub fn parse_bool(s: &[u8]) -> (r: Option<bool>)
    ensures
        r == switch(s@),
{
    assert(s.len() == s@.len());
    if s.len() > 5 {
        assert(s@.map_values(|b: u8| lower(b)).len() > 5);
        return None;
    }
    let mut t: Vec<u8> = Vec::new();
    let mut i: usize = 0;
    while i < s.len()
        invariant
            i <= s.len(),
            s.len() == s@.len(),
            t@ == s@.take(i as int).map_values(|b: u8| lower(b)),
        decreases s.len() - i,
    {
        t.push(lower_of(s[i]));
        assert(t@ =~= s@.take(i as int + 1).map_values(|b: u8| lower(b)));
        i += 1;
    }
    assert(s@.take(i as int) =~= s@);
    let one: [u8; 1] = [0x31];
    let yes_true: [u8; 4] = [0x74, 0x72, 0x75, 0x65];
    let yes: [u8; 3] = [0x79, 0x65, 0x73];
    let zero: [u8; 1] = [0x30];
    let no_false: [u8; 5] = [0x66, 0x61, 0x6c, 0x73, 0x65];
    let no: [u8; 2] = [0x6e, 0x6f];
    assert(one@ =~= seq![0x31u8]);
    assert(yes_true@ =~= seq![0x74u8, 0x72u8, 0x75u8, 0x65u8]);
    assert(yes@ =~= seq![0x79u8, 0x65u8, 0x73u8]);
    assert(zero@ =~= seq![0x30u8]);
    assert(no_false@ =~= seq![0x66u8, 0x61u8, 0x6cu8, 0x73u8, 0x65u8]);
    assert(no@ =~= seq![0x6eu8, 0x6fu8]);
    let b = t.as_slice();
    if list::same_bytes(b, &one) || list::same_bytes(b, &yes_true) || list::same_bytes(b, &yes) {
        Some(true)
    } else if list::same_bytes(b, &zero) || list::same_bytes(b, &no_false) || list::same_bytes(b, &no) {
        Some(false)
    } else {
        None
    }
}

/// Where the first `b` at or after `p` is, or the end.
pub open spec fn next_at(s: Seq<u8>, p: int, b: u8) -> int
    decreases s.len() - p,
{
    if 0 <= p < s.len() && s[p] != b {
        next_at(s, p + 1, b)
    } else {
        p
    }
}

proof fn lemma_next_at(s: Seq<u8>, p: int, q: int, b: u8)
    requires
        0 <= p <= q <= s.len(),
        forall|i: int| p <= i < q ==> #[trigger] s[i] != b,
        q < s.len() ==> s[q] == b,
    ensures
        next_at(s, p, b) == q,
    decreases q - p,
{
    if p < q {
        assert(s[p] != b);
        lemma_next_at(s, p + 1, q, b);
    }
}

fn find_byte(s: &[u8], p: usize, b: u8) -> (q: usize)
    requires
        p <= s@.len(),
    ensures
        q == next_at(s@, p as int, b),
        p <= q <= s@.len(),
        forall|i: int| p <= i < q ==> #[trigger] s@[i] != b,
        q < s@.len() ==> s@[q as int] == b,
{
    let mut q: usize = p;
    assert(s.len() == s@.len());
    while q < s.len() && s[q] != b
        invariant
            p <= q <= s.len(),
            s.len() == s@.len(),
            forall|i: int| p <= i < q ==> #[trigger] s@[i] != b,
        decreases s.len() - q,
    {
        q += 1;
    }
    proof {
        lemma_next_at(s@, p as int, q as int, b);
    }
    q
}

/// The value of a variable in the entry from `p` to `end`, if it is the one of that name.
pub open spec fn entry_value(s: Seq<u8>, p: int, end: int, name: Seq<u8>) -> Option<Seq<u8>> {
    let entry = s.subrange(p, end);
    let eq = next_at(entry, 0, 0x3d);
    if eq < entry.len() && entry.take(eq) == name {
        Some(entry.skip(eq + 1))
    } else {
        None
    }
}

/// The value of the first variable of that name, from `p` on. The entries are separated
/// by zero bytes.
pub open spec fn value_from(s: Seq<u8>, p: int, name: Seq<u8>) -> Option<Seq<u8>>
    decreases s.len() - p,
{
    if p < 0 || p > s.len() {
        None
    } else {
        let end = next_at(s, p, 0);
        match entry_value(s, p, end, name) {
            Some(v) => Some(v),
            None => if p <= end < s.len() {
                value_from(s, end + 1, name)
            } else {
                None
            },
        }
    }
}

/// The process's environment.
pub struct Environ<'a> {
    data: &'a [u8],
}

impl<'a> Environ<'a> {
    pub closed spec fn bytes(self) -> Seq<u8> {
        self.data@
    }

    /// An environment, from what the kernel has written.
    pub fn read(data: &'a [u8]) -> (e: Self)
        ensures
            e.bytes() == data@,
    {
        Environ { data }
    }

    /// The value of the first variable of that name.
    pub fn get(&self, name: &[u8]) -> (r: Option<&'a [u8]>)
        ensures
            match r {
                Some(v) => value_from(self.bytes(), 0, name@) == Some(v@),
                None => value_from(self.bytes(), 0, name@) is None,
            },
    {
        let s = self.data;
        let mut p: usize = 0;
        assert(s.len() == s@.len());
        loop
            invariant
                s.len() == s@.len(),
                s@ == self.bytes(),
                p <= s.len(),
                value_from(s@, 0, name@) == value_from(s@, p as int, name@),
            decreases s.len() - p,
        {
            let end: usize = find_byte(s, p, 0);
            let entry = slice_subrange(s, p, end);
            assert(entry.len() == entry@.len());
            let eq: usize = find_byte(entry, 0, 0x3d);
            if eq < entry.len() && list::same_bytes(slice_subrange(entry, 0, eq), name) {
                assert(entry@.subrange(0, eq as int) =~= entry@.take(eq as int));
                assert(entry@.subrange(eq as int + 1, entry@.len() as int) =~= entry@.skip(eq as int + 1));
                return Some(slice_subrange(entry, eq + 1, entry.len()));
            }
            assert(entry@.subrange(0, eq as int) =~= entry@.take(eq as int));
            if end >= s.len() {
                return None;
            }
            p = end + 1;
        }
    }
}

/// A part of the address space.
#[derive(Clone, Copy, PartialEq, Eq, Structural, Debug)]
pub struct Mapping {
    pub lo: usize,
    pub hi: usize,
    pub rd: bool,
    pub wr: bool,
    pub ex: bool,
    pub offset: usize,
    /// Only private segments are scanned. Shared segments backed by device files (GPU
    /// memory, say) appear readable but fault on access.
    pub private: bool,
    /// Only file-backed segments are scanned. Anonymous and special kernel mappings
    /// appear readable but fault on access; type names, type information and virtual
    /// tables are always in file-backed sections.
    pub file_backed: bool,
}

/// The byte at `p` is that one.
pub open spec fn has_byte(s: Seq<u8>, p: int, b: u8) -> bool {
    0 <= p < s.len() && s[p] == b
}

/// The number at `p`, 0 without one.
pub open spec fn hex_or_zero(s: Seq<u8>, p: int) -> int {
    match hex_at(s, p) {
        Some(v) => v,
        None => 0,
    }
}

impl Mapping {
    /// What a line of the memory map says: the two addresses, the permissions, the offset
    /// in the file, and the device. Only readable segments count.
    pub open spec fn parsed(line: Seq<u8>) -> Option<Mapping> {
        let a = digits_end(line, 0);
        let b = digits_end(line, a + 1);
        let c = digits_end(line, b + 6);
        let d = digits_end(line, c + 1);
        if hex_at(line, 0) is None || !has_byte(line, a, 0x2d) || hex_at(line, a + 1) is None || !has_byte(line, b, 0x20)
            || b + 5 > line.len() || line[b + 1] != 0x72 || !has_byte(line, b + 5, 0x20) || !has_byte(line, c, 0x20) {
            None
        } else {
            let major = hex_or_zero(line, c + 1);
            let minor = if has_byte(line, d, 0x3a) {
                hex_or_zero(line, d + 1)
            } else {
                0
            };
            Some(
                Mapping {
                    lo: hex_at(line, 0)->0 as usize,
                    hi: hex_at(line, a + 1)->0 as usize,
                    rd: true,
                    wr: line[b + 2] == 0x77,
                    ex: line[b + 3] == 0x78,
                    offset: hex_or_zero(line, b + 6) as usize,
                    private: line[b + 4] == 0x70,
                    file_backed: major != 0 || minor != 0,
                },
            )
        }
    }

    /// What a line of the memory map says.
    pub fn parse(line: &[u8]) -> (r: Option<Self>)
        ensures
            r == Mapping::parsed(line@),
    {
        assert(line.len() == line@.len());
        let mut p: usize = 0;
        let lo: usize = match parse_hex(line, &mut p) {
            Some(v) => v,
            None => {
                return None;
            },
        };
        if p >= line.len() || line[p] != 0x2d {
            return None;
        }
        p += 1;
        let hi: usize = match parse_hex(line, &mut p) {
            Some(v) => v,
            None => {
                return None;
            },
        };
        if p >= line.len() || line[p] != 0x20 {
            return None;
        }
        p += 1;
        if line.len() - p < 4 {
            return None;
        }
        let readable = line[p] == 0x72;
        let wr = line[p + 1] == 0x77;
        let ex = line[p + 2] == 0x78;
        let private = line[p + 3] == 0x70;
        if !readable {
            return None;
        }
        p += 4;
        if p >= line.len() || line[p] != 0x20 {
            return None;
        }
        p += 1;
        let offset: usize = match parse_hex(line, &mut p) {
            Some(v) => v,
            None => 0,
        };
        if p >= line.len() || line[p] != 0x20 {
            return None;
        }
        p += 1;
        let major: usize = match parse_hex(line, &mut p) {
            Some(v) => v,
            None => 0,
        };
        let minor: usize = if p < line.len() && line[p] == 0x3a {
            p += 1;
            match parse_hex(line, &mut p) {
                Some(v) => v,
                None => 0,
            }
        } else {
            0
        };
        Some(Mapping { lo, hi, rd: true, wr, ex, offset, private, file_backed: major != 0 || minor != 0 })
    }

    /// Whether the address is in it.
    pub open spec fn holds(self, addr: int) -> bool {
        self.lo <= addr < self.hi
    }

    /// Where an address is in the file.
    pub open spec fn offset_of(self, addr: usize) -> int {
        (self.offset + (addr - self.lo)) % address_space()
    }

    /// Where an address is in the file.
    pub fn file_offset(&self, addr: usize) -> (r: usize)
        requires
            self.holds(addr as int),
        ensures
            r == self.offset_of(addr),
    {
        ((self.offset as u128 + (addr - self.lo) as u128) % (usize::MAX as u128 + 1)) as usize
    }

    /// It is scanned.
    pub open spec fn scanned(self) -> bool {
        self.private && self.file_backed
    }
}

/// The process's memory map.
pub struct Mappings {
    pub maps: Vec<Mapping>,
}

/// The mappings that the lines from `p` on describe, up to a number of them.
pub open spec fn mappings_from(s: Seq<u8>, p: int, max: int) -> Seq<Mapping>
    decreases s.len() - p,
{
    if p < 0 || p > s.len() {
        Seq::empty()
    } else {
        let end = next_at(s, p, 0x0a);
        let first = match Mapping::parsed(s.subrange(p, end)) {
            Some(m) if max > 0 => seq![m],
            _ => Seq::empty(),
        };
        first + if p <= end < s.len() {
            mappings_from(s, end + 1, max - first.len())
        } else {
            Seq::empty()
        }
    }
}

/// The first mapping that has the address.
pub open spec fn having(addr: int, only_executable: bool) -> spec_fn(Mapping) -> bool {
    |m: Mapping| (!only_executable || m.ex) && m.holds(addr)
}

impl Mappings {
    /// The memory map, from what the kernel has written: at most `max` mappings.
    pub fn read(data: &[u8], max: usize) -> (m: Self)
        ensures
            m.maps@ == mappings_from(data@, 0, max as int),
            m.maps@.len() <= max,
    {
        let mut maps: Vec<Mapping> = Vec::new();
        let mut p: usize = 0;
        assert(data.len() == data@.len());
        loop
            invariant
                data.len() == data@.len(),
                p <= data.len(),
                maps@.len() <= max,
                mappings_from(data@, 0, max as int) == maps@ + mappings_from(data@, p as int, max - maps@.len()),
            decreases data.len() - p,
        {
            let end: usize = find_byte(data, p, 0x0a);
            let line = slice_subrange(data, p, end);
            let ghost before = maps@;
            let ghost left = max - before.len();
            let ghost rest = if end < data@.len() {
                mappings_from(data@, end + 1, left - (maps@.len() - before.len()))
            } else {
                Seq::empty()
            };
            if let Some(m) = Mapping::parse(line) {
                if maps.len() < max {
                    maps.push(m);
                }
            }
            proof {
                let first = match Mapping::parsed(line@) {
                    Some(m) if left > 0 => seq![m],
                    _ => Seq::<Mapping>::empty(),
                };
                assert(maps@ =~= before + first);
                let tail = if end < data@.len() {
                    mappings_from(data@, end + 1, left - first.len())
                } else {
                    Seq::empty()
                };
                assert(mappings_from(data@, p as int, left) == first + tail);
                assert(before + (first + tail) =~= maps@ + tail);
            }
            if end >= data.len() {
                assert(maps@ + Seq::<Mapping>::empty() =~= maps@);
                return Mappings { maps };
            }
            p = end + 1;
        }
    }

    /// The first mapping that has the address, or the first executable one.
    pub fn find_mapping(&self, addr: usize, only_executable: bool) -> (r: Option<&Mapping>)
        ensures
            match r {
                Some(m) => list::first_index(self.maps@, having(addr as int, only_executable)) matches Some(i) && *m
                    == self.maps@[i],
                None => list::first_index(self.maps@, having(addr as int, only_executable)) is None,
            },
    {
        let ghost p = having(addr as int, only_executable);
        let mut i: usize = 0;
        while i < self.maps.len()
            invariant
                i <= self.maps.len(),
                p == having(addr as int, only_executable),
                forall|j: int| 0 <= j < i ==> !p(#[trigger] self.maps@[j]),
            decreases self.maps.len() - i,
        {
            let m = self.maps[i];
            if (!only_executable || m.ex) && addr >= m.lo && addr < m.hi {
                proof {
                    list::lemma_first_index_is(self.maps@, p, i as int);
                }
                return Some(&self.maps[i]);
            }
            i += 1;
        }
        proof {
            list::lemma_first_index_none(self.maps@, p);
        }
        None
    }

    /// Where an address is in the file that is mapped there.
    pub fn file_offset(&self, addr: usize) -> (r: Option<usize>)
        ensures
            match list::first_index(self.maps@, having(addr as int, false)) {
                Some(i) => r matches Some(v) && v == self.maps@[i].offset_of(addr),
                None => r is None,
            },
    {
        proof {
            list::lemma_first_index(self.maps@, having(addr as int, false));
        }
        match self.find_mapping(addr, false) {
            Some(m) => Some(m.file_offset(addr)),
            None => None,
        }
    }
}

/// A number in hexadecimal digits reads back: each digit counts sixteen times as much as
/// the one behind it.
pub proof fn law_hex_digits_have_their_place(s: Seq<u8>, d: u8)
    requires
        digit(d) is Some,
    ensures
        hex_value(s.push(d)) == hex_value(s) * 16 + digit(d)->0,
{
    assert(s.push(d).drop_last() =~= s);
}

/// A mapping that was read has what its line says, and nothing unreadable is kept.
pub proof fn law_mappings_are_readable(s: Seq<u8>, p: int, max: int, i: int)
    requires
        0 <= i < mappings_from(s, p, max).len(),
    ensures
        mappings_from(s, p, max)[i].rd,
    decreases s.len() - p,
{
    if 0 <= p <= s.len() {
        let end = next_at(s, p, 0x0a);
        let first = match Mapping::parsed(s.subrange(p, end)) {
            Some(m) if max > 0 => seq![m],
            _ => Seq::<Mapping>::empty(),
        };
        if i >= first.len() {
            law_mappings_are_readable(s, end + 1, max - first.len(), i - first.len());
        }
    }
}

/// A switch is on for `1`, `true` and `yes`, off for `0`, `false` and `no`, and the case of
/// its letters does not matter.
pub proof fn law_switches_are_yes_or_no(s: Seq<u8>, t: Seq<u8>)
    requires
        s.len() == t.len(),
        forall|i: int| 0 <= i < s.len() ==> lower(#[trigger] s[i]) == lower(t[i]),
    ensures
        switch(s) == switch(t),
        s == seq!['1' as u8] || s == seq!['t' as u8, 'r' as u8, 'u' as u8, 'e' as u8] || s == seq![
            'y' as u8,
            'e' as u8,
            's' as u8,
        ] ==> switch(s) == Some(true),
        s == seq!['0' as u8] || s == seq!['f' as u8, 'a' as u8, 'l' as u8, 's' as u8, 'e' as u8] || s == seq![
            'n' as u8,
            'o' as u8,
        ] ==> switch(s) == Some(false),
{
    let a = s.map_values(|b: u8| lower(b));
    let b = t.map_values(|b: u8| lower(b));
    assert(a =~= b);
    if s == seq!['1' as u8] || s == seq!['t' as u8, 'r' as u8, 'u' as u8, 'e' as u8] || s == seq![
        'y' as u8,
        'e' as u8,
        's' as u8,
    ] || s == seq!['0' as u8] || s == seq!['f' as u8, 'a' as u8, 'l' as u8, 's' as u8, 'e' as u8] || s == seq![
        'n' as u8,
        'o' as u8,
    ] {
        assert(a =~= s);
        assert(s.len() > 0);
        let f = seq!['f' as u8, 'a' as u8, 'l' as u8, 's' as u8, 'e' as u8];
        let n = seq!['n' as u8, 'o' as u8];
        let z = seq!['0' as u8];
        assert(f.len() == 5 && n.len() == 2 && z.len() == 1 && z[0] == 0x30);
        assert(seq![0x31u8][0] == 0x31 && seq![0x31u8].len() == 1);
        assert(seq![0x74u8, 0x72u8, 0x75u8, 0x65u8].len() == 4 && seq![0x79u8, 0x65u8, 0x73u8].len() == 3);
        assert(seq!['t' as u8, 'r' as u8, 'u' as u8, 'e' as u8] =~= seq![0x74u8, 0x72u8, 0x75u8, 0x65u8]);
        assert(seq!['y' as u8, 'e' as u8, 's' as u8] =~= seq![0x79u8, 0x65u8, 0x73u8]);
        assert(seq!['1' as u8] =~= seq![0x31u8]);
        assert(f =~= seq![0x66u8, 0x61u8, 0x6cu8, 0x73u8, 0x65u8]);
        assert(n =~= seq![0x6eu8, 0x6fu8]);
        assert(z =~= seq![0x30u8]);
    }
}

/// The value of a variable is what stands behind its name and the `=`, up to the zero byte
/// that ends it.
pub proof fn law_variable_has_its_value(name: Seq<u8>, value: Seq<u8>, rest: Seq<u8>)
    requires
        forall|i: int| 0 <= i < name.len() ==> #[trigger] name[i] != '=' as u8 && name[i] != 0,
        forall|i: int| 0 <= i < value.len() ==> #[trigger] value[i] != 0,
    ensures
        value_from(name + seq!['=' as u8] + value + seq![0u8] + rest, 0, name) == Some(value),
{
    let s = name + seq!['=' as u8] + value + seq![0u8] + rest;
    let n = name.len() as int;
    let end = n + 1 + value.len() as int;
    assert forall|i: int| 0 <= i < end implies #[trigger] s[i] != 0 by {
        if i < n {
            assert(s[i] == name[i]);
        } else if i > n {
            assert(s[i] == value[i - n - 1]);
        }
    }
    assert(s[end] == 0);
    lemma_next_at(s, 0, end, 0);
    let entry = s.subrange(0, end);
    assert forall|i: int| 0 <= i < n implies #[trigger] entry[i] != 0x3d by {
        assert(entry[i] == name[i]);
    }
    assert(entry[n] == 0x3d);
    lemma_next_at(entry, 0, n, 0x3d);
    assert(entry.take(n) =~= name);
    assert(entry.skip(n + 1) =~= value);
}

/// An address has nothing of the tag that its pointer carries: the top byte on AArch64, the
/// lowest bit on ARM.
pub proof fn law_addresses_have_no_tag(ptr: usize)
    ensures
        untagged(ptr, Arch::X86_64) == ptr,
        untagged(ptr, Arch::Aarch64) < 0x100_0000_0000_0000,
        ptr < 0x100_0000_0000_0000 ==> untagged(ptr, Arch::Aarch64) == ptr,
        untagged(ptr, Arch::Arm) % 2 == 0,
        ptr % 2 == 0 ==> untagged(ptr, Arch::Arm) == ptr,
        ptr % 2 == 1 ==> untagged(ptr, Arch::Arm) == ptr - 1,
{
}

/// An address is as far into the file as it is into its mapping, from where the mapping
/// begins in the file.
pub proof fn law_offsets_go_with_addresses(m: Mapping, a: usize, b: usize)
    requires
        m.holds(a as int),
        m.holds(b as int),
        m.offset + (m.hi - m.lo) <= usize::MAX,
    ensures
        m.offset_of(b) - m.offset_of(a) == b - a,
        m.offset_of(m.lo) == m.offset,
{
    assert(address_space() == usize::MAX + 1);
    lemma_fits(m.offset + (a - m.lo));
    lemma_fits(m.offset + (b - m.lo));
    lemma_fits(m.offset as int);
}

proof fn lemma_fits(v: int)
    requires
        0 <= v <= usize::MAX,
    ensures
        v % address_space() == v,
{
    vstd::arithmetic::div_mod::lemma_small_mod(v as nat, address_space() as nat);
}

} // verus!
