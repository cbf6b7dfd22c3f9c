//! Finding the dynamic-resolution feature of a VNC agent in its own memory.
//!
//! The agent only offers it if its screen is virtual. The feature's class is found by
//! its type name: the name leads to the type information, that to the virtual table, and
//! that to the function which checks for `-virtual`, whose check is then patched. The
//! memory itself is read and written outside; here it is slices, one for each mapping
//! that is scanned.

use crate::util::list;
use vstd::prelude::*;

pub mod aarch64;
pub mod arm;
pub mod search;
pub mod util;
pub mod x86_64;

use crate::hook::util::{Arch, Mapping, Mappings};

verus! {

/// How much of the environment and of the memory map is read.
pub const MAX_READ_BYTES: usize = 24280;

pub const MAX_MAPS_ENTRIES: usize = 1024;

pub const MAX_VTABLE_SLOTS: usize = 16;

pub const FN_SCAN_LIMIT: usize = 64;

/// The bytes that the scanned mappings hold.
pub open spec fn covers(maps: Seq<Mapping>, data: Seq<&[u8]>) -> bool {
    &&& maps.len() == data.len()
    &&& forall|i: int|
        0 <= i < maps.len() && (#[trigger] maps[i]).scanned() ==> maps[i].lo <= maps[i].hi && data[i]@.len()
            == maps[i].hi - maps[i].lo
}

/// The pointer at an offset, little end first.
pub open spec fn pointer_at(s: Seq<u8>, at: int, size: int) -> int
    decreases size,
{
    if size <= 0 {
        0
    } else {
        s[at] + 256 * pointer_at(s, at + 1, size - 1)
    }
}

/// The size of a pointer.
pub open spec fn pointer_size(arch: Arch) -> int {
    if arch == Arch::Arm {
        4
    } else {
        8
    }
}

fn size_of(arch: Arch) -> (n: usize)
    ensures
        n == pointer_size(arch),
{
    match arch {
        Arch::Arm => 4,
        _ => 8,
    }
}

/// The pointer at an offset.
pub fn read_ptr(data: &[u8], at: usize, size: usize) -> (p: u64)
    requires
        size == 4 || size == 8,
        at + size <= data@.len(),
    ensures
        p == pointer_at(data@, at as int, size as int),
{
    assert(data.len() == data@.len());
    proof {
        reveal_with_fuel(pointer_at, 9);
    }
    let low: u64 = data[at] as u64 + 256 * (data[at + 1] as u64) + 0x1_0000 * (data[at + 2] as u64) + 0x100_0000 * (
    data[at + 3] as u64);
    if size == 4 {
        return low;
    }
    let high: u64 = data[at + 4] as u64 + 256 * (data[at + 5] as u64) + 0x1_0000 * (data[at + 6] as u64) + 0x100_0000
        * (data[at + 7] as u64);
    low + 0x1_0000_0000 * high
}

/// The pattern is at an offset.
pub open spec fn bytes_at(s: Seq<u8>, at: int, pattern: Seq<u8>) -> bool {
    0 <= at && at + pattern.len() <= s.len() && s.subrange(at, at + pattern.len()) == pattern
}

fn is_at(s: &[u8], at: usize, pattern: &[u8]) -> (b: bool)
    requires
        at + pattern@.len() <= s@.len(),
    ensures
        b == bytes_at(s@, at as int, pattern@),
{
    assert(s.len() == s@.len());
    assert(pattern.len() == pattern@.len());
    let mut i: usize = 0;
    while i < pattern.len()
        invariant
            i <= pattern.len(),
            s.len() == s@.len(),
            pattern.len() == pattern@.len(),
            at + pattern@.len() <= s@.len(),
            forall|j: int| 0 <= j < i ==> s@[at + j] == #[trigger] pattern@[j],
        decreases pattern.len() - i,
    {
        if s[at + i] != pattern[i] {
            assert(s@.subrange(at as int, at + pattern@.len())[i as int] == s@[at + i]);
            return false;
        }
        i += 1;
    }
    assert(s@.subrange(at as int, at + pattern@.len()) =~= pattern@);
    true
}

/// Where a pattern first is in a slice.
pub fn find_in(s: &[u8], pattern: &[u8]) -> (r: Option<usize>)
    ensures
        r matches Some(k) ==> bytes_at(s@, k as int, pattern@) && forall|j: int|
            0 <= j < k ==> !#[trigger] bytes_at(s@, j, pattern@),
        r is None ==> forall|j: int| !#[trigger] bytes_at(s@, j, pattern@),
{
    assert(s.len() == s@.len());
    assert(pattern.len() == pattern@.len());
    if s.len() < pattern.len() {
        return None;
    }
    let last: usize = s.len() - pattern.len();
    let mut k: usize = 0;
    loop
        invariant
            k <= last,
            s.len() == s@.len(),
            pattern.len() == pattern@.len(),
            last + pattern@.len() == s@.len(),
            forall|j: int| 0 <= j < k ==> !#[trigger] bytes_at(s@, j, pattern@),
        decreases last - k,
    {
        if is_at(s, k, pattern) {
            return Some(k);
        }
        if k == last {
            return None;
        }
        k += 1;
    }
}

/// The type information that names its type at `name_addr` starts at this address: the
/// pointer behind its first one is to there, and that first one is a virtual table's.
pub open spec fn typeinfo_at(s: Seq<u8>, name_addr: usize, size: int, j: int) -> bool {
    &&& 1 <= j < s.len() as int / size
    &&& pointer_at(s, j * size, size) == name_addr
    &&& pointer_at(s, j * size - size, size) != 0
    &&& pointer_at(s, j * size - size, size) % 8 == 0
}

/// Where the type information is in one mapping: the number of its second pointer.
pub fn typeinfo_in(s: &[u8], name_addr: usize, arch: Arch) -> (r: Option<usize>)
    ensures
        r matches Some(j) ==> typeinfo_at(s@, name_addr, pointer_size(arch), j as int) && forall|i: int|
            0 <= i < j ==> !#[trigger] typeinfo_at(s@, name_addr, pointer_size(arch), i),
        r is None ==> forall|i: int| !#[trigger] typeinfo_at(s@, name_addr, pointer_size(arch), i),
{
    assert(s.len() == s@.len());
    let size: usize = size_of(arch);
    let count: usize = s.len() / size;
    let mut j: usize = 1;
    while j < count
        invariant
            1 <= j,
            s.len() == s@.len(),
            size == pointer_size(arch),
            count == s.len() / size,
            forall|i: int| 0 <= i < j ==> !#[trigger] typeinfo_at(s@, name_addr, pointer_size(arch), i),
        decreases count - j,
    {
        proof {
            if size == 4 {
                assert(j * 4 + 4 <= s@.len());
            } else {
                assert(j * 8 + 8 <= s@.len());
            }
        }
        let at: usize = j * size;
        if read_ptr(s, at, size) == name_addr as u64 {
            let vptr: u64 = read_ptr(s, at - size, size);
            if vptr != 0 && vptr % 8 == 0 {
                return Some(j);
            }
        }
        j += 1;
    }
    None
}

/// The virtual table of a type starts behind this pointer, which is to the type's
/// information: the function that comes first is mapped.
pub open spec fn vtable_at(maps: Seq<Mapping>, s: Seq<u8>, typeinfo_addr: usize, size: int, j: int) -> bool {
    &&& 0 <= j < s.len() as int / size - 1
    &&& pointer_at(s, j * size, size) == typeinfo_addr
    &&& list::first_index(maps, util::having(pointer_at(s, j * size + size, size), false)) is Some
}

/// Where the virtual table is in one mapping: the number of the pointer before it.
pub fn vtable_in(s: &[u8], maps: &Mappings, typeinfo_addr: usize, arch: Arch) -> (r: Option<usize>)
    ensures
        r matches Some(j) ==> vtable_at(maps.maps@, s@, typeinfo_addr, pointer_size(arch), j as int) && forall|i: int|
            0 <= i < j ==> !#[trigger] vtable_at(maps.maps@, s@, typeinfo_addr, pointer_size(arch), i),
        r is None ==> forall|i: int| !#[trigger] vtable_at(maps.maps@, s@, typeinfo_addr, pointer_size(arch), i),
{
    assert(s.len() == s@.len());
    let size: usize = size_of(arch);
    let count: usize = s.len() / size;
    let mut j: usize = 0;
    while j < count.saturating_sub(1)
        invariant
            s.len() == s@.len(),
            size == pointer_size(arch),
            count == s.len() / size,
            forall|i: int| 0 <= i < j ==> !#[trigger] vtable_at(maps.maps@, s@, typeinfo_addr, pointer_size(arch), i),
        decreases count - j,
    {
        proof {
            if size == 4 {
                assert(j * 4 + 8 <= s@.len());
            } else {
                assert(j * 8 + 16 <= s@.len());
            }
        }
        let at: usize = j * size;
        if read_ptr(s, at, size) == typeinfo_addr as u64 {
            let fn0: u64 = read_ptr(s, at + size, size);
            if fn0 <= usize::MAX as u64 {
                if maps.find_mapping(fn0 as usize, false).is_some() {
                    return Some(j);
                }
            } else {
                proof {
                    list::lemma_first_index(maps.maps@, util::having(fn0 as int, false));
                }
            }
        }
        j += 1;
    }
    None
}

/// The first scanned mapping that holds the pattern, other than the one of `not_in`,
/// which holds our own copy; and the address.
pub fn find_bytes(maps: &Mappings, data: &Vec<&[u8]>, pattern: &[u8], not_in: usize) -> (r: Option<usize>)
    requires
        covers(maps.maps@, data@),
    ensures
        name_found(maps.maps@, data@, pattern@, not_in, r),
{
    let mut i: usize = 0;
    while i < maps.maps.len()
        invariant
            covers(maps.maps@, data@),
            i <= maps.maps@.len(),
            forall|h: int, l: int| 0 <= h < i ==> !#[trigger] name_in(maps.maps@, data@, pattern@, not_in, h, l),
        decreases maps.maps@.len() - i,
    {
        let m = maps.maps[i];
        if m.private && m.file_backed && !(not_in >= m.lo && not_in < m.hi) {
            let s: &[u8] = data[i];
            if let Some(k) = find_in(s, pattern) {
                assert(name_in(maps.maps@, data@, pattern@, not_in, i as int, k as int));
                assert(m.lo + k <= m.hi);
                return Some(m.lo + k);
            }
        }
        i += 1;
    }
    None
}

/// A scanned mapping, other than that of `not_in`, holds the pattern.
pub open spec fn name_in(
    maps: Seq<Mapping>,
    data: Seq<&[u8]>,
    pattern: Seq<u8>,
    not_in: usize,
    i: int,
    k: int,
) -> bool {
    0 <= i < maps.len() && maps[i].scanned() && !maps[i].holds(not_in as int) && bytes_at(data[i]@, k, pattern)
}

/// Where the pattern is first: the first mapping that holds it, and the first place there.
pub open spec fn name_found(
    maps: Seq<Mapping>,
    data: Seq<&[u8]>,
    pattern: Seq<u8>,
    not_in: usize,
    r: Option<usize>,
) -> bool {
    match r {
        Some(a) => exists|i: int, k: int|
            {
                &&& #[trigger] name_in(maps, data, pattern, not_in, i, k)
                &&& a == maps[i].lo + k
                &&& forall|j: int| 0 <= j < k ==> !#[trigger] bytes_at(data[i]@, j, pattern)
                &&& forall|h: int, l: int| 0 <= h < i ==> !#[trigger] name_in(maps, data, pattern, not_in, h, l)
            },
        None => forall|h: int, l: int| !#[trigger] name_in(maps, data, pattern, not_in, h, l),
    }
}

/// The address of the type information of the type whose name is at `name_addr`.
pub fn find_typeinfo(maps: &Mappings, data: &Vec<&[u8]>, name_addr: usize, arch: Arch) -> (r: Option<usize>)
    requires
        covers(maps.maps@, data@),
    ensures
        info_found(maps.maps@, data@, name_addr, arch, r),
{
    let mut i: usize = 0;
    while i < maps.maps.len()
        invariant
            covers(maps.maps@, data@),
            i <= maps.maps@.len(),
            forall|h: int, l: int| 0 <= h < i ==> !#[trigger] info_in(maps.maps@, data@, name_addr, arch, h, l),
        decreases maps.maps@.len() - i,
    {
        let m = maps.maps[i];
        if m.private && m.file_backed {
            let s: &[u8] = data[i];
            assert(maps.maps@[i as int].scanned());
            if let Some(j) = typeinfo_in(s, name_addr, arch) {
                let size: usize = size_of(arch);
                assert(info_in(maps.maps@, data@, name_addr, arch, i as int, j as int));
                proof {
                    if size == 4 {
                        assert(j < s@.len() as int / 4);
                    } else {
                        assert(j < s@.len() as int / 8);
                    }
                }
                return Some(m.lo + (j - 1) * size);
            }
        }
        i += 1;
    }
    None
}

/// A scanned mapping holds the type information.
pub open spec fn info_in(maps: Seq<Mapping>, data: Seq<&[u8]>, name_addr: usize, arch: Arch, i: int, j: int) -> bool {
    0 <= i < maps.len() && maps[i].scanned() && typeinfo_at(data[i]@, name_addr, pointer_size(arch), j)
}

/// Where the type information is first.
pub open spec fn info_found(
    maps: Seq<Mapping>,
    data: Seq<&[u8]>,
    name_addr: usize,
    arch: Arch,
    r: Option<usize>,
) -> bool {
    match r {
        Some(a) => exists|i: int, j: int|
            {
                &&& #[trigger] info_in(maps, data, name_addr, arch, i, j)
                &&& a == maps[i].lo + (j - 1) * pointer_size(arch)
                &&& forall|h: int, l: int|
                    (0 <= h < i || (h == i && 0 <= l < j)) ==> !#[trigger] info_in(maps, data, name_addr, arch, h, l)
            },
        None => forall|h: int, l: int| !#[trigger] info_in(maps, data, name_addr, arch, h, l),
    }
}

/// The address of the virtual table of the type whose information is at
/// `typeinfo_addr`.
pub fn find_vtable(maps: &Mappings, data: &Vec<&[u8]>, typeinfo_addr: usize, arch: Arch) -> (r: Option<usize>)
    requires
        covers(maps.maps@, data@),
    ensures
        table_found(maps.maps@, data@, typeinfo_addr, arch, r),
{
    let mut i: usize = 0;
    while i < maps.maps.len()
        invariant
            covers(maps.maps@, data@),
            i <= maps.maps@.len(),
            forall|h: int, l: int| 0 <= h < i ==> !#[trigger] table_in(maps.maps@, data@, typeinfo_addr, arch, h, l),
        decreases maps.maps@.len() - i,
    {
        let m = maps.maps[i];
        if m.private && m.file_backed {
            let s: &[u8] = data[i];
            assert(maps.maps@[i as int].scanned());
            if let Some(j) = vtable_in(s, maps, typeinfo_addr, arch) {
                let size: usize = size_of(arch);
                assert(table_in(maps.maps@, data@, typeinfo_addr, arch, i as int, j as int));
                proof {
                    if size == 4 {
                        assert((j + 1) * 4 <= s@.len());
                    } else {
                        assert((j + 1) * 8 <= s@.len());
                    }
                }
                return Some(m.lo + (j + 1) * size);
            }
        }
        i += 1;
    }
    None
}

/// A scanned mapping holds the virtual table.
pub open spec fn table_in(maps: Seq<Mapping>, data: Seq<&[u8]>, typeinfo_addr: usize, arch: Arch, i: int, j: int) -> bool {
    0 <= i < maps.len() && maps[i].scanned() && vtable_at(maps, data[i]@, typeinfo_addr, pointer_size(arch), j)
}

/// Where the virtual table is first.
pub open spec fn table_found(
    maps: Seq<Mapping>,
    data: Seq<&[u8]>,
    typeinfo_addr: usize,
    arch: Arch,
    r: Option<usize>,
) -> bool {
    match r {
        Some(a) => exists|i: int, j: int|
            {
                &&& #[trigger] table_in(maps, data, typeinfo_addr, arch, i, j)
                &&& a == maps[i].lo + (j + 1) * pointer_size(arch)
                &&& forall|h: int, l: int|
                    (0 <= h < i || (h == i && 0 <= l < j)) ==> !#[trigger] table_in(maps, data, typeinfo_addr, arch, h, l)
            },
        None => forall|h: int, l: int| !#[trigger] table_in(maps, data, typeinfo_addr, arch, h, l),
    }
}

/// The mappings that hold a whole pointer.
pub open spec fn holding(addr: int, size: int) -> spec_fn(Mapping) -> bool {
    |m: Mapping| m.lo <= addr && addr + size <= m.hi
}

/// Where a slot of a virtual table is, if it is mapped.
pub fn slot_addr(maps: &Mappings, vtable_addr: usize, slot: usize, arch: Arch) -> (r: Option<usize>)
    requires
        slot < MAX_VTABLE_SLOTS,
    ensures
        ({
            let at = vtable_addr + slot * pointer_size(arch);
            match r {
                Some(a) => a == at && list::first_index(maps.maps@, holding(at, pointer_size(arch))) is Some,
                None => list::first_index(maps.maps@, holding(at, pointer_size(arch))) is None,
            }
        }),
{
    let size: usize = size_of(arch);
    let ghost p = holding(vtable_addr + slot * pointer_size(arch), pointer_size(arch));
    proof {
        assert(slot * size <= 128) by (nonlinear_arith)
            requires
                slot < 16,
                size <= 8,
        ;
    }
    if vtable_addr > usize::MAX - slot * size {
        proof {
            list::lemma_first_index_none(maps.maps@, p);
        }
        return None;
    }
    let at: usize = vtable_addr + slot * size;
    let mut i: usize = 0;
    while i < maps.maps.len()
        invariant
            i <= maps.maps@.len(),
            size == pointer_size(arch),
            at == vtable_addr + slot * pointer_size(arch),
            p == holding(at as int, size as int),
            forall|j: int| 0 <= j < i ==> !p(#[trigger] maps.maps@[j]),
        decreases maps.maps@.len() - i,
    {
        let m = maps.maps[i];
        if at >= m.lo && at <= m.hi && m.hi - at >= size {
            proof {
                list::lemma_first_index_is(maps.maps@, p, i as int);
            }
            return Some(at);
        }
        i += 1;
    }
    proof {
        list::lemma_first_index_none(maps.maps@, p);
    }
    None
}

/// What to do about a function of the virtual table.
#[derive(Clone, Copy, PartialEq, Eq, Structural, Debug)]
pub enum Target {
    /// It is not looked at.
    Skip,
    /// There are no more functions.
    Stop,
    /// Its first bytes are looked at.
    Scan { addr: usize, len: usize, map: Mapping },
}

/// What to do about a function that a slot points to. Thumb code is not patched; a
/// pointer that is not to code ends the table.
pub open spec fn target_of(maps: Seq<Mapping>, fn_ptr: usize, arch: Arch) -> Target {
    let addr = util::untagged(fn_ptr, arch);
    if arch == Arch::Arm && fn_ptr % 2 != 0 {
        Target::Skip
    } else {
        match list::first_index(maps, util::having(addr, true)) {
            None => Target::Stop,
            Some(i) => Target::Scan {
                addr: addr as usize,
                len: (if maps[i].hi - addr < FN_SCAN_LIMIT {
                    maps[i].hi - addr
                } else {
                    FN_SCAN_LIMIT as int
                }) as usize,
                map: maps[i],
            },
        }
    }
}

/// What to do about a function that a slot points to.
pub fn target(maps: &Mappings, fn_ptr: usize, arch: Arch) -> (t: Target)
    ensures
        t == target_of(maps.maps@, fn_ptr, arch),
{
    if arch == Arch::Arm && fn_ptr % 2 != 0 {
        return Target::Skip;
    }
    let addr: usize = util::untag(fn_ptr, arch);
    proof {
        list::lemma_first_index(maps.maps@, util::having(addr as int, true));
    }
    match maps.find_mapping(addr, true) {
        None => Target::Stop,
        Some(m) => {
            let left: usize = m.hi - addr;
            Target::Scan { addr, len: if left < FN_SCAN_LIMIT { left } else { FN_SCAN_LIMIT }, map: *m }
        },
    }
}

/// Where the `-virtual` check is in the first bytes of a function.
pub fn find_check(insts: &[u8], arch: Arch) -> (r: Option<usize>)
    ensures
        r matches Some(k) ==> check_at(insts@, arch, k as int) && forall|j: int|
            0 <= j < k ==> !#[trigger] check_at(insts@, arch, j),
        r is None ==> forall|j: int| !#[trigger] check_at(insts@, arch, j),
{
    let r = match arch {
        Arch::X86_64 => x86_64::find(insts),
        Arch::Aarch64 => aarch64::find(insts),
        Arch::Arm => arm::find(insts),
    };
    proof {
        match arch {
            Arch::X86_64 => {
                assert(forall|j: int| #[trigger] check_at(insts@, arch, j) == x86_64::check_at(insts@, j));
            },
            Arch::Aarch64 => {
                assert(forall|j: int| #[trigger] check_at(insts@, arch, j) == aarch64::check_at(insts@, j));
            },
            Arch::Arm => {
                assert(forall|j: int| #[trigger] check_at(insts@, arch, j) == arm::check_at(insts@, j));
            },
        }
    }
    r
}

/// The `-virtual` check is at an offset.
pub open spec fn check_at(insts: Seq<u8>, arch: Arch, k: int) -> bool {
    match arch {
        Arch::X86_64 => x86_64::check_at(insts, k),
        Arch::Aarch64 => aarch64::check_at(insts, k),
        Arch::Arm => arm::check_at(insts, k),
    }
}

/// What is written over the check at `k`.
pub fn patched(insts: &[u8], k: usize, arch: Arch) -> (v: Vec<u8>)
    requires
        check_at(insts@, arch, k as int),
    ensures
        v@ == (match arch {
            Arch::X86_64 => seq![0xebu8],
            Arch::Aarch64 => seq![(insts@[k as int] - insts@[k as int] % 16 + 0x0e) as u8],
            Arch::Arm => seq![insts@[k + 2] % 16, insts@[k + 1], insts@[k + 2], 0xe1u8],
        }),
{
    assert(insts.len() == insts@.len());
    match arch {
        Arch::X86_64 => x86_64::patch(),
        Arch::Aarch64 => aarch64::patch(insts[k]),
        Arch::Arm => arm::patch(insts[k + 1], insts[k + 2]),
    }
}

/// What is written over a check makes it harmless and nothing else: the jump is taken
/// whatever its condition was, the branch keeps where it goes, and the comparison is of
/// the register that was compared, with itself.
pub proof fn law_patches_keep_the_rest_of_the_instruction(insts: &[u8], k: usize, arch: Arch, v: Vec<u8>)
    requires
        check_at(insts@, arch, k as int),
        call_ensures(patched, (insts, k, arch), v),
    ensures
        arch == Arch::X86_64 ==> v@.len() == 1 && v@[0] == 0xeb,
        arch == Arch::Aarch64 ==> v@.len() == 1 && v@[0] / 16 == insts@[k as int] / 16 && v@[0] % 16 == 14,
        arch == Arch::Arm ==> v@.len() == 4 && v@[3] == 0xe1 && v@[2] == insts@[k + 2] && v@[0] == v@[2] % 16 && v@[1]
            == insts@[k + 1],
{
}

/// A pointer's bytes are least significant first.
pub proof fn law_pointers_are_little_endian(s: Seq<u8>, at: int)
    requires
        0 <= at,
        at + 8 <= s.len(),
    ensures
        pointer_at(s, at, 4) == s[at] + s[at + 1] * 0x100 + s[at + 2] * 0x1_0000 + s[at + 3] * 0x100_0000,
        pointer_at(s, at, 8) == pointer_at(s, at, 4) + pointer_at(s, at + 4, 4) * 0x1_0000_0000,
        pointer_size(Arch::Arm) == 4,
        pointer_size(Arch::X86_64) == 8,
        pointer_size(Arch::Aarch64) == 8,
{
    reveal_with_fuel(pointer_at, 9);
}

} // verus!
