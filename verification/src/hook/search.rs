//! The way from the type's name to the check that is patched.

use crate::hook;
use crate::hook::util::{Arch, Mapping, Mappings};
use crate::hook::{Target, FN_SCAN_LIMIT, MAX_VTABLE_SLOTS};
use crate::util::list;
use vstd::prelude::*;

verus! {

/// What is not in the process's memory.
#[derive(Clone, Copy, PartialEq, Eq, Structural, Debug)]
pub enum Missing {
    /// The type's name: not a process of interest.
    Name,
    Typeinfo,
    Vtable,
}

/// The address of the virtual table of the type with that name; `own` is in the mapping
/// that holds our own copy of the name.
pub fn locate(maps: &Mappings, data: &Vec<&[u8]>, name: &[u8], own: usize, arch: Arch) -> (r: Result<usize, Missing>)
    requires
        hook::covers(maps.maps@, data@),
    ensures
        match r {
            Err(Missing::Name) => hook::name_found(maps.maps@, data@, name@, own, None),
            Err(Missing::Typeinfo) => exists|n: usize|
                #[trigger] hook::name_found(maps.maps@, data@, name@, own, Some(n)) && hook::info_found(
                    maps.maps@,
                    data@,
                    n,
                    arch,
                    None,
                ),
            Err(Missing::Vtable) => exists|n: usize, t: usize|
                #[trigger] hook::name_found(maps.maps@, data@, name@, own, Some(n)) && #[trigger] hook::info_found(
                    maps.maps@,
                    data@,
                    n,
                    arch,
                    Some(t),
                ) && hook::table_found(maps.maps@, data@, t, arch, None),
            Ok(v) => exists|n: usize, t: usize|
                #[trigger] hook::name_found(maps.maps@, data@, name@, own, Some(n)) && #[trigger] hook::info_found(
                    maps.maps@,
                    data@,
                    n,
                    arch,
                    Some(t),
                ) && hook::table_found(maps.maps@, data@, t, arch, Some(v)),
        },
{
    let n: usize = match hook::find_bytes(maps, data, name, own) {
        Some(n) => n,
        None => return Err(Missing::Name),
    };
    let t: usize = match hook::find_typeinfo(maps, data, n, arch) {
        Some(t) => t,
        None => return Err(Missing::Typeinfo),
    };
    match hook::find_vtable(maps, data, t, arch) {
        Some(v) => Ok(v),
        None => Err(Missing::Vtable),
    }
}

/// What comes next in the search of a virtual table for the function with the check.
#[derive(Clone, Copy, PartialEq, Eq, Structural, Debug)]
pub enum Step {
    /// Read the slot's pointer.
    Read { slot: usize, addr: usize },
    /// Read the first bytes of the slot's function.
    Scan { slot: usize, addr: usize, len: usize, map: Mapping },
    /// Patch the check, which is at `at` in the bytes that were read.
    Patch { slot: usize, at: usize },
    /// The check is in no slot.
    NotFound,
}

/// What comes first for a slot: the table ends where its memory does, and after so many
/// slots.
pub open spec fn slot_step(maps: Seq<Mapping>, vtable: usize, slot: int, arch: Arch) -> Step {
    let size = hook::pointer_size(arch);
    if slot < MAX_VTABLE_SLOTS && list::first_index(maps, hook::holding(vtable + slot * size, size)) is Some {
        Step::Read { slot: slot as usize, addr: (vtable + slot * size) as usize }
    } else {
        Step::NotFound
    }
}

/// What comes once a slot's pointer is read.
pub open spec fn pointer_step(maps: Seq<Mapping>, vtable: usize, slot: int, fn_ptr: usize, arch: Arch) -> Step {
    match hook::target_of(maps, fn_ptr, arch) {
        Target::Skip => slot_step(maps, vtable, slot + 1, arch),
        Target::Stop => Step::NotFound,
        Target::Scan { addr, len, map } => Step::Scan { slot: slot as usize, addr, len, map },
    }
}

/// The first place where the check is.
pub open spec fn is_first_check(insts: Seq<u8>, arch: Arch, k: int) -> bool {
    hook::check_at(insts, arch, k) && forall|j: int| 0 <= j < k ==> !#[trigger] hook::check_at(insts, arch, j)
}

/// The check is somewhere.
pub open spec fn holds_check(insts: Seq<u8>, arch: Arch) -> bool {
    exists|k: int| is_first_check(insts, arch, k)
}

/// What comes once the first bytes of a slot's function are read.
pub open spec fn code_step(maps: Seq<Mapping>, vtable: usize, slot: int, insts: Seq<u8>, arch: Arch) -> Step {
    if holds_check(insts, arch) {
        Step::Patch { slot: slot as usize, at: (choose|k: int| is_first_check(insts, arch, k)) as usize }
    } else {
        slot_step(maps, vtable, slot + 1, arch)
    }
}

fn at_slot(maps: &Mappings, vtable: usize, slot: usize, arch: Arch) -> (s: Step)
    ensures
        s == slot_step(maps.maps@, vtable, slot as int, arch),
{
    if slot >= MAX_VTABLE_SLOTS {
        return Step::NotFound;
    }
    match hook::slot_addr(maps, vtable, slot, arch) {
        Some(addr) => Step::Read { slot, addr },
        None => Step::NotFound,
    }
}

/// Begins the search.
pub fn begin(maps: &Mappings, vtable: usize, arch: Arch) -> (s: Step)
    ensures
        s == slot_step(maps.maps@, vtable, 0, arch),
{
    at_slot(maps, vtable, 0, arch)
}

/// Goes on with the pointer that a slot holds.
pub fn pointer_read(maps: &Mappings, vtable: usize, slot: usize, fn_ptr: usize, arch: Arch) -> (s: Step)
    requires
        slot < MAX_VTABLE_SLOTS,
    ensures
        s == pointer_step(maps.maps@, vtable, slot as int, fn_ptr, arch),
{
    match hook::target(maps, fn_ptr, arch) {
        Target::Skip => at_slot(maps, vtable, slot + 1, arch),
        Target::Stop => Step::NotFound,
        Target::Scan { addr, len, map } => Step::Scan { slot, addr, len, map },
    }
}

/// Goes on with the first bytes of a slot's function.
pub fn code_read(maps: &Mappings, vtable: usize, slot: usize, insts: &[u8], arch: Arch) -> (s: Step)
    requires
        slot < MAX_VTABLE_SLOTS,
    ensures
        s == code_step(maps.maps@, vtable, slot as int, insts@, arch),
        s matches Step::Patch { at, .. } ==> is_first_check(insts@, arch, at as int),
{
    match hook::find_check(insts, arch) {
        Some(at) => {
            proof {
                assert(is_first_check(insts@, arch, at as int));
                lemma_one_first_check(insts@, arch, at as int, choose|k: int| is_first_check(insts@, arch, k));
            }
            Step::Patch { slot, at }
        },
        None => at_slot(maps, vtable, slot + 1, arch),
    }
}

/// There is one first place.
proof fn lemma_one_first_check(insts: Seq<u8>, arch: Arch, a: int, b: int)
    requires
        is_first_check(insts, arch, a),
        is_first_check(insts, arch, b),
    ensures
        a == b,
{
    assert(0 <= a && 0 <= b);
    assert(hook::check_at(insts, arch, a) && hook::check_at(insts, arch, b));
}

/// How the search ends from a slot on, where the slots hold `ptrs` and the functions
/// start with `code`.
pub open spec fn search_from(
    maps: Seq<Mapping>,
    vtable: usize,
    slot: int,
    ptrs: spec_fn(int) -> usize,
    code: spec_fn(int) -> Seq<u8>,
    arch: Arch,
) -> Step
    decreases MAX_VTABLE_SLOTS - slot,
{
    if slot_step(maps, vtable, slot, arch) is NotFound || slot >= MAX_VTABLE_SLOTS {
        Step::NotFound
    } else {
        match hook::target_of(maps, ptrs(slot), arch) {
            Target::Stop => Step::NotFound,
            Target::Skip => search_from(maps, vtable, slot + 1, ptrs, code, arch),
            Target::Scan { .. } => match code_step(maps, vtable, slot, code(slot), arch) {
                Step::Patch { slot: s, at } => Step::Patch { slot: s, at },
                _ => search_from(maps, vtable, slot + 1, ptrs, code, arch),
            },
        }
    }
}

/// A slot's function is looked at and has the check.
pub open spec fn has_check(
    maps: Seq<Mapping>,
    ptrs: spec_fn(int) -> usize,
    code: spec_fn(int) -> Seq<u8>,
    arch: Arch,
    slot: int,
) -> bool {
    hook::target_of(maps, ptrs(slot), arch) is Scan && holds_check(code(slot), arch)
}

/// The table ends before or at a slot.
pub open spec fn ends_at(maps: Seq<Mapping>, vtable: usize, ptrs: spec_fn(int) -> usize, arch: Arch, slot: int) -> bool {
    slot_step(maps, vtable, slot, arch) is NotFound || hook::target_of(maps, ptrs(slot), arch) is Stop
}

/// What is patched is the first check in the table: the search ends at a slot only if
/// its function has the check and none before it has, and finds nothing only if no
/// function in the table has it.
pub proof fn law_first_check_is_patched(
    maps: Seq<Mapping>,
    vtable: usize,
    slot: int,
    ptrs: spec_fn(int) -> usize,
    code: spec_fn(int) -> Seq<u8>,
    arch: Arch,
)
    requires
        0 <= slot,
        forall|i: int| (#[trigger] code(i)).len() <= FN_SCAN_LIMIT,
    ensures
        match search_from(maps, vtable, slot, ptrs, code, arch) {
            Step::Patch { slot: s, at } => {
                &&& slot <= s < MAX_VTABLE_SLOTS
                &&& has_check(maps, ptrs, code, arch, s as int)
                &&& is_first_check(code(s as int), arch, at as int)
                &&& forall|i: int|
                    slot <= i <= s ==> !#[trigger] ends_at(maps, vtable, ptrs, arch, i)
                &&& forall|i: int| slot <= i < s ==> !#[trigger] has_check(maps, ptrs, code, arch, i)
            },
            Step::NotFound => forall|i: int|
                slot <= i && #[trigger] has_check(maps, ptrs, code, arch, i) ==> exists|e: int|
                    slot <= e <= i && #[trigger] ends_at(maps, vtable, ptrs, arch, e),
            _ => false,
        },
    decreases MAX_VTABLE_SLOTS - slot,
{
    if slot < MAX_VTABLE_SLOTS && !ends_at(maps, vtable, ptrs, arch, slot) {
        if has_check(maps, ptrs, code, arch, slot) {
            let insts = code(slot);
            let k = choose|k: int| is_first_check(insts, arch, k);
            assert(hook::check_at(insts, arch, k));
        } else {
            law_first_check_is_patched(maps, vtable, slot + 1, ptrs, code, arch);
        }
    } else {
        assert(ends_at(maps, vtable, ptrs, arch, slot));
    }
}

} // verus!
