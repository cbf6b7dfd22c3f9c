//! The `-virtual` check in AArch64 code: a conditional branch over a zero return.

use vstd::prelude::*;

verus! {

/// `B.cond` (not always), `MOVZ W0, #0`, `RET`.
pub open spec fn check_at(insts: Seq<u8>, k: int) -> bool {
    &&& 0 <= k && k + 12 <= insts.len() && k % 4 == 0
    &&& insts[k + 3] == 0x54
    &&& insts[k] % 16 != 0x0e
    &&& insts[k + 4] == 0x00 && insts[k + 5] == 0x00 && insts[k + 6] == 0x80 && insts[k + 7] == 0x52
    &&& insts[k + 8] == 0xc0 && insts[k + 9] == 0x03 && insts[k + 10] == 0x5f && insts[k + 11] == 0xd6
}

/// Where the check is.
pub fn find(insts: &[u8]) -> (r: Option<usize>)
    ensures
        r matches Some(k) ==> check_at(insts@, k as int) && forall|j: int| 0 <= j < k ==> !#[trigger] check_at(insts@, j),
        r is None ==> forall|j: int| !#[trigger] check_at(insts@, j),
{
    assert(insts.len() == insts@.len());
    let mut k: usize = 0;
    while k < insts.len() && insts.len() - k >= 12
        invariant
            insts.len() == insts@.len(),
            k <= insts.len(),
            k % 4 == 0,
            forall|j: int| 0 <= j < k ==> !#[trigger] check_at(insts@, j),
        decreases insts.len() - k,
    {
        if insts[k + 3] == 0x54 && insts[k] % 16 != 0x0e && insts[k + 4] == 0x00 && insts[k + 5] == 0x00 && insts[k + 6]
            == 0x80 && insts[k + 7] == 0x52 && insts[k + 8] == 0xc0 && insts[k + 9] == 0x03 && insts[k + 10] == 0x5f
            && insts[k + 11] == 0xd6 {
            return Some(k);
        }
        assert forall|j: int| 0 <= j < k + 4 implies !#[trigger] check_at(insts@, j) by {
            if j > k {
                assert(j % 4 != 0);
            }
        }
        k += 4;
    }
    None
}

/// What is written over the start of the check: the branch is always taken.
pub fn patch(first: u8) -> (v: Vec<u8>)
    ensures
        v@ == seq![(first - first % 16 + 0x0e) as u8],
{
    let mut v: Vec<u8> = Vec::new();
    v.push(first - first % 16 + 0x0e);
    assert(v@ =~= seq![(first - first % 16 + 0x0e) as u8]);
    v
}

/// A check that was patched is none any more.
pub proof fn law_patched_check_is_gone(insts: Seq<u8>, k: int)
    requires
        check_at(insts, k),
    ensures
        !check_at(insts.update(k, (insts[k] - insts[k] % 16 + 0x0e) as u8), k),
{
    let b = (insts[k] - insts[k] % 16 + 0x0e) as u8;
    assert(b % 16 == 0x0e);
}

} // verus!
