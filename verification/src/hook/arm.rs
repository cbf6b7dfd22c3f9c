//! The `-virtual` check in ARM code: a comparison with 2, and a zero return if it
//! differs.

use vstd::prelude::*;

verus! {

/// `CMP Rn, #2`, any instruction, `MOVNE R0, #0`, `BX LR`.
pub open spec fn check_at(insts: Seq<u8>, k: int) -> bool {
    &&& 0 <= k && k + 16 <= insts.len() && k % 4 == 0
    &&& insts[k] == 0x02 && insts[k + 1] == 0x00 && insts[k + 2] / 16 == 5 && insts[k + 3] == 0xe3
    &&& insts[k + 8] == 0x00 && insts[k + 9] == 0x00 && insts[k + 10] == 0xa0 && insts[k + 11] == 0x13
    &&& insts[k + 12] == 0x1e && insts[k + 13] == 0xff && insts[k + 14] == 0x2f && insts[k + 15] == 0xe1
}

/// Where the check is.
pub fn find(insts: &[u8]) -> (r: Option<usize>)
    ensures
        r matches Some(k) ==> check_at(insts@, k as int) && forall|j: int| 0 <= j < k ==> !#[trigger] check_at(insts@, j),
        r is None ==> forall|j: int| !#[trigger] check_at(insts@, j),
{
    assert(insts.len() == insts@.len());
    let mut k: usize = 0;
    while k < insts.len() && insts.len() - k >= 16
        invariant
            insts.len() == insts@.len(),
            k <= insts.len(),
            k % 4 == 0,
            forall|j: int| 0 <= j < k ==> !#[trigger] check_at(insts@, j),
        decreases insts.len() - k,
    {
        if insts[k] == 0x02 && insts[k + 1] == 0x00 && insts[k + 2] / 16 == 5 && insts[k + 3] == 0xe3 && insts[k + 8]
            == 0x00 && insts[k + 9] == 0x00 && insts[k + 10] == 0xa0 && insts[k + 11] == 0x13 && insts[k + 12] == 0x1e
            && insts[k + 13] == 0xff && insts[k + 14] == 0x2f && insts[k + 15] == 0xe1 {
            return Some(k);
        }
        assert forall|j: int| 0 <= j < k + 4 implies !#[trigger] check_at(insts@, j) by {
            if j > k {
                assert(j % 4 != 0);
            }
        }
        k += 4;
    }
    None
}

/// What is written over the start of the check: the register is compared with itself.
pub fn patch(second: u8, third: u8) -> (v: Vec<u8>)
    ensures
        v@ == seq![third % 16, second, third, 0xe1u8],
{
    let mut v: Vec<u8> = Vec::new();
    v.push(third % 16);
    v.push(second);
    v.push(third);
    v.push(0xe1);
    assert(v@ =~= seq![third % 16, second, third, 0xe1u8]);
    v
}

/// A check that was patched is none any more.
pub proof fn law_patched_check_is_gone(insts: Seq<u8>, k: int)
    requires
        check_at(insts, k),
    ensures
        !check_at(insts.update(k, insts[k + 2] % 16).update(k + 3, 0xe1), k),
{
}

} // verus!
