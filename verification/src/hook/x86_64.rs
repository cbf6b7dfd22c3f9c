//! The `-virtual` check in x86-64 code: a short conditional jump over a return.

use vstd::prelude::*;

verus! {

/// `Jcc` short (7x), forward, and then `RET` (c3).
pub open spec fn check_at(insts: Seq<u8>, k: int) -> bool {
    0 <= k && k + 2 < insts.len() && insts[k] / 16 == 7 && insts[k + 1] > 0 && insts[k + 2] == 0xc3
}

/// Where the check is.
pub fn find(insts: &[u8]) -> (r: Option<usize>)
    ensures
        r matches Some(k) ==> check_at(insts@, k as int) && forall|j: int| 0 <= j < k ==> !#[trigger] check_at(insts@, j),
        r is None ==> forall|j: int| !#[trigger] check_at(insts@, j),
{
    let mut k: usize = 0;
    assert(insts.len() == insts@.len());
    while k < insts.len().saturating_sub(2)
        invariant
            insts.len() == insts@.len(),
            k <= insts.len(),
            forall|j: int| 0 <= j < k ==> !#[trigger] check_at(insts@, j),
        decreases insts.len() - k,
    {
        if insts[k] / 16 == 7 && insts[k + 1] > 0 && insts[k + 2] == 0xc3 {
            return Some(k);
        }
        k += 1;
    }
    None
}

/// What is written over the start of the check: the jump is always taken.
pub fn patch() -> (v: Vec<u8>)
    ensures
        v@ == seq![0xebu8],
{
    let mut v: Vec<u8> = Vec::new();
    v.push(0xeb);
    assert(v@ =~= seq![0xebu8]);
    v
}

/// A check that was patched is none any more.
pub proof fn law_patched_check_is_gone(insts: Seq<u8>, k: int)
    requires
        check_at(insts, k),
    ensures
        !check_at(insts.update(k, 0xeb), k),
{
}

} // verus!
