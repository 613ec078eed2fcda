use vstd::prelude::*;

use crate::emulator::{jump_target, jump_target_fits};

verus! {

/// An instruction word, with the label it carries when some jump or call
/// targets it.
#[derive(Debug, Clone, Copy)]
pub struct CodeBlob {
    pub bytes: [u8; 4],
    pub label: Option<u8>,
}

impl CodeBlob {
    /// An unlabelled blob of an instruction word.
    pub fn from(code: &[u8; 4]) -> (blob: Self)
        ensures
            blob.bytes == *code,
            blob.label is None,
    {
        CodeBlob { bytes: *code, label: None }
    }

    /// Labels the blob with `id`.
    pub fn set_label(&mut self, id: u8)
        ensures
            final(self).label == Some(id),
            final(self).bytes == old(self).bytes,
    {
        self.label = Some(id);
    }
}

/// A conditional jump or a call: an instruction with a target address.
pub open spec fn is_jump(w: [u8; 4]) -> bool {
    w@[0] == 12 || w@[0] == 13
}

/// Some jump or call of the program targets instruction `k`.
pub open spec fn is_jump_target(code: Seq<[u8; 4]>, k: int) -> bool {
    exists|j: int| 0 <= j < code.len() && is_jump(#[trigger] code[j]) && jump_target(code[j]) == k
}

/// Every jump or call of the program has a target that fits in a byte and
/// addresses an instruction of the program.
pub open spec fn targets_in_range(code: Seq<[u8; 4]>) -> bool {
    forall|j: int|
        0 <= j < code.len() && is_jump(#[trigger] code[j]) ==> jump_target_fits(code[j])
            && jump_target(code[j]) < code.len()
}

/// Whether every jump and call targets an instruction of the program.
pub fn jump_targets_in_range(code: &Vec<[u8; 4]>) -> (ok: bool)
    ensures
        ok == targets_in_range(code@),
{
    for j in 0..code.len()
        invariant
            forall|i: int|
                0 <= i < j && is_jump(#[trigger] code@[i]) ==> jump_target_fits(code@[i])
                    && jump_target(code@[i]) < code@.len(),
    {
        let w = code[j];
        if w[0] == 12 || w[0] == 13 {
            if w[2] as u16 + (w[3] << 4) as u16 > 255 {
                return false;
            }
            let target = w[2] + (w[3] << 4);
            if target as usize >= code.len() {
                return false;
            }
        }
    }
    true
}

/// The blobs of a program: instruction `k` becomes a blob labelled `k` when
/// some jump or call targets it, and an unlabelled blob otherwise.
pub fn collect_blobs(bytecode: &Vec<[u8; 4]>) -> (blobs: Vec<CodeBlob>)
    requires
        targets_in_range(bytecode@),
    ensures
        blobs@.len() == bytecode@.len(),
        forall|k: int|
            0 <= k < blobs@.len() ==> (#[trigger] blobs@[k]).bytes == bytecode@[k] && blobs@[k].label
                == if is_jump_target(bytecode@, k) {
                Some(k as u8)
            } else {
                None
            },
{
    let mut blobs: Vec<CodeBlob> = Vec::new();
    for k in 0..bytecode.len()
        invariant
            blobs@.len() == k,
            forall|i: int| 0 <= i < k ==> (#[trigger] blobs@[i]).bytes == bytecode@[i] && blobs@[i].label is None,
    {
        blobs.push(CodeBlob::from(&bytecode[k]));
    }
    for j in 0..bytecode.len()
        invariant
            targets_in_range(bytecode@),
            blobs@.len() == bytecode@.len(),
            forall|k: int|
                0 <= k < blobs@.len() ==> (#[trigger] blobs@[k]).bytes == bytecode@[k]
                    && blobs@[k].label == if exists|i: int|
                    0 <= i < j && is_jump(#[trigger] bytecode@[i]) && jump_target(bytecode@[i]) == k {
                    Some(k as u8)
                } else {
                    None
                },
    {
        let code = bytecode[j];
        if code[0] == 12 || code[0] == 13 {
            assert(is_jump(bytecode@[j as int]));
            let lower = code[2];
            let upper = code[3];
            let label_id = lower + (upper << 4);
            let mut blob = blobs[label_id as usize];
            blob.set_label(label_id);
            blobs.set(label_id as usize, blob);
            assert forall|k: int| 0 <= k < blobs@.len() implies (#[trigger] blobs@[k]).bytes == bytecode@[k]
                && blobs@[k].label == if exists|i: int|
                0 <= i < j + 1 && is_jump(#[trigger] bytecode@[i]) && jump_target(bytecode@[i]) == k {
                Some(k as u8)
            } else {
                None
            } by {
                if k == label_id {
                    assert(jump_target(bytecode@[j as int]) == k);
                } else {
                    if exists|i: int|
                        0 <= i < j + 1 && is_jump(#[trigger] bytecode@[i]) && jump_target(bytecode@[i]) == k {
                        let i = choose|i: int|
                            0 <= i < j + 1 && is_jump(#[trigger] bytecode@[i]) && jump_target(bytecode@[i]) == k;
                        assert(i != j);
                    }
                }
            }
        } else {
            assert(!is_jump(bytecode@[j as int]));
            assert forall|k: int| 0 <= k < blobs@.len() implies (#[trigger] blobs@[k]).label == if exists|i: int|
                0 <= i < j + 1 && is_jump(#[trigger] bytecode@[i]) && jump_target(bytecode@[i]) == k {
                Some(k as u8)
            } else {
                None
            } by {
                if exists|i: int|
                    0 <= i < j + 1 && is_jump(#[trigger] bytecode@[i]) && jump_target(bytecode@[i]) == k {
                    let i = choose|i: int|
                        0 <= i < j + 1 && is_jump(#[trigger] bytecode@[i]) && jump_target(bytecode@[i]) == k;
                    assert(i != j);
                }
            }
        }
    }
    blobs
}

} // verus!
