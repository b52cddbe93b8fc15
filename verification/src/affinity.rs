//! CPU affinity masks.

use vstd::prelude::*;

verus! {

/// Bytes of a CPU affinity mask: one bit for each of 1024 logical CPUs.
pub const CPU_SETSIZE: usize = 128;

/// Whether the bit `bit` of `b` is set.
pub open spec fn bit_set(b: u8, bit: u8) -> bool {
    (b >> bit) & 1u8 == 1u8
}

/// Whether a mask names the logical CPU `core`.
pub open spec fn names(mask: Seq<u8>, core: int) -> bool {
    0 <= core < 8 * mask.len() && bit_set(mask[core / 8], (core % 8) as u8)
}

proof fn set_bit(b: u8, bit: u8, other: u8)
    by (bit_vector)
    requires
        bit < 8,
        other < 8,
    ensures
        (((b | (1u8 << bit)) >> other) & 1u8 == 1u8) == (other == bit || (b >> other) & 1u8 == 1u8),
{
}

proof fn no_bit(bit: u8)
    by (bit_vector)
    requires
        bit < 8,
    ensures
        (0u8 >> bit) & 1u8 != 1u8,
{
}

/// Builds the affinity mask of a set of logical CPUs: the union of the given
/// cores. Cores that the mask has no bit for are left out.
pub fn cpu_mask(cores: &[usize]) -> (mask: Vec<u8>)
    ensures
        mask@.len() == CPU_SETSIZE,
        forall|core: int|
            0 <= core < 8 * CPU_SETSIZE ==> (#[trigger] names(mask@, core) <==> exists|i: int|
                0 <= i < cores@.len() && #[trigger] cores@[i] == core),
{
    let mut mask: Vec<u8> = vec![0u8; CPU_SETSIZE];
    let mut i: usize = 0;
    proof {
        assert forall|core: int| 0 <= core < 8 * CPU_SETSIZE implies !(#[trigger] names(
            mask@,
            core,
        )) by {
            no_bit((core % 8) as u8);
        }
    }
    while i < cores.len()
        invariant
            i <= cores@.len(),
            mask@.len() == CPU_SETSIZE,
            forall|core: int|
                0 <= core < 8 * CPU_SETSIZE ==> (#[trigger] names(mask@, core) <==> exists|j: int|
                    0 <= j < i && #[trigger] cores@[j] == core),
        decreases cores@.len() - i,
    {
        let ghost before = mask@;
        let core: usize = cores[i];
        let byte: usize = core / 8;
        let bit: u8 = (core % 8) as u8;
        if byte < CPU_SETSIZE {
            let old_byte: u8 = mask[byte];
            mask[byte] = old_byte | (1u8 << bit);
            proof {
                assert forall|k: int| 0 <= k < 8 * CPU_SETSIZE implies (#[trigger] names(mask@, k)
                    <==> names(before, k) || k == core) by {
                    set_bit(old_byte, bit, (k % 8) as u8);
                }
            }
        }
        proof {
            assert forall|k: int| 0 <= k < 8 * CPU_SETSIZE implies (#[trigger] names(mask@, k)
                <==> exists|j: int| 0 <= j < i + 1 && #[trigger] cores@[j] == k) by {
                assert(names(before, k) <==> exists|j: int| 0 <= j < i && #[trigger] cores@[j] == k);
                assert(cores@[i as int] == core);
            }
        }
        i = i + 1;
    }
    mask
}

} // verus!
