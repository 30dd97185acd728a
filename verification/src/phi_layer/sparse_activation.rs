//! Reshaping of activation masks.

use vstd::prelude::*;

verus! {

/// A mask of `width` positions of which the first `target_active` are set.
pub open spec fn leading_mask(width: nat, target_active: nat) -> Seq<bool> {
    Seq::new(width, |i: int| i < target_active)
}

/// Keeps the first `target_active` positions of the mask active and clears
/// the rest. The width of the mask stays.
pub fn optimize_mask_for_efficiency(mask: &mut Vec<bool>, target_active: usize)
    ensures
        final(mask)@ == leading_mask(old(mask)@.len(), target_active as nat),
{
    let total = mask.len();
    let mut i: usize = 0;
    while i < total
        invariant
            i <= total,
            mask.len() == total,
            forall|k: int| 0 <= k < i ==> mask@[k] == (k < target_active),
        decreases total - i,
    {
        mask[i] = i < target_active;
        i += 1;
    }
    assert(mask@ =~= leading_mask(total as nat, target_active as nat));
}

/// Leaves the mask as it is.
pub fn geodesic_path_optimization(_mask: &mut Vec<bool>)
    ensures
        final(_mask)@ == old(_mask)@,
{
}

} // verus!
