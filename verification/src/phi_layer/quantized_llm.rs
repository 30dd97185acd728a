//! The sparse activation engine of the generation layer, and the decisions
//! of its sampling loop.

use crate::text::{contains_phrase, str_contains};
use vstd::prelude::*;

verus! {

/// The active positions of `mask` below `bound`, in increasing order.
pub open spec fn active_below(mask: Seq<bool>, bound: nat) -> Seq<usize>
    decreases bound,
{
    if bound == 0 {
        Seq::empty()
    } else {
        let rest = active_below(mask, (bound - 1) as nat);
        if mask[bound - 1] {
            rest.push((bound - 1) as usize)
        } else {
            rest
        }
    }
}

/// The active positions of `mask`, in increasing order.
pub open spec fn active_positions(mask: Seq<bool>) -> Seq<usize> {
    active_below(mask, mask.len())
}

/// The active positions below a bound are exactly the set positions below
/// it, each listed once, in increasing order.
pub proof fn lemma_active_below(mask: Seq<bool>, bound: nat)
    requires
        bound <= mask.len(),
        bound <= usize::MAX,
    ensures
        active_below(mask, bound).len() <= bound,
        forall|k: int|
            0 <= k < active_below(mask, bound).len() ==> (#[trigger] active_below(mask, bound)[k])
                < bound && mask[active_below(mask, bound)[k] as int],
        forall|j: int, k: int|
            0 <= j < k < active_below(mask, bound).len() ==> (#[trigger] active_below(
                mask,
                bound,
            )[j]) < (#[trigger] active_below(mask, bound)[k]),
        forall|i: int|
            0 <= i < bound && mask[i] ==> active_below(mask, bound).contains(i as usize),
    decreases bound,
{
    if bound > 0 {
        let rest = active_below(mask, (bound - 1) as nat);
        lemma_active_below(mask, (bound - 1) as nat);
        let all = active_below(mask, bound);
        assert forall|i: int| 0 <= i < bound && mask[i] implies all.contains(i as usize) by {
            if i < bound - 1 {
                assert(rest.contains(i as usize));
                let k = choose|k: int| 0 <= k < rest.len() && rest[k] == i as usize;
                assert(all[k] == i as usize);
            } else {
                assert(all[rest.len() as int] == i as usize);
            }
        }
    }
}

/// Holds the activation mask in force.
pub struct SparseActivationEngine {
    current_mask: Vec<bool>,
}

impl View for SparseActivationEngine {
    type V = Seq<bool>;

    /// The mask in force.
    closed spec fn view(&self) -> Seq<bool> {
        self.current_mask@
    }
}

impl SparseActivationEngine {
    /// An engine with an empty mask.
    pub fn new() -> (engine: Self)
        ensures
            engine@ == Seq::<bool>::empty(),
    {
        Self { current_mask: Vec::new() }
    }

    /// Puts `mask` in force.
    pub fn apply_mask(&mut self, mask: &[bool])
        ensures
            final(self)@ == mask@,
    {
        let mut copy: Vec<bool> = Vec::with_capacity(mask.len());
        let mut i: usize = 0;
        while i < mask.len()
            invariant
                i <= mask.len(),
                copy@ == mask@.subrange(0, i as int),
            decreases mask.len() - i,
        {
            copy.push(mask[i]);
            i += 1;
            assert(copy@ =~= mask@.subrange(0, i as int));
        }
        assert(copy@ =~= mask@);
        self.current_mask = copy;
    }

    /// The width of the mask in force.
    pub fn mask_width(&self) -> (width: usize)
        ensures
            width == self@.len(),
    {
        self.current_mask.len()
    }

    /// The active positions of the mask in force, in increasing order.
    pub fn get_active_neurons(&self) -> (neurons: Vec<usize>)
        ensures
            neurons@ == active_positions(self@),
    {
        let mut neurons: Vec<usize> = Vec::new();
        let mut i: usize = 0;
        while i < self.current_mask.len()
            invariant
                i <= self.current_mask.len(),
                neurons@ == active_below(self.current_mask@, i as nat),
            decreases self.current_mask.len() - i,
        {
            if self.current_mask[i] {
                neurons.push(i);
            }
            i += 1;
        }
        neurons
    }

    /// The number of active positions of the mask in force.
    pub fn active_count(&self) -> (count: usize)
        ensures
            count == active_positions(self@).len(),
    {
        let mut count: usize = 0;
        let mut i: usize = 0;
        while i < self.current_mask.len()
            invariant
                i <= self.current_mask.len(),
                count == active_below(self.current_mask@, i as nat).len(),
                count <= i,
            decreases self.current_mask.len() - i,
        {
            if self.current_mask[i] {
                count += 1;
            }
            i += 1;
        }
        count
    }
}

/// The most tokens that are sampled for one prompt.
pub const MAX_NEW_TOKENS: usize = 100;

/// Where the model's input starts among `token_count` tokens at `step` of
/// the sampling loop: the whole sequence at the first step, the last token
/// alone after that.
pub open spec fn input_start(step: nat, token_count: nat) -> nat {
    if step == 0 || token_count == 0 {
        0
    } else {
        (token_count - 1) as nat
    }
}

/// Where the model's input starts among `token_count` tokens at `step` of
/// the sampling loop.
pub fn context_start(step: usize, token_count: usize) -> (start: usize)
    ensures
        start == input_start(step as nat, token_count as nat),
        start <= token_count,
{
    let context_size = if step > 0 {
        1
    } else {
        token_count
    };
    if token_count >= context_size {
        token_count - context_size
    } else {
        0
    }
}

/// Whether a decoded piece holds an end-of-text marker.
pub open spec fn holds_end_marker(decoded: Seq<char>) -> bool {
    contains_phrase(decoded, "<|endoftext|>"@) || contains_phrase(decoded, "</s>"@)
}

/// Whether sampling stops after a decoded piece: it holds an end-of-text
/// marker.
pub fn ends_generation(decoded: &str) -> (stop: bool)
    ensures
        stop == holds_end_marker(decoded@),
{
    str_contains(decoded, "<|endoftext|>") || str_contains(decoded, "</s>")
}

} // verus!
