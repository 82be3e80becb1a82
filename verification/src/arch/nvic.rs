//! The interrupt controller's enable and pending state, one bit per line,
//! packed exactly as the hardware's register banks pack them.
//!
//! The memory-mapped reads and writes themselves live outside this crate;
//! the kernel's interrupt decisions are verified against this model, and the
//! surrounding runtime mirrors it into the real registers.

use vstd::prelude::*;

verus! {

/// Mask words per register bank; 16 words cover 512 interrupt lines.
pub const NVIC_WORDS: usize = 16;

/// One more than the highest interrupt line the controller addresses.
pub const NVIC_LINES: u32 = 512;

/// Whether line `id` is set in the packed mask `words`.
pub open spec fn bit_set(words: Seq<u32>, id: u32) -> bool {
    (words[(id / 32) as int] >> (id % 32)) & 1u32 == 1u32
}

pub struct Nvic {
    enabled: Vec<u32>,
    pending: Vec<u32>,
}

impl Nvic {
    pub closed spec fn well_formed(self) -> bool {
        self.enabled@.len() == NVIC_WORDS && self.pending@.len() == NVIC_WORDS
    }

    /// Whether line `id` is enabled.
    pub closed spec fn spec_enabled(self, id: u32) -> bool {
        bit_set(self.enabled@, id)
    }

    /// Whether line `id` is pending.
    pub closed spec fn spec_pending(self, id: u32) -> bool {
        bit_set(self.pending@, id)
    }

    /// A controller with every line disabled and nothing pending.
    pub fn new() -> (r: Nvic)
        ensures
            r.well_formed(),
            forall|id: u32| id < NVIC_LINES ==> !r.spec_enabled(id),
            forall|id: u32| id < NVIC_LINES ==> !r.spec_pending(id),
    {
        let mut enabled: Vec<u32> = Vec::new();
        let mut pending: Vec<u32> = Vec::new();
        let mut i: usize = 0;
        while i < NVIC_WORDS
            invariant
                i <= NVIC_WORDS,
                enabled@.len() == i,
                pending@.len() == i,
                forall|j: int| 0 <= j < i ==> enabled@[j] == 0u32,
                forall|j: int| 0 <= j < i ==> pending@[j] == 0u32,
            decreases NVIC_WORDS - i,
        {
            enabled.push(0);
            pending.push(0);
            i = i + 1;
        }
        let r = Nvic { enabled, pending };
        proof {
            assert forall|id: u32| id < NVIC_LINES implies !r.spec_enabled(id) && !r.spec_pending(
                id,
            ) by {
                assert(id / 32 < 16) by (nonlinear_arith)
                    requires
                        id < 512,
                ;
                assert((0u32 >> (id % 32)) & 1u32 == 0u32) by (bit_vector);
            }
        }
        r
    }

    /// Sets one line's bit in a mask bank, leaving every other line alone.
    fn set_bit(words: &mut Vec<u32>, id: u32)
        requires
            old(words)@.len() == NVIC_WORDS,
            id < NVIC_LINES,
        ensures
            final(words)@.len() == NVIC_WORDS,
            bit_set(final(words)@, id),
            forall|j: u32| j < NVIC_LINES && j != id ==> bit_set(final(words)@, j) == bit_set(
                old(words)@,
                j,
            ),
    {
        proof {
            assert(id / 32 < 16) by (nonlinear_arith)
                requires
                    id < 512,
            ;
        }
        let idx = (id / 32) as usize;
        let w = words[idx];
        words[idx] = w | (1u32 << (id % 32));
        proof {
            Self::lemma_bit_update(old(words)@, words@, id, w | (1u32 << (id % 32)));
            let a = id % 32;
            assert(((w | (1u32 << a)) >> a) & 1u32 == 1u32) by (bit_vector)
                requires
                    a < 32,
            ;
            assert forall|b: u32| b < 32 && b != a implies ((w | (1u32 << a)) >> b) & 1u32 == (w
                >> b) & 1u32 by {
                assert(((w | (1u32 << a)) >> b) & 1u32 == (w >> b) & 1u32) by (bit_vector)
                    requires
                        a < 32 && b < 32 && a != b,
                ;
            }
        }
    }

    /// Clears one line's bit in a mask bank, leaving every other line alone.
    fn clear_bit(words: &mut Vec<u32>, id: u32)
        requires
            old(words)@.len() == NVIC_WORDS,
            id < NVIC_LINES,
        ensures
            final(words)@.len() == NVIC_WORDS,
            !bit_set(final(words)@, id),
            forall|j: u32| j < NVIC_LINES && j != id ==> bit_set(final(words)@, j) == bit_set(
                old(words)@,
                j,
            ),
    {
        proof {
            assert(id / 32 < 16) by (nonlinear_arith)
                requires
                    id < 512,
            ;
        }
        let idx = (id / 32) as usize;
        let w = words[idx];
        words[idx] = w & !(1u32 << (id % 32));
        proof {
            Self::lemma_bit_update(old(words)@, words@, id, w & !(1u32 << (id % 32)));
            let a = id % 32;
            assert(((w & !(1u32 << a)) >> a) & 1u32 == 0u32) by (bit_vector)
                requires
                    a < 32,
            ;
            assert forall|b: u32| b < 32 && b != a implies ((w & !(1u32 << a)) >> b) & 1u32 == (w
                >> b) & 1u32 by {
                assert(((w & !(1u32 << a)) >> b) & 1u32 == (w >> b) & 1u32) by (bit_vector)
                    requires
                        a < 32 && b < 32 && a != b,
                ;
            }
        }
    }

    /// Updating the word that holds line `id` leaves every line of every
    /// other word exactly as it was, and lines of the same word keep their
    /// position; two distinct lines of one word have distinct positions.
    proof fn lemma_bit_update(before: Seq<u32>, after: Seq<u32>, id: u32, neww: u32)
        requires
            before.len() == NVIC_WORDS,
            id < NVIC_LINES,
            after == before.update((id / 32) as int, neww),
        ensures
            forall|j: u32|
                j < NVIC_LINES && j / 32 != id / 32 ==> bit_set(after, j) == bit_set(before, j),
            forall|j: u32|
                j < NVIC_LINES && j / 32 == id / 32 && j != id ==> #[trigger] (j % 32) != id % 32,
    {
        assert forall|j: u32|
            j < NVIC_LINES && j / 32 == id / 32 && j != id implies #[trigger] (j % 32) != id
            % 32 by {
            vstd::arithmetic::div_mod::lemma_fundamental_div_mod(j as int, 32);
            vstd::arithmetic::div_mod::lemma_fundamental_div_mod(id as int, 32);
        }
    }

    /// Enables an interrupt line at the controller.
    pub fn enable(&mut self, id: u32)
        requires
            old(self).well_formed(),
            id < NVIC_LINES,
        ensures
            final(self).well_formed(),
            final(self).spec_enabled(id),
            forall|j: u32|
                j < NVIC_LINES && j != id ==> final(self).spec_enabled(j) == old(
                    self,
                ).spec_enabled(j),
            forall|j: u32| j < NVIC_LINES ==> final(self).spec_pending(j) == old(
                self,
            ).spec_pending(j),
    {
        Self::set_bit(&mut self.enabled, id);
    }

    /// Disables an interrupt line at the controller.
    pub fn disable(&mut self, id: u32)
        requires
            old(self).well_formed(),
            id < NVIC_LINES,
        ensures
            final(self).well_formed(),
            !final(self).spec_enabled(id),
            forall|j: u32|
                j < NVIC_LINES && j != id ==> final(self).spec_enabled(j) == old(
                    self,
                ).spec_enabled(j),
            forall|j: u32| j < NVIC_LINES ==> final(self).spec_pending(j) == old(
                self,
            ).spec_pending(j),
    {
        Self::clear_bit(&mut self.enabled, id);
    }

    /// Reads one line's pending flag.
    pub fn is_pending(&self, id: u32) -> (r: bool)
        requires
            self.well_formed(),
            id < NVIC_LINES,
        ensures
            r == self.spec_pending(id),
    {
        proof {
            assert(id / 32 < 16) by (nonlinear_arith)
                requires
                    id < 512,
            ;
        }
        let idx = (id / 32) as usize;
        let w = self.pending[idx];
        let r = (w & (1u32 << (id % 32))) > 0;
        proof {
            let a = id % 32;
            assert(((w & (1u32 << a)) > 0) == ((w >> a) & 1u32 == 1u32)) by (bit_vector)
                requires
                    a < 32,
            ;
        }
        r
    }

    /// Clears one line's pending flag.
    pub fn clear_pending(&mut self, id: u32)
        requires
            old(self).well_formed(),
            id < NVIC_LINES,
        ensures
            final(self).well_formed(),
            !final(self).spec_pending(id),
            forall|j: u32|
                j < NVIC_LINES && j != id ==> final(self).spec_pending(j) == old(
                    self,
                ).spec_pending(j),
            forall|j: u32| j < NVIC_LINES ==> final(self).spec_enabled(j) == old(
                self,
            ).spec_enabled(j),
    {
        Self::clear_bit(&mut self.pending, id);
    }

    /// Marks a line pending: the one entry point through which interrupt
    /// context reports that the line fired, mirroring a write to the
    /// controller's set-pending bank.
    pub fn set_pending(&mut self, id: u32)
        requires
            old(self).well_formed(),
            id < NVIC_LINES,
        ensures
            final(self).well_formed(),
            final(self).spec_pending(id),
            forall|j: u32|
                j < NVIC_LINES && j != id ==> final(self).spec_pending(j) == old(
                    self,
                ).spec_pending(j),
            forall|j: u32| j < NVIC_LINES ==> final(self).spec_enabled(j) == old(
                self,
            ).spec_enabled(j),
    {
        Self::set_bit(&mut self.pending, id);
    }
}

} // verus!
