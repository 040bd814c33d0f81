//! A seedable linear congruential generator.
//!
//! Room placement and actuation jitter draw from this deterministic source,
//! so every simulation run is reproducible from its seed.
use vstd::prelude::*;

verus! {

/// Multiplier of the linear congruential step (Knuth's MMIX constant).
pub const LCG_MUL: u64 = 6364136223846793005;

/// Increment of the linear congruential step.
pub const LCG_INC: u64 = 1442695040888963407;

/// A 64-bit linear congruential generator.
pub struct Lcg {
    pub state: u64,
}

impl Lcg {
    /// The successor state of the generator.
    pub open spec fn spec_next(s: u64) -> u64 {
        s.wrapping_mul(LCG_MUL).wrapping_add(LCG_INC)
    }

    /// The value drawn from a state: its upper 31 bits.
    pub open spec fn spec_draw(s: u64) -> u64 {
        Lcg::spec_next(s) >> 33
    }

    /// Starts a generator from a seed.
    pub fn seeded(seed: u64) -> (r: Lcg)
        ensures
            r.state == seed,
    {
        Lcg { state: seed }
    }

    /// Advances the generator and returns a draw below `2^31`.
    pub fn next_raw(&mut self) -> (r: u64)
        ensures
            final(self).state == Lcg::spec_next(old(self).state),
            r == Lcg::spec_draw(old(self).state),
            r < 0x8000_0000,
    {
        self.state = self.state.wrapping_mul(LCG_MUL).wrapping_add(LCG_INC);
        let r = self.state >> 33;
        assert(forall|s: u64| #[trigger] (s >> 33) < 0x8000_0000u64) by (bit_vector);
        r
    }

    /// Advances the generator and returns a draw uniform-ish below `n`.
    pub fn below(&mut self, n: u64) -> (r: u64)
        requires
            1 <= n,
        ensures
            final(self).state == Lcg::spec_next(old(self).state),
            r == Lcg::spec_draw(old(self).state) % n,
            r < n,
    {
        let d = self.next_raw();
        d % n
    }
}

} // verus!
