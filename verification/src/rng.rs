//! An explicit, seedable linear congruential generator, so that restart
//! initialization is reproducible.

use vstd::prelude::*;

verus! {

/// Multiplier of the linear congruential step.
pub const LCG_MUL: u64 = 6364136223846793005;

/// Increment of the linear congruential step.
pub const LCG_INC: u64 = 1442695040888963407;

/// One step of the generator.
pub open spec fn lcg_next_s(s: u64) -> u64 {
    (((s as int) * (LCG_MUL as int) + (LCG_INC as int)) % 0x10000000000000000int) as u64
}

/// A seedable pseudo-random generator.
pub struct Lcg {
    pub state: u64,
}

impl Lcg {
    /// Start from a seed.
    pub fn new(seed: u64) -> (r: Lcg)
        ensures
            r.state == seed,
    {
        Lcg { state: seed }
    }

    /// Advance the state and hand back the new raw value.
    pub fn next_raw(&mut self) -> (r: u64)
        ensures
            final(self).state == lcg_next_s(old(self).state),
            r == final(self).state,
    {
        proof {
            assert((self.state as int) * (LCG_MUL as int)
                <= 0xffffffffffffffffint * 0xffffffffffffffffint) by (nonlinear_arith)
                requires
                    0 <= self.state as int <= 0xffffffffffffffffint,
            ;
        }
        let p: u128 = (self.state as u128) * (LCG_MUL as u128) + (LCG_INC as u128);
        let v: u64 = (p % 0x10000000000000000u128) as u64;
        self.state = v;
        v
    }

    /// A value in [lo, hi], both ends included; deterministic in the state.
    pub fn next_range(&mut self, lo: i64, hi: i64) -> (r: i64)
        requires
            0 <= lo <= hi,
        ensures
            lo <= r <= hi,
            final(self).state == lcg_next_s(old(self).state),
            r as int == lo + (lcg_next_s(old(self).state) as int) % (hi - lo + 1),
    {
        let raw = self.next_raw();
        let span: u64 = (hi - lo) as u64 + 1;
        let off: u64 = raw % span;
        lo + (off as i64)
    }
}

} // verus!
