use vstd::prelude::*;

verus! {

/// Multiplier of the generator's linear-congruential step.
pub const LCG_MULTIPLIER: u64 = 6364136223846793005;

/// The state that follows `s`: `s * LCG_MULTIPLIER + 1`, modulo 2^64.
pub open spec fn lcg_step(s: u64) -> u64 {
    ((s as int * LCG_MULTIPLIER as int + 1) % 0x1_0000_0000_0000_0000) as u64
}

/// The state after `n` steps from `s`.
pub open spec fn lcg_state_after(s: u64, n: nat) -> u64
    decreases n,
{
    if n == 0 {
        s
    } else {
        lcg_step(lcg_state_after(s, (n - 1) as nat))
    }
}

/// The value drawn from state `s`: its upper 32 bits.
pub open spec fn lcg_output(s: u64) -> u32 {
    (s >> 32u64) as u32
}

/// A deterministic pseudo-random generator (64-bit linear congruential).
pub struct Lcg {
    pub state: u64,
}

impl Lcg {
    /// A generator whose state is `seed`.
    pub fn new(seed: u64) -> (r: Lcg)
        ensures
            r.state == seed,
    {
        Lcg { state: seed }
    }

    /// Advances the state one step and returns the upper 32 bits of the new state.
    pub fn next_u32(&mut self) -> (r: u32)
        ensures
            final(self).state == lcg_step(old(self).state),
            r == lcg_output(final(self).state),
    {
        let prev = self.state;
        let product = prev.wrapping_mul(LCG_MULTIPLIER);
        self.state = product.wrapping_add(1);
        proof {
            let m = 0x1_0000_0000_0000_0000int;
            let p = prev as int * LCG_MULTIPLIER as int;
            assert(product as int == p % m);
            vstd::arithmetic::div_mod::lemma_add_mod_noop(p, 1, m);
            vstd::arithmetic::div_mod::lemma_small_mod(1nat, m as nat);
            vstd::arithmetic::div_mod::lemma_mod_bound(p + 1, m);
            if product as int + 1 >= m {
                vstd::arithmetic::div_mod::lemma_mod_self_0(m);
            } else {
                vstd::arithmetic::div_mod::lemma_small_mod((product as int + 1) as nat, m as nat);
            }
        }
        (self.state >> 32u64) as u32
    }
}

} // verus!
