//! Pseudo-random sampling: a deterministic 64-bit linear congruential
//! generator, seeded either explicitly (for reproducible renders) or from
//! the process's entropy source.

use vstd::prelude::*;
use crate::fx::ONE;

verus! {

/// One state advance: a 64-bit linear congruential step.
#[verifier::opaque]
pub open spec fn next_s(s: u64) -> u64 {
    (((s as int) * 6364136223846793005 + 1442695040888963407) % 0x10000000000000000) as u64
}

/// The state after `k` advances.
pub open spec fn nth_s(s: u64, k: nat) -> u64
    decreases k,
{
    if k == 0 {
        s
    } else {
        next_s(nth_s(s, (k - 1) as nat))
    }
}

/// The unit sample read off a state: its top 32 bits, a fixed-point
/// fraction in `[0, 1)`.
#[verifier::opaque]
pub open spec fn unit_of(s: u64) -> int {
    (s >> 32) as int
}

/// A deterministic pseudo-random generator; each worker owns its own
/// instance, so no state is ever shared.
pub struct Rng64 {
    pub state: u64,
}

/// Relies on rand::random: a fresh 64-bit value drawn from the thread-local
/// generator; nothing can be promised of its value. May panic on first use
/// in a thread if the operating system's entropy source is unavailable —
/// an environment condition, not a function of any input.
#[verifier::external_body]
fn entropy_u64() -> u64 {
    rand::random::<u64>()
}

impl Rng64 {
    /// A generator at a chosen seed.
    pub fn new(seed: u64) -> (r: Rng64)
        ensures
            r.state == seed,
    {
        Rng64 { state: seed }
    }

    /// A generator seeded from the process's entropy source.
    pub fn from_entropy() -> (r: Rng64) {
        Rng64 { state: entropy_u64() }
    }

    /// Advance once and return a fixed-point fraction uniform in `[0, 1)`.
    pub fn next_unit(&mut self) -> (r: i128)
        ensures
            final(self).state == next_s(old(self).state),
            r as int == unit_of(final(self).state),
            0 <= r < ONE as int,
    {
        let st: u64 = self.state;
        proof {
            assert((st as u128) * 6364136223846793005 <= 0xffffffffffffffffu128
                * 6364136223846793005) by (nonlinear_arith)
                requires
                    st <= 0xffffffffffffffffu64,
            ;
        }
        let w: u128 = (st as u128) * 6364136223846793005 + 1442695040888963407;
        let ns: u64 = (w % 0x10000000000000000) as u64;
        proof {
            reveal(next_s);
            vstd::arithmetic::div_mod::lemma_mod_bound(w as int, 0x10000000000000000);
            assert(ns == next_s(old(self).state));
        }
        self.state = ns;
        let r: i128 = (ns >> 32) as i128;
        proof {
            reveal(unit_of);
            assert(ns >> 32 < 0x100000000u64) by (bit_vector);
        }
        r
    }
}

} // verus!
