//! The sampler's random number source: xorshift64*, seeded and reproducible.

use vstd::prelude::*;
use vstd::std_specs::num::*;

verus! {

/// One step of the generator's state.
pub open spec fn stepped(x: u64) -> u64 {
    let a = x ^ (x >> 12u64);
    let b = a ^ (a << 25u64);
    b ^ (b >> 27u64)
}

/// The 24 bits that a state gives out.
pub open spec fn bits24(x: u64) -> u64 {
    x.wrapping_mul(0x2545_F491_4F6C_DD1D) >> 40u64
}

/// A random number source.
#[derive(Debug, Clone, Copy, PartialEq, Eq, Structural)]
pub struct Rng {
    pub state: u64,
}

/// A source that is not stuck at zero never gets stuck.
pub proof fn stepped_not_zero(x: u64)
    requires
        x != 0,
    ensures
        stepped(x) != 0,
{
    let a = x ^ (x >> 12u64);
    assert(a != 0) by (bit_vector)
        requires
            x != 0,
            a == x ^ (x >> 12u64),
    ;
    let b = a ^ (a << 25u64);
    assert(b != 0) by (bit_vector)
        requires
            a != 0,
            b == a ^ (a << 25u64),
    ;
    let c = b ^ (b >> 27u64);
    assert(c != 0) by (bit_vector)
        requires
            b != 0,
            c == b ^ (b >> 27u64),
    ;
}

impl Rng {
    /// A source for `seed`; the lowest bit is set, so that it is never zero.
    pub fn new(seed: u64) -> (r: Rng)
        ensures
            r.state == seed | 1,
            r.state != 0,
    {
        assert(seed | 1 != 0) by (bit_vector);
        Rng { state: seed | 1 }
    }

    /// The next 24 random bits.
    pub fn next24(&mut self) -> (v: u32)
        ensures
            final(self).state == stepped(old(self).state),
            v == bits24(final(self).state),
            ({
                let s = old(self).state;
                let a = s ^ (s >> 12u64);
                let b = a ^ (a << 25u64);
                &&& final(self).state == b ^ (b >> 27u64)
                &&& v == (final(self).state.wrapping_mul(2_685_821_657_736_338_717) >> 40u64)
            }),
            v < 0x100_0000,
            old(self).state != 0 ==> final(self).state != 0,
    {
        proof {
            if self.state != 0 {
                stepped_not_zero(self.state);
            }
        }
        let mut x: u64 = self.state;
        x = x ^ (x >> 12);
        x = x ^ (x << 25);
        x = x ^ (x >> 27);
        self.state = x;
        let w: u64 = x.wrapping_mul(0x2545_F491_4F6C_DD1D);
        assert(w >> 40 < 0x100_0000) by (bit_vector);
        (w >> 40) as u32
    }
}

} // verus!
