//! Half precision numbers, as bit patterns.

use vstd::prelude::*;

verus! {

/// How often `m` has to be doubled to reach 1024.
pub open spec fn doublings(m: nat) -> nat
    decreases 2048 - m,
{
    if m == 0 || m >= 1024 {
        0
    } else {
        1 + doublings(2 * m)
    }
}

/// `m` doubled until it reaches 1024.
pub open spec fn doubled(m: nat) -> nat
    decreases 2048 - m,
{
    if m == 0 || m >= 1024 {
        m
    } else {
        doubled(2 * m)
    }
}

/// Bits of the single precision number with the value of half precision `h`:
/// sign, exponent and fraction. A number below the normal range is brought
/// into it, so its leading one is implied there.
pub open spec fn single_of(h: u16) -> int {
    let s = h as int / 0x8000;
    let e = h as int / 0x400 % 32;
    let m = h as int % 0x400;
    if e == 0 && m == 0 {
        s * 0x8000_0000
    } else if e == 0 {
        s * 0x8000_0000 + (113 - doublings(m as nat)) * 0x80_0000 + (doubled(m as nat) - 0x400)
            * 0x2000
    } else if e == 31 {
        s * 0x8000_0000 + 255 * 0x80_0000 + m * 0x2000
    } else {
        s * 0x8000_0000 + (e + 112) * 0x80_0000 + m * 0x2000
    }
}

/// Bits of the half precision number for single precision bits `b`: the
/// fraction is cut off, what is too small becomes zero and what is too large
/// infinity.
pub open spec fn half_of(b: u32) -> int {
    let s = b as int / 0x8000_0000;
    let e = b as int / 0x80_0000 % 256 - 112;
    let m = b as int % 0x80_0000;
    if e <= 0 {
        s * 0x8000
    } else if e >= 31 {
        s * 0x8000 + 0x7c00
    } else {
        s * 0x8000 + e * 0x400 + m / 0x2000
    }
}

proof fn doubled_range(m: nat)
    requires
        0 < m < 2048,
    ensures
        0x400 <= doubled(m) < 0x800,
        doublings(m) <= 10,
        m >= 2 ==> doublings(m) <= 9,
        m >= 4 ==> doublings(m) <= 8,
        m >= 8 ==> doublings(m) <= 7,
        m >= 16 ==> doublings(m) <= 6,
        m >= 32 ==> doublings(m) <= 5,
        m >= 64 ==> doublings(m) <= 4,
        m >= 128 ==> doublings(m) <= 3,
        m >= 256 ==> doublings(m) <= 2,
        m >= 512 ==> doublings(m) <= 1,
    decreases 2048 - m,
{
    if m < 1024 {
        doubled_range(2 * m);
    }
}

/// A half precision number that is zero, infinite or in the normal range is
/// unchanged by going to single precision and back.
pub proof fn half_round_trip(h: u16)
    requires
        ({
            let e = h as int / 0x400 % 32;
            let m = h as int % 0x400;
            0 < e < 31 || m == 0
        }),
    ensures
        0 <= single_of(h) <= u32::MAX,
        half_of(single_of(h) as u32) == h,
{
}

/// Widens half precision bits to single precision bits.
pub fn f16_to_f32(h: u16) -> (b: u32)
    ensures
        b == single_of(h),
{
    let s: u32 = (h / 0x8000) as u32;
    let e: u32 = (h / 0x400 % 32) as u32;
    let m: u32 = (h % 0x400) as u32;
    if e == 0 {
        if m == 0 {
            return s * 0x8000_0000;
        }
        let mut f: u32 = m;
        let mut x: u32 = 113;
        proof {
            doubled_range(m as nat);
        }
        while f < 0x400
            invariant
                0 < f < 0x800,
                x <= 113,
                doubled(f as nat) == doubled(m as nat),
                doublings(f as nat) + (113 - x) == doublings(m as nat),
                doublings(m as nat) <= 10,
            decreases 0x800 - f,
        {
            f = f * 2;
            x = x - 1;
        }
        assert(0x400 <= f < 0x800);
        return s * 0x8000_0000 + x * 0x80_0000 + (f - 0x400) * 0x2000;
    }
    if e == 31 {
        s * 0x8000_0000 + 255 * 0x80_0000 + m * 0x2000
    } else {
        s * 0x8000_0000 + (e + 112) * 0x80_0000 + m * 0x2000
    }
}

/// Narrows single precision bits to half precision bits.
pub fn f32_to_f16(b: u32) -> (h: u16)
    ensures
        h == half_of(b),
{
    let s: u32 = b / 0x8000_0000;
    let e: u32 = b / 0x80_0000 % 256;
    let m: u32 = b % 0x80_0000;
    if e <= 112 {
        (s * 0x8000) as u16
    } else if e >= 143 {
        (s * 0x8000 + 0x7c00) as u16
    } else {
        (s * 0x8000 + (e - 112) * 0x400 + m / 0x2000) as u16
    }
}

} // verus!
