//! Routed expert tensors: equal slabs, one per expert, at known file offsets.

use vstd::prelude::*;

use crate::gguf::{Gguf, TensorInfo, TensorType};
use crate::store::Read;

verus! {

pub const QUANT_Q2_K: u32 = 0;

pub const QUANT_IQ2_XXS: u32 = 1;

pub const QUANT_Q4_K: u32 = 2;

pub const QUANT_Q5_K: u32 = 3;

pub const QUANT_Q6_K: u32 = 4;

pub const QUANT_Q3_K: u32 = 5;

pub const QUANT_IQ2_XS: u32 = 6;

pub const QUANT_IQ3_XXS: u32 = 7;

pub const QUANT_Q4_0: u32 = 8;

pub const QUANT_Q5_1: u32 = 9;

pub const QUANT_Q8_0: u32 = 10;

pub const QUANT_IQ4_XS: u32 = 11;

/// The kernel's number for an expert storage format.
pub open spec fn quant_of(ty: TensorType) -> Option<u32> {
    match ty {
        TensorType::Q2K => Some(QUANT_Q2_K),
        TensorType::IQ2XXS => Some(QUANT_IQ2_XXS),
        TensorType::Q4K => Some(QUANT_Q4_K),
        TensorType::Q5K => Some(QUANT_Q5_K),
        TensorType::Q6K => Some(QUANT_Q6_K),
        TensorType::Q3K => Some(QUANT_Q3_K),
        TensorType::IQ2XS => Some(QUANT_IQ2_XS),
        TensorType::IQ3XXS => Some(QUANT_IQ3_XXS),
        TensorType::Q4_0 => Some(QUANT_Q4_0),
        TensorType::Q5_1 => Some(QUANT_Q5_1),
        TensorType::Q8_0 => Some(QUANT_Q8_0),
        TensorType::IQ4XS => Some(QUANT_IQ4_XS),
        TensorType::F32 | TensorType::Other => None,
    }
}

/// The kernel's number for an expert storage format, if it has a kernel.
pub fn expert_quant(ty: TensorType) -> (r: Option<u32>)
    ensures
        r == quant_of(ty),
        ty == TensorType::Q2K ==> r == Some(0u32),
        ty == TensorType::IQ2XXS ==> r == Some(1u32),
        ty == TensorType::Q4K ==> r == Some(2u32),
        ty == TensorType::Q5K ==> r == Some(3u32),
        ty == TensorType::Q6K ==> r == Some(4u32),
        ty == TensorType::Q3K ==> r == Some(5u32),
        ty == TensorType::IQ2XS ==> r == Some(6u32),
        ty == TensorType::IQ3XXS ==> r == Some(7u32),
        ty == TensorType::Q4_0 ==> r == Some(8u32),
        ty == TensorType::Q5_1 ==> r == Some(9u32),
        ty == TensorType::Q8_0 ==> r == Some(10u32),
        ty == TensorType::IQ4XS ==> r == Some(11u32),
        ty == TensorType::F32 || ty == TensorType::Other ==> r is None,
{
    match ty {
        TensorType::Q2K => Some(QUANT_Q2_K),
        TensorType::IQ2XXS => Some(QUANT_IQ2_XXS),
        TensorType::Q4K => Some(QUANT_Q4_K),
        TensorType::Q5K => Some(QUANT_Q5_K),
        TensorType::Q6K => Some(QUANT_Q6_K),
        TensorType::Q3K => Some(QUANT_Q3_K),
        TensorType::IQ2XS => Some(QUANT_IQ2_XS),
        TensorType::IQ3XXS => Some(QUANT_IQ3_XXS),
        TensorType::Q4_0 => Some(QUANT_Q4_0),
        TensorType::Q5_1 => Some(QUANT_Q5_1),
        TensorType::Q8_0 => Some(QUANT_Q8_0),
        TensorType::IQ4XS => Some(QUANT_IQ4_XS),
        TensorType::F32 | TensorType::Other => None,
    }
}

/// Where one routed expert tensor lies: `expert_bytes` per expert from
/// `abs_offset` on.
#[derive(Debug, Clone, Copy, PartialEq, Eq, Structural)]
pub struct ExpertTensor {
    pub abs_offset: u64,
    pub expert_bytes: u64,
    pub row_bytes: u64,
    pub quant: u32,
}

impl ExpertTensor {
    /// Whether all `n` slabs have offsets.
    pub open spec fn holds(self, n: nat) -> bool {
        self.abs_offset + n * self.expert_bytes <= u64::MAX
    }

    /// The slab of expert `e`.
    pub open spec fn slab(self, e: int) -> Read {
        Read { offset: (self.abs_offset + e * self.expert_bytes) as u64, len: self.expert_bytes }
    }

    /// The tensor that `t` describes, or `None` when its format has no kernel.
    pub fn new(g: &Gguf, t: &TensorInfo) -> (r: Option<ExpertTensor>)
        requires
            t.dims@.len() >= 2,
            quant_of(t.ty) is Some ==> t.row_bytes is Some,
            g.data_offset + t.offset <= u64::MAX,
            t.row_bytes matches Some(b) ==> b * t.dims@[1] <= u64::MAX,
        ensures
            match r {
                Some(x) => {
                    &&& quant_of(t.ty) == Some(x.quant)
                    &&& x.abs_offset == g.data_offset + t.offset
                    &&& Some(x.row_bytes) == t.row_bytes
                    &&& x.expert_bytes == x.row_bytes * t.dims@[1]
                },
                None => quant_of(t.ty) is None,
            },
    {
        let quant: u32 = match expert_quant(t.ty) {
            Some(q) => q,
            None => return None,
        };
        let row_bytes: u64 = t.row_bytes.unwrap();
        Some(
            ExpertTensor {
                abs_offset: g.data_offset + t.offset,
                expert_bytes: row_bytes * t.dims[1],
                row_bytes,
                quant,
            },
        )
    }

    /// Tells whether all `n` slabs have offsets.
    pub fn holds_all(&self, n: u32) -> (r: bool)
        ensures
            r == self.holds(n as nat),
    {
        match self.expert_bytes.checked_mul(n as u64) {
            Some(bytes) => bytes <= u64::MAX - self.abs_offset,
            None => {
                assert(self.expert_bytes * n == n * self.expert_bytes) by (nonlinear_arith);
                false
            },
        }
    }

    /// Locates the slab of expert `e`.
    pub fn slab_of(&self, e: u64) -> (r: Read)
        requires
            self.holds(e as nat),
        ensures
            r == self.slab(e as int),
    {
        assert(e * self.expert_bytes >= 0) by (nonlinear_arith);
        Read { offset: self.abs_offset + e * self.expert_bytes, len: self.expert_bytes }
    }
}

/// Slabs of different experts do not overlap.
pub proof fn slabs_disjoint(t: ExpertTensor, n: nat, a: int, b: int)
    requires
        t.holds(n),
        0 <= a < b < n,
    ensures
        t.slab(a).offset + t.slab(a).len <= t.slab(b).offset,
        t.slab(b).offset + t.slab(b).len <= t.abs_offset + n * t.expert_bytes,
{
    let w = t.expert_bytes as int;
    assert((a + 1) * w <= b * w && (b + 1) * w <= n * w && a * w >= 0) by (nonlinear_arith)
        requires
            0 <= a < b < n,
            0 <= w,
    ;
    assert((a + 1) * w == a * w + w) by (nonlinear_arith);
    assert((b + 1) * w == b * w + w) by (nonlinear_arith);
}

} // verus!
