//! Hybrid models: most layers keep a recurrent state of fixed size, and every
//! so many run full attention.

use vstd::prelude::*;

verus! {

/// The recurrent layers' dimensions.
#[derive(Debug, Clone, Copy, PartialEq, Eq, Structural)]
pub struct HybridShape {
    pub n_exec_layer: u32,
    pub ssm_k_heads: u32,
    pub ssm_v_heads: u32,
    pub ssm_state: u32,
    /// Width of the convolution window.
    pub ssm_conv_k: u32,
    /// One layer in this many runs full attention.
    pub full_attn_interval: u32,
}

/// Whether layer `il` runs full attention.
pub open spec fn full_attn(il: int, interval: int) -> bool {
    (il + 1) % interval == 0
}

/// Sizes that follow from the dimensions, in values.
#[derive(Debug, Clone, Copy, PartialEq, Eq, Structural)]
pub struct HybridDims {
    pub key_dim: u32,
    pub value_dim: u32,
    /// Query, key and value side by side.
    pub conv_dim: u32,
}

impl HybridShape {
    /// Query and key width.
    pub open spec fn key_dim(self) -> int {
        self.ssm_k_heads * self.ssm_state
    }

    /// Value width.
    pub open spec fn value_dim(self) -> int {
        self.ssm_v_heads * self.ssm_state
    }

    /// Query, key and value side by side.
    pub open spec fn conv_dim(self) -> int {
        2 * self.key_dim() + self.value_dim()
    }

    /// Bytes of a layer's recurrent state.
    pub open spec fn state_bytes(self) -> int {
        self.ssm_v_heads * self.ssm_state * self.ssm_state * 4
    }

    /// Bytes of a layer's convolution window.
    pub open spec fn window_bytes(self) -> int {
        (self.ssm_conv_k - 1) * self.conv_dim() * 4
    }

    /// Whether the sizes fit the machine.
    pub open spec fn fits(self) -> bool {
        &&& self.conv_dim() <= u32::MAX
        &&& self.state_bytes() <= usize::MAX
        &&& self.ssm_conv_k >= 1
        &&& self.window_bytes() <= usize::MAX
        &&& self.full_attn_interval > 0
    }

    /// No size is negative.
    pub proof fn sizes_not_negative(self)
        ensures
            0 <= self.key_dim(),
            0 <= self.value_dim(),
            0 <= self.ssm_v_heads * self.ssm_state * self.ssm_state,
            self.ssm_conv_k >= 1 ==> 0 <= self.window_bytes(),
    {
        let (a, b, c) = (
            self.ssm_k_heads as int,
            self.ssm_v_heads as int,
            self.ssm_state as int,
        );
        assert(0 <= a * c && 0 <= b * c) by (nonlinear_arith)
            requires
                0 <= a,
                0 <= b,
                0 <= c,
        ;
        let d = b * c;
        assert(0 <= d * c) by (nonlinear_arith)
            requires
                0 <= d,
                0 <= c,
        ;
        let (w, k) = (self.conv_dim(), self.ssm_conv_k - 1);
        assert(k >= 0 ==> 0 <= k * w) by (nonlinear_arith)
            requires
                0 <= w,
        ;
    }

    /// Tells whether the sizes fit the machine.
    pub fn fits_machine(&self) -> (r: bool)
        ensures
            r == self.fits(),
    {
        if self.ssm_conv_k < 1 || self.full_attn_interval == 0 {
            return false;
        }
        proof {
            self.sizes_not_negative();
            let m: int = u32::MAX as int;
            let (a, b, c) = (
                self.ssm_k_heads as int,
                self.ssm_v_heads as int,
                self.ssm_state as int,
            );
            assert(a * c <= m * m && b * c <= m * m) by (nonlinear_arith)
                requires
                    0 <= a <= m,
                    0 <= b <= m,
                    0 <= c <= m,
            ;
            let d = b * c;
            assert(d * c <= m * m * m) by (nonlinear_arith)
                requires
                    0 <= d <= m * m,
                    0 <= c <= m,
            ;
            let (w, k) = (self.conv_dim(), self.ssm_conv_k - 1);
            assert(k * w <= m * (3 * (m * m))) by (nonlinear_arith)
                requires
                    0 <= k <= m,
                    0 <= w <= 3 * (m * m),
            ;
            assert(m * m <= 0x1_0000_0000_0000_0000 && m * m * m
                <= 0x1_0000_0000_0000_0000_0000_0000) by (nonlinear_arith)
                requires
                    m == 0xffff_ffff,
            ;
            assert(m * (3 * (m * m)) == 3 * (m * m * m)) by (nonlinear_arith);
        }
        let n: u128 = self.ssm_state as u128;
        let value: u128 = self.ssm_v_heads as u128 * n;
        let conv: u128 = 2 * (self.ssm_k_heads as u128 * n) + value;
        let state: u128 = value * n * 4;
        let window: u128 = (self.ssm_conv_k - 1) as u128 * conv * 4;
        conv <= u32::MAX as u128 && state <= usize::MAX as u128 && window <= usize::MAX as u128
    }

    /// Works out the widths.
    pub fn dims(&self) -> (d: HybridDims)
        requires
            self.fits(),
        ensures
            d.key_dim == self.key_dim(),
            d.value_dim == self.value_dim(),
            d.conv_dim == self.conv_dim(),
    {
        proof {
            self.sizes_not_negative();
        }
        let key_dim: u32 = self.ssm_k_heads * self.ssm_state;
        let value_dim: u32 = self.ssm_v_heads * self.ssm_state;
        HybridDims { key_dim, value_dim, conv_dim: 2 * key_dim + value_dim }
    }

    /// Whether layer `il` runs full attention.
    pub fn is_full_attn(&self, il: u32) -> (r: bool)
        requires
            self.full_attn_interval > 0,
        ensures
            r == full_attn(il as int, self.full_attn_interval as int),
    {
        (il as u64 + 1) % self.full_attn_interval as u64 == 0
    }

    /// Bytes of a layer's recurrent state and of its convolution window.
    pub fn state_size(&self) -> (r: (usize, usize))
        requires
            self.fits(),
        ensures
            r.0 == self.state_bytes(),
            r.1 == self.window_bytes(),
    {
        proof {
            self.sizes_not_negative();
        }
        let d: HybridDims = self.dims();
        let heads: usize = self.ssm_v_heads as usize * self.ssm_state as usize;
        (
            heads * self.ssm_state as usize * 4,
            (self.ssm_conv_k as usize - 1) * d.conv_dim as usize * 4,
        )
    }

    /// Per layer: bytes of recurrent state and convolution window, or nothing
    /// where full attention runs.
    pub fn state_plan(&self) -> (v: Vec<Option<(usize, usize)>>)
        requires
            self.fits(),
        ensures
            v@ == Seq::new(
                self.n_exec_layer as nat,
                |il: int|
                    if full_attn(il, self.full_attn_interval as int) {
                        None
                    } else {
                        Some((self.state_bytes() as usize, self.window_bytes() as usize))
                    },
            ),
    {
        let (state, window) = self.state_size();
        let mut v: Vec<Option<(usize, usize)>> = Vec::new();
        let mut il: u32 = 0;
        while il < self.n_exec_layer
            invariant
                il <= self.n_exec_layer,
                self.fits(),
                state == self.state_bytes(),
                window == self.window_bytes(),
                v@ =~= Seq::new(
                    il as nat,
                    |il: int|
                        if full_attn(il, self.full_attn_interval as int) {
                            None
                        } else {
                            Some((self.state_bytes() as usize, self.window_bytes() as usize))
                        },
                ),
            decreases self.n_exec_layer - il,
        {
            if self.is_full_attn(il) {
                v.push(None);
            } else {
                v.push(Some((state, window)));
            }
            il += 1;
        }
        v
    }

    /// Byte ranges of query, key and value in the convolution's output, as
    /// offset and length.
    pub fn conv_parts(&self) -> (r: [(usize, usize); 3])
        requires
            self.fits(),
            self.conv_dim() * 4 <= usize::MAX,
        ensures
            r@[0] == (0usize, (4 * self.key_dim()) as usize),
            r@[1] == ((4 * self.key_dim()) as usize, (4 * self.key_dim()) as usize),
            r@[2] == ((8 * self.key_dim()) as usize, (4 * self.value_dim()) as usize),
    {
        proof {
            self.sizes_not_negative();
        }
        let d: HybridDims = self.dims();
        let kd: usize = d.key_dim as usize * 4;
        let vd: usize = d.value_dim as usize * 4;
        [(0, kd), (kd, kd), (2 * kd, vd)]
    }
}

/// The three parts fill the convolution's output.
pub proof fn conv_parts_fill(s: HybridShape)
    ensures
        4 * s.key_dim() + 4 * s.key_dim() + 4 * s.value_dim() == 4 * s.conv_dim(),
{
}

/// The widths and sizes: queries and keys are a state wide for each key head, values
/// for each value head; a state is a square for each value head, and a window all
/// but one of the convolution's columns.
pub proof fn hybrid_widths(s: HybridShape)
    ensures
        s.key_dim() == s.ssm_k_heads * s.ssm_state,
        s.value_dim() == s.ssm_v_heads * s.ssm_state,
        s.conv_dim() == s.ssm_k_heads * s.ssm_state + s.ssm_k_heads * s.ssm_state + s.ssm_v_heads
            * s.ssm_state,
        s.state_bytes() == 4 * (s.ssm_v_heads * s.ssm_state * s.ssm_state),
        s.window_bytes() == 4 * ((s.ssm_conv_k - 1) * s.conv_dim()),
{
}

/// It is the last layer of each interval that runs full attention.
pub proof fn last_of_interval_is_full(k: int, i: int, interval: int)
    requires
        0 <= k,
        0 <= i < interval,
    ensures
        full_attn(k * interval + i, interval) <==> i == interval - 1,
{
    let x = k * interval + i + 1;
    if i == interval - 1 {
        assert(x == (k + 1) * interval) by (nonlinear_arith)
            requires
                x == k * interval + i + 1,
                i == interval - 1,
        ;
        vstd::arithmetic::div_mod::lemma_mod_multiples_basic(k + 1, interval);
    } else {
        vstd::arithmetic::div_mod::lemma_mod_multiples_vanish(k, i + 1, interval);
        vstd::arithmetic::div_mod::lemma_small_mod((i + 1) as nat, interval as nat);
        assert(interval * k + (i + 1) == x) by (nonlinear_arith)
            requires
                x == k * interval + i + 1,
        ;
    }
}

/// Of any run of layers as long as the interval, exactly one runs full attention.
pub proof fn one_full_attn_per_interval(start: int, interval: int)
    requires
        0 <= start,
        0 < interval,
    ensures
        exists|il: int| start <= il < start + interval && #[trigger] full_attn(il, interval),
        forall|a: int, b: int|
            start <= a < start + interval && start <= b < start + interval && #[trigger] full_attn(
                a,
                interval,
            ) && #[trigger] full_attn(b, interval) ==> a == b,
{
    let q = (start + interval) / interval;
    let il = q * interval - 1;
    assert(start < q * interval <= start + interval && (q * interval) % interval == 0) by {
        vstd::arithmetic::div_mod::lemma_fundamental_div_mod(start + interval, interval);
        vstd::arithmetic::div_mod::lemma_mod_bound(start + interval, interval);
        vstd::arithmetic::div_mod::lemma_mod_multiples_basic(q, interval);
        assert(interval * q == q * interval) by (nonlinear_arith);
    }
    assert(full_attn(il, interval));
    assert forall|a: int, b: int|
        start <= a < start + interval && start <= b < start + interval && #[trigger] full_attn(
            a,
            interval,
        ) && #[trigger] full_attn(b, interval) implies a == b by {
        let (x, y) = ((a + 1) / interval, (b + 1) / interval);
        vstd::arithmetic::div_mod::lemma_fundamental_div_mod(a + 1, interval);
        vstd::arithmetic::div_mod::lemma_fundamental_div_mod(b + 1, interval);
        assert(x == y) by (nonlinear_arith)
            requires
                a + 1 == interval * x,
                b + 1 == interval * y,
                -interval < a - b < interval,
                0 < interval,
        ;
    }
}

/// Why a batch cannot be forwarded through a hybrid model.
#[derive(Debug, Clone, Copy, PartialEq, Eq, Structural)]
pub enum HybridError {
    Empty,
    /// More than one row of logits.
    Rows,
    /// It would go past the context.
    Context,
}

/// Checks a batch before it is forwarded through a hybrid model.
pub fn check_hybrid(n: usize, pos0: u32, rows: u32, ctx: u32) -> (r: Result<(), HybridError>)
    ensures
        r == (if n == 0 {
            Err(HybridError::Empty)
        } else if rows > 1 {
            Err(HybridError::Rows)
        } else if pos0 + n > ctx {
            Err(HybridError::Context)
        } else {
            Ok(())
        }),
{
    if n == 0 {
        Err(HybridError::Empty)
    } else if rows > 1 {
        Err(HybridError::Rows)
    } else if pos0 > ctx || n > (ctx - pos0) as usize {
        Err(HybridError::Context)
    } else {
        Ok(())
    }
}

/// How a layer of a hybrid model attends.
#[derive(Debug, Clone, Copy, PartialEq, Eq, Structural)]
pub enum HybridKind {
    /// Through its recurrent state.
    Delta,
    /// Over all rows.
    Full,
}

/// Decides how a layer attends, by the weights it has; recurrent ones go first.
pub fn hybrid_kind(has_delta: bool, has_full: bool) -> (r: Option<HybridKind>)
    ensures
        r == (if has_delta {
            Some(HybridKind::Delta)
        } else if has_full {
            Some(HybridKind::Full)
        } else {
            None
        }),
{
    if has_delta {
        Some(HybridKind::Delta)
    } else if has_full {
        Some(HybridKind::Full)
    } else {
        None
    }
}

/// Whether recurrent states start afresh at `pos`.
pub fn starts_afresh(pos: u32) -> (r: bool)
    ensures
        r == (pos == 0),
{
    pos == 0
}

} // verus!
