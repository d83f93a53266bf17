//! Tuning knobs: what an environment setting and the machine make of each.

use vstd::prelude::*;
use vstd::string::*;

#[allow(unused_imports)]
use crate::buffers::most;
use crate::lines::{begins, cut, fields, lines, piece, split_fields, split_lines, starts_with};
use crate::shape::Family;
use crate::slab_cache::SLAB_SLACK;
use crate::text::{parse_signed, parse_unsigned, same_text, signed_in, to_chars, trim_bounds,
    trimmed, unsigned_in};
use crate::tiers::RESERVE;

verus! {

/// Bytes of a gibibyte.
pub const GIB: usize = 1_073_741_824;

/// The number that a setting spells, if it is set to one of at most `max`.
pub open spec fn setting(env: Option<&str>, max: nat) -> Option<nat> {
    match env {
        Some(v) => unsigned_in(v@, max),
        None => None,
    }
}

fn read_setting(env: Option<&str>, max: u64) -> (r: Option<u64>)
    ensures
        match r {
            Some(v) => setting(env, max as nat) == Some(v as nat),
            None => setting(env, max as nat) is None,
        },
{
    match env {
        Some(v) => {
            let chars: Vec<char> = to_chars(v);
            parse_unsigned(&chars, max)
        },
        None => None,
    }
}

/// `v` held within `lo..=hi`.
pub open spec fn clamped(v: int, lo: int, hi: int) -> int {
    if v < lo {
        lo
    } else if v > hi {
        hi
    } else {
        v
    }
}

/// The first of `all` that begins with `prefix`, from `i` on.
pub open spec fn line_with(all: Seq<Seq<char>>, prefix: Seq<char>, i: int) -> Option<Seq<char>>
    decreases all.len() - i,
{
    if i < 0 || i >= all.len() {
        None
    } else if begins(all[i], prefix) {
        Some(all[i])
    } else {
        line_with(all, prefix, i + 1)
    }
}

/// Memory that a meminfo listing says is available, in KiB.
pub open spec fn available_kib(meminfo: Seq<char>) -> Option<nat> {
    match line_with(lines(meminfo), "MemAvailable:"@, 0) {
        None => None,
        Some(line) => if fields(line).len() >= 2 {
            unsigned_in(fields(line)[1], usize::MAX as nat)
        } else {
            None
        },
    }
}

/// Reads how much memory is available, in KiB, from a meminfo listing.
pub fn read_available(meminfo: &str) -> (r: Option<usize>)
    ensures
        match r {
            Some(kib) => available_kib(meminfo@) == Some(kib as nat),
            None => available_kib(meminfo@) is None,
        },
{
    let text: Vec<char> = to_chars(meminfo);
    let prefix: Vec<char> = to_chars("MemAvailable:");
    let at: Vec<(usize, usize)> = split_lines(&text);
    let ghost all = lines(meminfo@);
    let mut i: usize = 0;
    while i < at.len()
        invariant
            i <= at@.len(),
            text@ == meminfo@,
            prefix@ == "MemAvailable:"@,
            all == lines(meminfo@),
            cut(text@, at@) == all,
            crate::lines::ranges_in(at@, text@.len() as int),
            line_with(all, prefix@, 0) == line_with(all, prefix@, i as int),
        decreases at@.len() - i,
    {
        let line: &[char] = piece(&text, at[i]);
        assert(line@ == all[i as int]);
        if starts_with(line, &prefix) {
            let f: Vec<(usize, usize)> = split_fields(line);
            assert(cut(line@, f@).len() == f@.len());
            if f.len() < 2 {
                return None;
            }
            let word: &[char] = piece(line, f[1]);
            assert(word@ == fields(line@)[1]);
            return match parse_unsigned(word, usize::MAX as u64) {
                Some(v) => Some(v as usize),
                None => None,
            };
        }
        i += 1;
    }
    None
}

/// Size of the host expert cache in GiB: as set; else what is available less
/// a reserve, up to a cap that depends on where attention lives.
pub open spec fn cache_gib(env: Option<&str>, attn_dev: bool, meminfo: Option<&str>) -> int {
    match setting(env, usize::MAX as nat) {
        Some(v) => v as int,
        None => {
            let cap = if attn_dev {
                22int
            } else {
                12
            };
            let avail = match meminfo {
                Some(m) => match available_kib(m@) {
                    Some(kib) => kib as int / 1_048_576,
                    None => cap + 6,
                },
                None => cap + 6,
            };
            clamped(avail - 6, 4, cap)
        },
    }
}

/// Size of the host expert cache in bytes.
pub fn host_cache_bytes(env: Option<&str>, attn_dev: bool, meminfo: Option<&str>) -> (n: usize)
    ensures
        n == (cache_gib(env, attn_dev, meminfo) as usize).wrapping_mul(GIB),
{
    let gib: usize = match read_setting(env, usize::MAX as u64) {
        Some(v) => v as usize,
        None => {
            let cap: usize = if attn_dev {
                22
            } else {
                12
            };
            let avail: usize = match meminfo {
                Some(m) => match read_available(m) {
                    Some(kib) => kib / 1_048_576,
                    None => cap + 6,
                },
                None => cap + 6,
            };
            if avail < 10 {
                4
            } else if avail - 6 > cap {
                cap
            } else {
                avail - 6
            }
        },
    };
    gib.wrapping_mul(GIB)
}

/// Tokens drafted per round by the draft layer: none without one; else as
/// set, 1 to 8.
pub fn mtp_depth(has_layer: bool, env: Option<&str>) -> (d: u32)
    ensures
        d == (if has_layer {
            clamped(
                match setting(env, u32::MAX as nat) {
                    Some(v) => v as int,
                    None => 1,
                },
                1,
                8,
            )
        } else {
            0
        }),
{
    if !has_layer {
        return 0;
    }
    match read_setting(env, u32::MAX as u64) {
        Some(v) => if v < 1 {
            1
        } else if v > 8 {
            8
        } else {
            v as u32
        },
        None => 1,
    }
}

/// Tokens drafted per round from repeated n-grams: none unless set, 1 to 15.
pub open spec fn ngram_of(env: Option<&str>) -> int {
    match setting(env, u32::MAX as nat) {
        Some(v) => clamped(v as int, 1, 15),
        None => 0,
    }
}

/// Reads the n-gram draft depth.
pub fn ngram_depth(env: Option<&str>) -> (d: u32)
    ensures
        d == ngram_of(env),
        d <= 15,
        setting(env, u32::MAX as nat) is None ==> d == 0,
        setting(env, u32::MAX as nat) matches Some(v) ==> 1 <= d && (d == v || (v < 1 && d == 1) || (
        v > 15 && d == 15)),
{
    match read_setting(env, u32::MAX as u64) {
        Some(v) => if v < 1 {
            1
        } else if v > 15 {
            15
        } else {
            v as u32
        },
        None => 0,
    }
}

/// Rows of logits that one verification reads: one more than the deepest
/// draft, and at least two.
pub fn spec_rows(mtp_depth: u32, ngram: u32) -> (n: u32)
    requires
        mtp_depth < u32::MAX,
        ngram < u32::MAX,
    ensures
        n == most(most(mtp_depth + 1, 2), if ngram > 0 {
            ngram + 1
        } else {
            0
        }),
{
    let mut n: u32 = mtp_depth + 1;
    if n < 2 {
        n = 2;
    }
    if ngram > 0 && ngram + 1 > n {
        n = ngram + 1;
    }
    n
}

/// What the routed experts of a chunk can need in the staging arena.
#[derive(Debug, Clone, Copy, PartialEq, Eq, Structural)]
pub struct Staging {
    /// Experts that each token uses.
    pub used: u32,
    /// Experts of a layer.
    pub n_expert: u32,
    /// Bytes of the largest slab.
    pub slab: u64,
}

/// `a` or `b`, whichever is less.
pub open spec fn less(a: int, b: int) -> int {
    if a <= b {
        a
    } else {
        b
    }
}

impl Staging {
    /// Bytes that a chunk of `n` tokens needs at worst: three slabs for each
    /// expert that some token uses, none twice, and the slack.
    pub open spec fn worst(self, n: int) -> int {
        less(n * self.used, self.n_expert as int) * (3 * self.slab) + SLAB_SLACK
    }

    /// Whether a chunk of `n` tokens needs no more than a third of `free` bytes.
    pub open spec fn fits(self, n: int, free: usize) -> bool {
        self.worst(n) <= free / 3
    }

    /// Bytes that a chunk of `n` tokens needs at worst, or all there are.
    pub fn worst_bytes(&self, n: u32) -> (r: usize)
        ensures
            r == less(self.worst(n as int), usize::MAX as int),
    {
        proof {
            let (a, b, c) = (n as int, self.used as int, self.slab as int);
            let d = less(a * b, self.n_expert as int);
            assert(0 <= a * b <= u32::MAX * u32::MAX) by (nonlinear_arith)
                requires
                    0 <= a <= u32::MAX,
                    0 <= b <= u32::MAX,
            ;
            assert(0 <= d * (3 * c) <= u32::MAX * (3 * u64::MAX)) by (nonlinear_arith)
                requires
                    0 <= d <= u32::MAX,
                    0 <= c <= u64::MAX,
            ;
        }
        let picks: u64 = n as u64 * self.used as u64;
        let experts: u64 = if picks <= self.n_expert as u64 {
            picks
        } else {
            self.n_expert as u64
        };
        let bytes: u128 = experts as u128 * (3 * self.slab as u128) + SLAB_SLACK as u128;
        if bytes <= usize::MAX as u128 {
            bytes as usize
        } else {
            usize::MAX
        }
    }

    /// The most tokens, up to `most`, of which a chunk fits.
    fn largest(&self, free: usize, most: u32) -> (n: u32)
        ensures
            n <= most,
            n >= 1 ==> self.fits(n as int, free),
            forall|m: int| n < m <= most && 1 <= m ==> !self.fits(m, free),
    {
        let room: usize = free / 3;
        if room < SLAB_SLACK {
            assert forall|m: int| 1 <= m implies !self.fits(m, free) by {
                let (u, e, s) = (self.used as int, self.n_expert as int, 3 * self.slab);
                assert(0 <= m * u) by (nonlinear_arith)
                    requires
                        1 <= m,
                        0 <= u,
                ;
                let d = less(m * u, e);
                assert(0 <= d * s) by (nonlinear_arith)
                    requires
                        0 <= d,
                        0 <= s,
                ;
            }
            return 0;
        }
        let rest: u128 = (room - SLAB_SLACK) as u128;
        let each: u128 = 3 * self.slab as u128;
        if each == 0 || self.used == 0 || rest / each >= self.n_expert as u128 {
            assert forall|m: int| 1 <= m implies self.fits(m, free) by {
                all_fit(*self, m, rest as int);
            }
            return most;
        }
        let slabs: u128 = rest / each;
        let n: u128 = slabs / self.used as u128;
        assert forall|m: int| 1 <= m implies (self.fits(m, free) <==> m <= n) by {
            some_fit(*self, m, rest as int, slabs as int);
        }
        if n < most as u128 {
            n as u32
        } else {
            most
        }
    }
}

proof fn all_fit(s: Staging, m: int, rest: int)
    requires
        1 <= m,
        0 <= rest,
        3 * s.slab == 0 || s.used == 0 || rest / (3 * s.slab) >= s.n_expert,
    ensures
        s.worst(m) <= rest + SLAB_SLACK,
{
    let (u, e, each) = (s.used as int, s.n_expert as int, 3 * s.slab);
    let d = less(m * u, e);
    if u == 0 {
        assert(m * u == 0) by (nonlinear_arith)
            requires
                u == 0,
        ;
    }
    assert(0 <= m * u) by (nonlinear_arith)
        requires
            1 <= m,
            0 <= u,
    ;
    if each == 0 || u == 0 {
        assert(d * each == 0) by (nonlinear_arith)
            requires
                each == 0 || d == 0,
        ;
    } else {
        let q = rest / each;
        assert(d * each <= q * each && q * each <= rest) by (nonlinear_arith)
            requires
                d <= q,
                0 < each,
                0 <= rest,
                q == rest / each,
        ;
    }
}

proof fn some_fit(s: Staging, m: int, rest: int, slabs: int)
    requires
        1 <= m,
        0 <= rest,
        0 < s.slab,
        0 < s.used,
        slabs == rest / (3 * s.slab),
        slabs < s.n_expert,
    ensures
        s.worst(m) <= rest + SLAB_SLACK <==> m <= slabs / s.used as int,
{
    let (u, e, each) = (s.used as int, s.n_expert as int, 3 * s.slab);
    let d = less(m * u, e);
    assert(d * each <= rest <==> d <= slabs) by (nonlinear_arith)
        requires
            0 < each,
            0 <= rest,
            slabs == rest / each,
    ;
    assert(m * u <= slabs <==> m <= slabs / u) by (nonlinear_arith)
        requires
            0 < u,
    ;
}

/// Tokens per prefill chunk: as set, at least one; else the most, within the
/// context, whose staging at worst fits a third of the free device memory, and
/// one where none does.
pub fn batch_size(env: Option<&str>, free: usize, staging: &Staging, ctx: u32) -> (n: u32)
    ensures
        n >= 1,
        match setting(env, u32::MAX as nat) {
            Some(v) => n == most(v as int, 1),
            None => {
                &&& n <= most(ctx as int, 1)
                &&& n > 1 ==> staging.fits(n as int, free)
                &&& forall|m: int| n < m <= ctx ==> !staging.fits(m, free)
            },
        },
{
    let n: u32 = match read_setting(env, u32::MAX as u64) {
        Some(v) => v as u32,
        None => staging.largest(free, ctx),
    };
    if n < 1 {
        1
    } else {
        n
    }
}

/// Size of the device expert cache in bytes: as many GiB as set; else what the
/// staging and the reserve leave of the free device memory. On unified memory
/// it would only duplicate the host cache, so there it is one byte.
pub fn dev_cache_bytes(unified: bool, env: Option<&str>, free: usize, staging: usize) -> (n:
    usize)
    ensures
        n == (if unified {
            1
        } else {
            match setting(env, usize::MAX as nat) {
                Some(v) => (v as usize).wrapping_mul(GIB) as int,
                None => most(free - staging - RESERVE, 0),
            }
        }),
{
    if unified {
        return 1;
    }
    match read_setting(env, usize::MAX as u64) {
        Some(v) => (v as usize).wrapping_mul(GIB),
        None => if free <= RESERVE || free - RESERVE <= staging {
            0
        } else {
            free - RESERVE - staging
        },
    }
}

/// What a setting says about unified memory, where it decides.
pub open spec fn unified_setting(env: Option<&str>) -> Option<bool> {
    match env {
        Some(v) => if v@ == "1"@ {
            Some(true)
        } else if v@ == "0"@ {
            Some(false)
        } else {
            None
        },
        None => None,
    }
}

/// Reads whether memory is to be taken as unified; `None` leaves it to the device.
pub fn unified_override(env: Option<&str>) -> (r: Option<bool>)
    ensures
        r == unified_setting(env),
        r == Some(true) <==> env is Some && env->0@ == "1"@,
        r == Some(false) <==> env is Some && env->0@ == "0"@,
{
    proof {
        reveal_strlit("0");
        reveal_strlit("1");
        assert("0"@[0] != "1"@[0]);
    }
    match env {
        Some(v) => if same_text(v, "1") {
            Some(true)
        } else if same_text(v, "0") {
            Some(false)
        } else {
            None
        },
        None => None,
    }
}

/// Which device attention was asked to live on.
#[derive(Debug, Clone, Copy, PartialEq, Eq, Structural)]
pub enum AttnChoice {
    /// Not on a device of its own.
    Off,
    /// On this device.
    Device(i32),
    /// On the best one there is.
    Auto,
}

/// The choice that a setting makes. A device that is the primary, or is not
/// there, or is no number, is ignored.
pub open spec fn attn_choice(env: Option<&str>, primary: i32, count: i32) -> AttnChoice {
    match env {
        None => AttnChoice::Auto,
        Some(v) => if v@ == "off"@ || v@ == "-1"@ {
            AttnChoice::Off
        } else {
            match signed_in(trimmed(v@), i32::MAX as nat) {
                Some(d) => if d != primary && 0 <= d < count {
                    AttnChoice::Device(d as i32)
                } else {
                    AttnChoice::Off
                },
                None => AttnChoice::Off,
            }
        },
    }
}

/// Reads which device attention is to live on.
pub fn read_attn_choice(env: Option<&str>, primary: i32, count: i32) -> (r: AttnChoice)
    ensures
        r == attn_choice(env, primary, count),
{
    match env {
        None => AttnChoice::Auto,
        Some(v) => {
            if same_text(v, "off") || same_text(v, "-1") {
                return AttnChoice::Off;
            }
            let chars: Vec<char> = to_chars(v);
            let (a, b) = trim_bounds(&chars);
            match parse_signed(piece(&chars, (a, b)), i32::MAX as i64) {
                Some(d) => if d != primary as i64 && 0 <= d && d < count as i64 {
                    AttnChoice::Device(d as i32)
                } else {
                    AttnChoice::Off
                },
                None => AttnChoice::Off,
            }
        },
    }
}

/// The two budgets for attention weights in device memory.
#[derive(Debug, Clone, Copy, PartialEq, Eq, Structural)]
pub struct AttnBudget {
    /// For the large tensors.
    pub large: i64,
    /// For the small ones, which stay pinned unless attention has a device
    /// of its own.
    pub small: i64,
}

/// A budget set in GiB, in bytes.
pub open spec fn budget_setting(env: Option<&str>) -> Option<i64> {
    match env {
        Some(v) => match signed_in(v@, i64::MAX as nat) {
            Some(n) => Some((n as i64).wrapping_mul(1_073_741_824)),
            None => None,
        },
        None => None,
    }
}

/// The budgets that attention weights start with.
pub open spec fn attn_budgets(env: Option<&str>, family: Family, attn_dev: bool) -> AttnBudget {
    AttnBudget {
        large: match (family, attn_dev, budget_setting(env)) {
            (Family::Gqa, _, _) => i64::MAX,
            (Family::Mla, _, Some(b)) => b,
            (Family::Mla, true, None) => i64::MAX,
            (Family::Mla, false, None) => 6_442_450_944,
        },
        small: if attn_dev {
            i64::MAX
        } else {
            0
        },
    }
}

/// Reads the budgets for attention weights.
pub fn attn_budget(env: Option<&str>, family: Family, attn_dev: bool) -> (b: AttnBudget)
    ensures
        b == attn_budgets(env, family, attn_dev),
{
    let set: Option<i64> = match env {
        Some(v) => {
            let chars: Vec<char> = to_chars(v);
            match parse_signed(&chars, i64::MAX) {
                Some(n) => Some(n.wrapping_mul(1_073_741_824)),
                None => None,
            }
        },
        None => None,
    };
    let large: i64 = match family {
        Family::Gqa => i64::MAX,
        Family::Mla => match set {
            Some(b) => b,
            None => if attn_dev {
                i64::MAX
            } else {
                6_442_450_944
            },
        },
    };
    let small: i64 = if attn_dev {
        i64::MAX
    } else {
        0
    };
    AttnBudget { large, small }
}

/// Whether a tensor of `bytes` goes into device memory, and what is left of
/// the budget then.
pub fn spend(budget: i64, bytes: usize, force_host: bool) -> (r: (bool, i64))
    requires
        bytes <= i64::MAX,
    ensures
        r.0 == (!force_host && budget >= bytes),
        r.1 == (if r.0 {
            budget - bytes
        } else {
            budget as int
        }),
{
    if !force_host && budget >= bytes as i64 {
        (true, budget - bytes as i64)
    } else {
        (false, budget)
    }
}

/// A value that is held within bounds is itself where it is within them, and the
/// nearer bound where it is not.
pub proof fn clamped_is_within(v: int, lo: int, hi: int)
    requires
        lo <= hi,
    ensures
        lo <= clamped(v, lo, hi) <= hi,
        lo <= v <= hi ==> clamped(v, lo, hi) == v,
        v < lo ==> clamped(v, lo, hi) == lo,
        v > hi ==> clamped(v, lo, hi) == hi,
        most(lo, hi) == hi,
        less(lo, hi) == lo,
{
}

/// The host cache is as large as set. Unset, it leaves six GiB of what is
/// available, but is at least four GiB, and at most 22 with attention on a device
/// of its own and twelve without; where nothing is known, it is that most.
pub proof fn host_cache_size(env: Option<&str>, attn_dev: bool, meminfo: Option<&str>)
    ensures
        ({
            let n = cache_gib(env, attn_dev, meminfo);
            let cap = if attn_dev {
                22int
            } else {
                12
            };
            &&& setting(env, usize::MAX as nat) matches Some(v) ==> n == v
            &&& setting(env, usize::MAX as nat) is None ==> {
                &&& 4 <= n <= cap
                &&& meminfo is None ==> n == cap
                &&& meminfo matches Some(m) ==> match available_kib(m@) {
                    None => n == cap,
                    Some(kib) => {
                        let gib = kib as int / 1_048_576;
                        &&& gib <= 10 ==> n == 4
                        &&& gib >= cap + 6 ==> n == cap
                        &&& 10 <= gib <= cap + 6 ==> n == gib - 6
                    },
                }
            }
        }),
{
}

/// What is available is the second word of the first line that begins so.
pub proof fn first_line_counts(all: Seq<Seq<char>>, prefix: Seq<char>, i: int, k: int)
    requires
        0 <= i <= k < all.len(),
        begins(all[k], prefix),
        forall|j: int| i <= j < k ==> !begins(#[trigger] all[j], prefix),
    ensures
        line_with(all, prefix, i) == Some(all[k]),
    decreases k - i,
{
    if i < k {
        assert(!begins(all[i], prefix));
        first_line_counts(all, prefix, i + 1, k);
    }
}

/// Staging holds three slabs for each expert that can be used, and a chunk uses no
/// more experts than it has picks, nor than there are.
pub proof fn staging_at_most(s: Staging, n: int)
    requires
        0 <= n,
    ensures
        n * s.used <= s.n_expert ==> s.worst(n) == n * s.used * (3 * s.slab) + SLAB_SLACK,
        n * s.used >= s.n_expert ==> s.worst(n) == s.n_expert * (3 * s.slab) + SLAB_SLACK,
{
}

/// Where attention lives: unset, where it is best; set to "off" or "-1", on no
/// device of its own; set to the number of a device other than the primary, there;
/// set to anything else, on none of its own.
pub proof fn attention_goes_where_set(env: &str, primary: i32, count: i32)
    ensures
        attn_choice(None, primary, count) == AttnChoice::Auto,
        env@ == "off"@ || env@ == "-1"@ ==> attn_choice(Some(env), primary, count)
            == AttnChoice::Off,
        attn_choice(Some(env), primary, count) matches AttnChoice::Device(d) ==> {
            &&& signed_in(trimmed(env@), i32::MAX as nat) == Some(d as int)
            &&& d != primary
            &&& 0 <= d < count
        },
        env@ != "off"@ && env@ != "-1"@ ==> (signed_in(trimmed(env@), i32::MAX as nat) matches Some(
            d,
        ) ==> d != primary && 0 <= d < count ==> attn_choice(Some(env), primary, count)
            == AttnChoice::Device(d as i32)),
        attn_choice(Some(env), primary, count) != AttnChoice::Auto,
{
}

/// Attention's weights: with grouped queries all on the device; with latent
/// attention as much as set, or all with a device of its own, or six GiB; and the
/// small ones only with a device of its own.
pub proof fn attention_budgets(env: Option<&str>, family: Family, attn_dev: bool)
    ensures
        ({
            let b = attn_budgets(env, family, attn_dev);
            &&& family == Family::Gqa ==> b.large == i64::MAX
            &&& family == Family::Mla && budget_setting(env) is None ==> b.large == (if attn_dev {
                i64::MAX as int
            } else {
                6 * 1_073_741_824int
            })
            &&& family == Family::Mla ==> (budget_setting(env) matches Some(x) ==> b.large == x)
            &&& b.small == (if attn_dev {
                i64::MAX as int
            } else {
                0
            })
        }),
{
}

} // verus!
