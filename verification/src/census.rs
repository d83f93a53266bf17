//! The slab popularity census: how often each expert slab was asked for,
//! kept between runs so that the next one starts warm.

use vstd::prelude::*;
use vstd::string::*;

use crate::le::{
    le_bytes, le_bytes_len, le_round_trip, le_value, pow256_values, push_le, read_le,
};
use crate::order::{rank, ranking_has_no_repeats, ranking_is_total};
use crate::store::Read;

verus! {

/// One slab's popularity.
#[derive(Debug, Clone, Copy, PartialEq, Eq, Structural)]
pub struct Heat {
    pub offset: u64,
    pub len: u64,
    pub count: u64,
}

/// Bytes of one record.
pub const RECORD: usize = 24;

/// One record: offset, length and count, eight bytes each.
pub open spec fn record(h: Heat) -> Seq<u8> {
    le_bytes(h.offset as nat, 8) + le_bytes(h.len as nat, 8) + le_bytes(h.count as nat, 8)
}

/// The file that holds `list`.
pub open spec fn census_bytes(list: Seq<Heat>) -> Seq<u8>
    decreases list.len(),
{
    if list.len() == 0 {
        Seq::empty()
    } else {
        census_bytes(list.drop_last()) + record(list.last())
    }
}

/// The record at the start of `b`.
pub open spec fn heat_at(b: Seq<u8>, at: int) -> Heat {
    Heat {
        offset: le_value(b.subrange(at, at + 8)) as u64,
        len: le_value(b.subrange(at + 8, at + 16)) as u64,
        count: le_value(b.subrange(at + 16, at + 24)) as u64,
    }
}

/// The records of a file; bytes after the last whole one are ignored.
pub open spec fn census_of(b: Seq<u8>) -> Seq<Heat> {
    Seq::new((b.len() / 24) as nat, |i: int| heat_at(b, 24 * i))
}

proof fn record_len(h: Heat)
    ensures
        record(h).len() == 24,
{
    le_bytes_len(h.offset as nat, 8);
    le_bytes_len(h.len as nat, 8);
    le_bytes_len(h.count as nat, 8);
}

proof fn record_reads_back(b: Seq<u8>, at: int, h: Heat)
    requires
        0 <= at,
        at + 24 <= b.len(),
        b.subrange(at, at + 24) == record(h),
    ensures
        heat_at(b, at) == h,
{
    pow256_values();
    le_round_trip(h.offset as nat, 8);
    le_round_trip(h.len as nat, 8);
    le_round_trip(h.count as nat, 8);
    let r = record(h);
    assert(b.subrange(at, at + 8) =~= r.subrange(0, 8));
    assert(b.subrange(at + 8, at + 16) =~= r.subrange(8, 16));
    assert(b.subrange(at + 16, at + 24) =~= r.subrange(16, 24));
    assert(r.subrange(0, 8) =~= le_bytes(h.offset as nat, 8));
    assert(r.subrange(8, 16) =~= le_bytes(h.len as nat, 8));
    assert(r.subrange(16, 24) =~= le_bytes(h.count as nat, 8));
}

proof fn census_bytes_len(list: Seq<Heat>)
    ensures
        census_bytes(list).len() == 24 * list.len(),
    decreases list.len(),
{
    if list.len() > 0 {
        census_bytes_len(list.drop_last());
        record_len(list.last());
    }
}

proof fn census_record(list: Seq<Heat>, i: int)
    requires
        0 <= i < list.len(),
    ensures
        24 * i + 24 <= census_bytes(list).len(),
        census_bytes(list).subrange(24 * i, 24 * i + 24) == record(list[i]),
    decreases list.len(),
{
    let init = list.drop_last();
    census_bytes_len(list);
    census_bytes_len(init);
    record_len(list.last());
    let b = census_bytes(list);
    if i == list.len() - 1 {
        assert(b.subrange(24 * i, 24 * i + 24) =~= record(list[i]));
    } else {
        census_record(init, i);
        assert(b.subrange(24 * i, 24 * i + 24) =~= census_bytes(init).subrange(
            24 * i,
            24 * i + 24,
        ));
    }
}

/// A census that was written is read back as it was.
pub proof fn census_round_trip(list: Seq<Heat>)
    ensures
        census_of(census_bytes(list)) == list,
{
    census_bytes_len(list);
    let b = census_bytes(list);
    assert forall|i: int| 0 <= i < list.len() implies heat_at(b, 24 * i) == list[i] by {
        census_record(list, i);
        record_reads_back(b, 24 * i, list[i]);
    }
    assert(census_of(b) =~= list);
}

/// Reads a census file.
pub fn read_census(bytes: &[u8]) -> (list: Vec<Heat>)
    ensures
        list@ == census_of(bytes@),
{
    let n: usize = bytes.len() / RECORD;
    let mut list: Vec<Heat> = Vec::new();
    let mut i: usize = 0;
    while i < n
        invariant
            i <= n,
            n == bytes.len() / 24,
            list@ == census_of(bytes@).take(i as int),
        decreases n - i,
    {
        assert(24 * i + 24 <= bytes.len());
        let at: usize = i * RECORD;
        proof {
            pow256_values();
        }
        let h: Heat = Heat {
            offset: read_le(bytes, at, 8),
            len: read_le(bytes, at + 8, 8),
            count: read_le(bytes, at + 16, 8),
        };
        assert(h == heat_at(bytes@, 24 * i));
        list.push(h);
        assert(list@ =~= census_of(bytes@).take(i + 1));
        i += 1;
    }
    assert(list@ =~= census_of(bytes@));
    list
}

/// Writes a census file.
pub fn write_census(list: &[Heat]) -> (out: Vec<u8>)
    ensures
        out@ == census_bytes(list@),
{
    let mut out: Vec<u8> = Vec::new();
    let mut i: usize = 0;
    assert(list@.take(0) =~= Seq::empty());
    while i < list.len()
        invariant
            i <= list@.len(),
            out@ == census_bytes(list@.take(i as int)),
        decreases list@.len() - i,
    {
        let h: Heat = list[i];
        let ghost before = out@;
        push_le(&mut out, h.offset, 8);
        push_le(&mut out, h.len, 8);
        push_le(&mut out, h.count, 8);
        assert(out@ =~= before + record(h));
        assert(list@.take(i + 1).drop_last() =~= list@.take(i as int));
        i += 1;
    }
    assert(list@.take(i as int) =~= list@);
    out
}

/// Where the census of a model file is kept.
pub fn warm_path(model: &str) -> (p: String)
    ensures
        p@ == model@ + ".warm"@,
{
    let mut p: String = String::from_str(model);
    p.append(".warm");
    p
}

/// Whether `list` has an entry for everything in `touch` and nothing else,
/// none twice, the most popular first.
pub open spec fn lists(list: Seq<Heat>, touch: Map<u64, (u64, u64)>) -> bool {
    &&& forall|i: int|
        0 <= i < list.len() ==> {
            let h = #[trigger] list[i];
            touch.contains_key(h.offset) && touch[h.offset] == (h.count, h.len)
        }
    &&& forall|o: u64| #[trigger]
        touch.contains_key(o) ==> exists|i: int|
            0 <= i < list.len() && (#[trigger] list[i]).offset == o
    &&& forall|i: int, j: int|
        0 <= i < j < list.len() ==> (#[trigger] list[i]).offset != (#[trigger] list[j]).offset
    &&& forall|i: int, j: int|
        0 <= i < j < list.len() ==> (#[trigger] list[i]).count >= (#[trigger] list[j]).count
}

/// Puts a list with one entry per touched slab into order, most popular first.
pub(crate) fn by_popularity(list: &Vec<Heat>, touch: Ghost<Map<u64, (u64, u64)>>) -> (out: Vec<Heat>)
    requires
        forall|i: int|
            0 <= i < list@.len() ==> {
                let h = #[trigger] list@[i];
                touch@.contains_key(h.offset) && touch@[h.offset] == (h.count, h.len)
            },
        forall|o: u64| #[trigger]
            touch@.contains_key(o) ==> exists|i: int|
                0 <= i < list@.len() && (#[trigger] list@[i]).offset == o,
        forall|i: int, j: int|
            0 <= i < j < list@.len() ==> (#[trigger] list@[i]).offset != (#[trigger] list@[j]).offset,
    ensures
        lists(out@, touch@),
{
    let mut keys: Vec<u64> = Vec::new();
    let mut i: usize = 0;
    while i < list.len()
        invariant
            i <= list@.len(),
            keys@.len() == i,
            forall|k: int| 0 <= k < i ==> #[trigger] keys@[k] == list@[k].count,
        decreases list@.len() - i,
    {
        keys.push(list[i].count);
        i += 1;
    }
    let p: Vec<usize> = rank(&keys);
    let mut out: Vec<Heat> = Vec::new();
    let mut k: usize = 0;
    while k < p.len()
        invariant
            k <= p@.len(),
            keys@.len() == list@.len(),
            forall|x: int| 0 <= x < p@.len() ==> #[trigger] p@[x] < keys@.len(),
            out@.len() == k,
            forall|x: int| 0 <= x < k ==> #[trigger] out@[x] == list@[p@[x] as int],
        decreases p@.len() - k,
    {
        out.push(list[p[k]]);
        k += 1;
    }
    proof {
        ranking_has_no_repeats(keys@, p@);
        assert forall|o: u64| #[trigger] touch@.contains_key(o) implies exists|x: int|
            0 <= x < out@.len() && (#[trigger] out@[x]).offset == o by {
            let y = choose|y: int| 0 <= y < list@.len() && (#[trigger] list@[y]).offset == o;
            ranking_is_total(keys@, p@, y);
            let x = choose|x: int| 0 <= x < p@.len() && p@[x] == y as usize;
            assert(out@[x] == list@[p@[x] as int]);
        }
        assert forall|x: int, y: int| 0 <= x < y < out@.len() implies (#[trigger] out@[x]).offset
            != (#[trigger] out@[y]).offset by {
            assert(p@[x] != p@[y]);
            assert(out@[x] == list@[p@[x] as int]);
            assert(out@[y] == list@[p@[y] as int]);
        }
        assert forall|x: int, y: int| 0 <= x < y < out@.len() implies (#[trigger] out@[x]).count
            >= (#[trigger] out@[y]).count by {
            assert(keys@[p@[x] as int] >= keys@[p@[y] as int]);
        }
    }
    out
}

/// What a warm start loads, and where.
pub struct WarmPlan {
    /// Touch counts to seed, in this order.
    pub seeds: Vec<Heat>,
    /// Slabs for the device cache.
    pub device: Vec<Read>,
    /// Slabs for the host cache.
    pub host: Vec<Read>,
}

/// The reads that `list` stands for.
pub open spec fn reads(list: Seq<Heat>) -> Seq<Read> {
    list.map_values(|h: Heat| Read { offset: h.offset, len: h.len })
}

/// The entries of `list` that no tier holds.
pub open spec fn outside(list: Seq<Heat>, in_tier: Seq<bool>) -> Seq<Heat>
    decreases list.len(),
{
    if list.len() == 0 {
        Seq::empty()
    } else {
        let before = outside(list.drop_last(), in_tier);
        if in_tier[list.len() - 1] {
            before
        } else {
            before.push(list.last())
        }
    }
}

/// The longest prefix of `list` whose lengths stay within `budget`.
pub open spec fn fitting(list: Seq<Heat>, budget: int) -> Seq<Heat>
    decreases list.len(),
{
    if list.len() == 0 || list[0].len > budget {
        Seq::empty()
    } else {
        seq![list[0]] + fitting(list.drop_first(), budget - list[0].len)
    }
}

/// At most `n` entries of `list`.
pub open spec fn at_most(list: Seq<Heat>, n: int) -> Seq<Heat> {
    if n < list.len() {
        list.take(n)
    } else {
        list
    }
}

/// The entries of `list` after the first `n`.
pub open spec fn after(list: Seq<Heat>, n: int) -> Seq<Heat> {
    if n < list.len() {
        list.skip(n)
    } else {
        Seq::empty()
    }
}

fn as_reads(list: &Vec<Heat>, from: usize, to: usize) -> (out: Vec<Read>)
    requires
        from <= to <= list@.len(),
    ensures
        out@ == reads(list@.subrange(from as int, to as int)),
{
    let mut out: Vec<Read> = Vec::new();
    let mut i: usize = from;
    while i < to
        invariant
            from <= i <= to <= list@.len(),
            out@ == reads(list@.subrange(from as int, i as int)),
        decreases to - i,
    {
        out.push(Read { offset: list[i].offset, len: list[i].len });
        i += 1;
        assert(out@ =~= reads(list@.subrange(from as int, i as int)));
    }
    assert(out@ =~= reads(list@.subrange(from as int, to as int)));
    out
}

/// Plans a warm start from a census: slabs that a tier holds are left out,
/// the hottest fill the device slots, and the next ones the host budget.
pub fn load_warm(list: &[Heat], in_tier: &[bool], dev_slots: usize, host_budget: usize) -> (plan:
    WarmPlan)
    requires
        in_tier@.len() == list@.len(),
    ensures
        plan.seeds@ == outside(list@, in_tier@),
        plan.device@ == reads(at_most(plan.seeds@, dev_slots as int)),
        plan.host@ == reads(fitting(after(plan.seeds@, dev_slots as int), host_budget as int)),
{
    let mut seeds: Vec<Heat> = Vec::new();
    let mut i: usize = 0;
    assert(list@.take(0) =~= Seq::empty());
    while i < list.len()
        invariant
            i <= list@.len(),
            in_tier@.len() == list@.len(),
            seeds@ == outside(list@.take(i as int), in_tier@),
        decreases list@.len() - i,
    {
        assert(list@.take(i + 1).drop_last() =~= list@.take(i as int));
        if !in_tier[i] {
            seeds.push(list[i]);
        }
        i += 1;
    }
    assert(list@.take(i as int) =~= list@);
    let cut: usize = if dev_slots < seeds.len() {
        dev_slots
    } else {
        seeds.len()
    };
    let device: Vec<Read> = as_reads(&seeds, 0, cut);
    let mut left: u64 = host_budget as u64;
    let mut end: usize = cut;
    let ghost tail = after(seeds@, dev_slots as int);
    assert(tail =~= seeds@.subrange(cut as int, seeds@.len() as int));
    assert(seeds@.subrange(cut as int, cut as int) + fitting(tail, host_budget as int) =~= fitting(
        tail,
        host_budget as int,
    ));
    loop
        invariant
            cut <= end <= seeds@.len(),
            left <= host_budget,
            fitting(tail, host_budget as int) == seeds@.subrange(cut as int, end as int) + fitting(
                seeds@.subrange(end as int, seeds@.len() as int),
                left as int,
            ),
        ensures
            fitting(tail, host_budget as int) == seeds@.subrange(cut as int, end as int),
        decreases seeds@.len() - end,
    {
        let ghost rest = seeds@.subrange(end as int, seeds@.len() as int);
        if end == seeds.len() || seeds[end].len > left {
            assert(fitting(rest, left as int) =~= Seq::empty());
            assert(fitting(tail, host_budget as int) =~= seeds@.subrange(cut as int, end as int));
            break;
        }
        proof {
            let head = seeds@.subrange(cut as int, end as int);
            let more = seeds@.subrange(end + 1, seeds@.len() as int);
            assert(rest.drop_first() =~= more);
            assert(seeds@.subrange(cut as int, end + 1) =~= head.push(seeds@[end as int]));
            assert(head + (seq![rest[0]] + fitting(more, left - rest[0].len)) =~= head.push(
                rest[0],
            ) + fitting(more, left - rest[0].len));
        }
        left = left - seeds[end].len;
        end += 1;
    }
    let host: Vec<Read> = as_reads(&seeds, cut, end);
    assert(seeds@.subrange(0, cut as int) =~= at_most(seeds@, dev_slots as int));
    WarmPlan { seeds, device, host }
}

} // verus!
