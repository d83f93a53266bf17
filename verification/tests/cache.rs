use std::collections::HashMap;

use pulsar::census::{load_warm, read_census, warm_path, write_census, Heat};
use pulsar::expert::ExpertTensor;
use pulsar::grouping::{group_slots, use_groups};
use pulsar::order::rank;
use pulsar::resolve::{
    active_tiers, distinct_experts, find_home, plan_reads, predicts, prefetch_layer,
    prefetch_predicted, reads_layer_ahead, sort_slots, ExpertPtrs, Place, Resolve, Target, TierHome,
};
use pulsar::settings::Staging;
use pulsar::slab_cache::{listed, DeviceSlabCache, SLAB_SLACK};
use pulsar::store::{add_len, Read, Step, StreamingStore};
use pulsar::tiers::{
    counts_fit, fill_tier, fill_tiers, rank_triples, tier_candidates, tier_of, tier_pool, ExpertTier, MoeTensors,
    Placement, Triple, RESERVE,
};

fn put(c: &mut DeviceSlabCache, offset: u64, in_use: &[u64]) -> Option<usize> {
    let slot = c.maybe_insert(offset, in_use)?;
    Some(c.fill(slot, offset))
}

#[test]
fn the_pool_keeps_a_hot_set() {
    let mut c = DeviceSlabCache::new(250, 100);
    assert_eq!(c.slots(), 2);
    assert_eq!(c.pool_bytes(), 200 + SLAB_SLACK);
    assert_eq!(c.get(10, 100), None);
    assert_eq!(put(&mut c, 10, &[]), Some(0));
    assert_eq!(c.get(20, 100), None);
    assert_eq!(put(&mut c, 20, &[]), Some(100));
    assert_eq!(c.get(20, 100), Some(100));
    // as cold as the coldest resident: not worth a slot
    assert_eq!(c.get(30, 100), None);
    assert_eq!(put(&mut c, 30, &[]), None);
    // strictly hotter: takes the coldest one's place
    assert_eq!(c.get(30, 100), None);
    assert_eq!(put(&mut c, 30, &[]), Some(0));
    assert!(c.holds(30) && c.holds(20) && !c.holds(10));
    assert_eq!((c.hits, c.misses), (1, 4));
    c.reset_stats();
    assert_eq!((c.hits, c.misses), (0, 0));
}

#[test]
fn slabs_in_use_are_never_evicted() {
    let mut c = DeviceSlabCache::new(100, 100);
    c.get(1, 100);
    put(&mut c, 1, &[]);
    for _ in 0..5 {
        c.get(2, 100);
    }
    assert_eq!(put(&mut c, 2, &[1]), None);
    assert_eq!(put(&mut c, 2, &[7]), Some(0));
    assert!(listed(&[3, 4], 4) && !listed(&[3, 4], 5));
}

#[test]
fn there_is_always_a_slot() {
    assert_eq!(DeviceSlabCache::new(10, 100).slots(), 1);
    assert_eq!(DeviceSlabCache::new(3, 0).slots(), 3);
}

#[test]
fn a_census_survives_a_file() {
    let list = vec![
        Heat { offset: 1 << 40, len: 7, count: 3 },
        Heat { offset: u64::MAX, len: 0, count: 1 },
    ];
    let bytes = write_census(&list);
    assert_eq!(bytes.len(), 48);
    assert_eq!(&bytes[..8], &[0, 0, 0, 0, 0, 1, 0, 0]);
    assert_eq!(read_census(&bytes), list);
    // a torn last record is ignored
    assert_eq!(read_census(&bytes[..40]), list[..1].to_vec());
    assert_eq!(warm_path("/models/a.gguf"), "/models/a.gguf.warm");
}

#[test]
fn a_fresh_cache_seeded_with_a_census_counts_alike() {
    let mut c = DeviceSlabCache::new(100, 100);
    for (o, n) in [(5u64, 2), (6, 9), (7, 4)] {
        for _ in 0..n {
            c.get(o, o * 10);
        }
    }
    c.keep_warm(5, 50);
    let list = c.census();
    let counts: Vec<(u64, u64, u64)> = list.iter().map(|h| (h.offset, h.len, h.count)).collect();
    assert_eq!(counts, vec![(6, 60, 9), (7, 70, 4), (5, 50, 3)]);
    let mut fresh = DeviceSlabCache::new(100, 100);
    fresh.seed(&read_census(&write_census(&list)));
    assert_eq!(fresh.census(), list);
}

#[test]
fn a_warm_start_fills_device_then_host() {
    let h = |offset: u64, len: u64| Heat { offset, len, count: 100 - offset };
    let list = vec![h(1, 10), h(2, 10), h(3, 10), h(4, 10), h(5, 10), h(6, 1)];
    let plan = load_warm(&list, &[false, true, false, false, false, false], 2, 15);
    assert_eq!(plan.seeds.len(), 5);
    let offs = |v: &[Read]| v.iter().map(|r| r.offset).collect::<Vec<u64>>();
    assert_eq!(offs(&plan.device), vec![1, 3]);
    // the first that does not fit ends the list, though a later one would
    assert_eq!(offs(&plan.host), vec![4]);
    let all = load_warm(&list, &[false; 6], 10, 0);
    assert_eq!((all.device.len(), all.host.len()), (6, 0));
}

#[test]
fn rankings_are_highest_first() {
    let keys = [3, 9, 9, 1, 7];
    let p = rank(&keys);
    let sorted: Vec<u64> = p.iter().map(|&i| keys[i]).collect();
    assert_eq!(sorted, vec![9, 9, 7, 3, 1]);
    let mut seen = p.clone();
    seen.sort_unstable();
    assert_eq!(seen, vec![0, 1, 2, 3, 4]);
}

fn resolve_all(s: &mut StreamingStore, wants: &[Read]) -> (Vec<u64>, Vec<u64>, Vec<u64>) {
    let mut job = s.ensure_begin();
    let mut placed = Vec::new();
    loop {
        match s.ensure_next(wants, &mut job) {
            Step::Place(o) => placed.push(o),
            Step::Done => return (placed, Vec::new(), Vec::new()),
            Step::Fetch(gone) => {
                for r in &job.missing {
                    s.fetched(r.offset, r.len as usize);
                }
                return (placed, gone, job.missing.iter().map(|r| r.offset).collect());
            }
        }
    }
}

#[test]
fn the_store_evicts_the_least_wanted() {
    let r = |offset: u64| Read { offset, len: 10 };
    let mut s = StreamingStore::open(30);
    assert_eq!(resolve_all(&mut s, &[r(1), r(2), r(3)]), (vec![], vec![], vec![1, 2, 3]));
    assert_eq!(s.used_bytes(), 30);
    // 1 and 3 are wanted again; 2 is now the coldest
    assert_eq!(resolve_all(&mut s, &[r(1), r(3)]), (vec![1, 3], vec![], vec![]));
    assert_eq!(resolve_all(&mut s, &[r(3), r(4)]), (vec![3], vec![2], vec![4]));
    assert!(s.contains(1) && s.contains(3) && s.contains(4) && !s.contains(2));
    assert_eq!((s.hits, s.misses), (3, 4));
    s.reset_stats();
    assert_eq!((s.hits, s.misses), (0, 0));
    assert_eq!(add_len(&[r(1), r(2)]), 20);
}

#[test]
fn the_store_spares_what_is_wanted_now() {
    let r = |offset: u64| Read { offset, len: 10 };
    let mut s = StreamingStore::open(20);
    resolve_all(&mut s, &[r(1), r(2)]);
    // both residents are wanted: nothing can leave, and the budget gives way
    assert_eq!(resolve_all(&mut s, &[r(1), r(2), r(3)]), (vec![1, 2], vec![], vec![3]));
    assert_eq!(s.used_bytes(), 30);
}

#[test]
fn slabs_read_ahead_are_taken_in() {
    let mut s = StreamingStore::open(20);
    assert_eq!(s.absorb(1, 10), Some(vec![]));
    assert_eq!(s.absorb(1, 10), None);
    assert_eq!(s.absorb(2, 10), Some(vec![]));
    let gone = s.absorb(3, 10).unwrap();
    assert_eq!(gone.len(), 1);
    assert_eq!(s.used_bytes(), 20);
    // larger than the budget: everything leaves, and it goes in all the same
    assert_eq!(s.absorb(4, 100).unwrap().len(), 2);
    assert_eq!(s.used_bytes(), 100);
}

fn tensor(abs_offset: u64, expert_bytes: u64) -> ExpertTensor {
    ExpertTensor { abs_offset, expert_bytes, row_bytes: 2, quant: 1 }
}

fn layer(base: u64) -> MoeTensors {
    MoeTensors { gate: tensor(base, 10), up: tensor(base + 100, 10), down: tensor(base + 200, 20) }
}

#[test]
fn triples_are_ranked_by_summed_heat() {
    let h = |offset: u64, count: u64| Heat { offset, len: 10, count };
    // expert 1 of the first layer: 5 + 1; expert 0 of the second: 4; rest cold
    let census = [h(10, 5), h(220, 1), h(1000, 4), h(77, 9)];
    let t = rank_triples(&census, &[layer(0), layer(1000)], 4);
    let heats: Vec<(u64, u64)> = t.iter().map(|t| (t.heat, t.gate.offset)).collect();
    assert_eq!(heats, vec![(6, 10), (4, 1000)]);
    assert_eq!(t[0].down, Read { offset: 220, len: 20 });
    assert!(counts_fit(&census) && counts_fit(&[h(1, u64::MAX / 3)]));
    assert!(!counts_fit(&[h(1, 2), h(1, u64::MAX / 3 + 1)]));
}

#[test]
fn tiers_are_filled_until_one_does_not_fit() {
    let t = |base: u64| Triple {
        heat: 1,
        gate: Read { offset: base, len: 10 },
        up: Read { offset: base + 1, len: 10 },
        down: Read { offset: base + 2, len: 20 },
    };
    let triples = [t(0), t(10), t(20), t(30)];
    let f = fill_tier(&triples, 0, 100 + SLAB_SLACK);
    assert_eq!((f.placed.len(), f.cursor), (6, 80));
    // the third did not fit: the next tier starts with it
    assert_eq!(f.next, 2);
    let at: Vec<usize> = f.placed.iter().map(|p| p.at).collect();
    assert_eq!(at, vec![0, 10, 20, 40, 50, 60]);
    let g = fill_tier(&triples, f.next, 100 + SLAB_SLACK);
    assert_eq!((g.placed.len(), g.next), (6, 4));
    assert_eq!(g.placed[0].slab.offset, 20);
    assert_eq!(tier_pool(2 * RESERVE), None);
    assert_eq!(tier_pool(2 * RESERVE + 1), Some(RESERVE + 1));
    assert_eq!(tier_candidates(4, 0, Some(2)), vec![1, 3]);
    assert!(tier_candidates(-1, 0, None).is_empty());
}

#[test]
fn tiers_hold_the_hottest_triples() {
    let t = |heat: u64, base: u64, n: u64| Triple {
        heat,
        gate: Read { offset: base, len: n },
        up: Read { offset: base + 1, len: n },
        down: Read { offset: base + 2, len: n },
    };
    let triples = [t(9, 0, 10), t(7, 10, 30), t(5, 20, 10), t(3, 30, 10), t(1, 40, 10)];
    let pools = [50 + SLAB_SLACK, SLAB_SLACK, 120 + SLAB_SLACK];
    let plans = fill_tiers(&triples, &pools);
    let held: Vec<Vec<u64>> = plans
        .iter()
        .map(|f| f.placed.iter().step_by(3).map(|p| p.slab.offset).collect())
        .collect();
    // the second did not fit the first pool and opens the third
    assert_eq!(held, vec![vec![0], vec![], vec![10, 20]]);
    assert_eq!(plans[2].next, 3);
    assert_eq!(plans[2].cursor, 120);
    assert!(fill_tiers(&triples, &[]).is_empty());
}

fn tier_with(l: &MoeTensors, e: u64) -> ExpertTier {
    let p = |offset: u64, at: usize| Placement { slab: Read { offset, len: 1 }, at };
    ExpertTier::new(
        3,
        &[
            p(l.gate.abs_offset + e * 10, 500),
            p(l.up.abs_offset + e * 10, 510),
            p(l.down.abs_offset + e * 20, 520),
        ],
    )
}

#[test]
fn distinct_experts_are_sorted_and_valid() {
    assert_eq!(distinct_experts(&[3, -1, 3, 0, 9, 8, 7], 8), vec![0, 3, 7]);
    assert!(distinct_experts(&[], 8).is_empty());
    // picks and experts both bound how many there are, and so what is staged
    let picks: Vec<i32> = (0..20).map(|i| i % 10).collect();
    let s = Staging { used: 4, n_expert: 8, slab: 100 };
    let need = |n: usize| n * 3 * 100 + SLAB_SLACK;
    assert_eq!(distinct_experts(&picks, 8).len(), 8);
    assert_eq!(need(8), s.worst_bytes(5));
    assert_eq!(distinct_experts(&picks[..4], 8).len(), 4);
    assert_eq!(need(4), s.worst_bytes(1));
}

#[test]
fn a_tier_needs_the_whole_triple() {
    let l = layer(0);
    let whole = tier_with(&l, 2);
    let p = |offset: u64, at: usize| Placement { slab: Read { offset, len: 1 }, at };
    let half = ExpertTier::new(1, &[p(20, 0), p(120, 8)]);
    let tiers = vec![half, whole];
    let none = HashMap::new();
    assert_eq!(
        find_home(&tiers, &none, &l, 2),
        Some(TierHome { tier: 1, gate: 500, up: 510, down: 520 })
    );
    assert_eq!(find_home(&tiers, &none, &l, 1), None);
    let mut draft = HashMap::new();
    draft.insert(20u64, 0usize);
    assert_eq!(find_home(&tiers, &draft, &l, 2), None);
    assert_eq!(tier_of(&tiers, 120), Some(0));
    assert_eq!(tier_of(&tiers, 240), Some(1));
    assert_eq!(tier_of(&tiers, 5), None);
}

#[test]
fn a_layer_step_is_resolved() {
    let l = layer(0);
    let tiers = vec![tier_with(&l, 2)];
    let none = HashMap::new();
    let selected = [1, 2, 5, 1, -1, 2];
    let distinct = distinct_experts(&selected, 8);
    let mut cache = DeviceSlabCache::new(20, 20);
    let reads = plan_reads(&mut cache, &tiers, &none, &l, 8, &distinct);
    let offs: Vec<u64> = reads.iter().map(|r| r.offset).collect();
    assert_eq!(offs, vec![10, 110, 220, 50, 150, 300]);
    let mut r = Resolve::begin(&mut cache, &none, false, &l, &reads);
    assert_eq!((r.wants.len(), r.slab), (6, 20));
    assert_eq!(r.staging_need(100), Some(120 + SLAB_SLACK));
    assert_eq!(r.staging_need(120), None);
    // the one slot takes the first; the others are staged one behind the other
    let mut bases = Vec::new();
    for want in r.wants.clone() {
        let t = r.target(&mut cache, want.offset);
        if let Target::Staging(b) = t {
            bases.push(b);
        }
        r.landed(&mut cache, want.offset, t);
    }
    assert_eq!(bases, vec![0, 20, 40, 60, 80]);
    let s = sort_slots(&selected, &tiers, &none, &l, 4, 8, &r.resolved);
    assert_eq!(
        s.here[0],
        Some(ExpertPtrs {
            gate: Place::Cache(0),
            up: Place::Staging(0),
            up_off: 4,
            down: Place::Staging(20)
        })
    );
    assert_eq!(s.here[0], s.here[3]);
    assert_eq!((s.here[1], s.here[4]), (None, None));
    assert_eq!(s.tier_slots, vec![2]);
    assert_eq!(s.on_tier[0][1], Some(TierHome { tier: 0, gate: 500, up: 510, down: 520 }));
    assert_eq!(s.on_tier[0][0], None);
    assert_eq!(active_tiers(&s.tier_slots), vec![0]);
    // the tier's slabs were counted, so their heat does not freeze
    assert!(cache.census().iter().any(|h| h.offset == 20 && h.count == 1));
    // gathered: expert 1 has slots 0 and 3, expert 5 slot 2
    let g = group_slots(&s.here, 2);
    assert_eq!(g.starts, vec![0, 2, 3]);
    assert_eq!(g.pairs, vec![0, 1 << 4 | 1, 1 << 4]);
    assert_eq!(g.ptrs.len(), 2);
}

#[test]
fn draft_experts_and_unified_memory_bypass_the_cache() {
    let l = layer(0);
    let mut draft = HashMap::new();
    for (k, o) in [10u64, 110, 220].iter().enumerate() {
        draft.insert(*o, k * 100);
    }
    let mut cache = DeviceSlabCache::new(100, 20);
    let reads = plan_reads(&mut cache, &[], &draft, &l, 8, &[1, 2]);
    let mut r = Resolve::begin(&mut cache, &draft, true, &l, &reads);
    assert_eq!(r.resolved.get(&110), Some(&Place::Draft(100)));
    assert_eq!(r.wants.len(), 3);
    assert_eq!(cache.misses, 0);
    let t = r.target(&mut cache, 20);
    assert_eq!(t, Target::Host);
    r.landed(&mut cache, 20, t);
    assert_eq!(r.resolved.get(&20), Some(&Place::Host(20)));
}

#[test]
fn fused_tensors_are_read_once() {
    let t = tensor(0, 10);
    let l = MoeTensors { gate: t, up: t, down: tensor(100, 10) };
    let mut cache = DeviceSlabCache::new(100, 10);
    let reads = plan_reads(&mut cache, &[], &HashMap::new(), &l, 4, &[0, 3]);
    let offs: Vec<u64> = reads.iter().map(|r| r.offset).collect();
    assert_eq!(offs, vec![0, 100, 30, 130]);
}

#[test]
fn only_absent_slabs_are_read_ahead() {
    let l = layer(0);
    let tiers = vec![tier_with(&l, 2)];
    let mut store = StreamingStore::open(100);
    store.absorb(10, 10);
    let mut cache = DeviceSlabCache::new(100, 20);
    cache.get(110, 10);
    put(&mut cache, 110, &[]);
    let reads = prefetch_predicted(&store, &cache, &tiers, &l, 3, &[1, 2, 3, -1]);
    let offs: Vec<u64> = reads.iter().map(|r| r.offset).collect();
    assert_eq!(offs, vec![220]);
    let reads = prefetch_layer(&store, &cache, &tiers, &l, 3);
    let offs: Vec<u64> = reads.iter().map(|r| r.offset).collect();
    assert_eq!(offs, vec![0, 100, 200, 220]);
    assert!(predicts(1, false) && !predicts(2, false) && !predicts(1, true));
    assert!(reads_layer_ahead(9, false) && !reads_layer_ahead(8, false));
}

#[test]
fn grouping_needs_room_in_shared_memory() {
    assert!(use_groups(16, 8, 6144, 6144, 12288, 1536, false));
    assert!(!use_groups(15, 8, 6144, 6144, 12288, 1536, false));
    assert!(!use_groups(16, 17, 6144, 6144, 12288, 1536, false));
    assert!(!use_groups(16, 8, 6144, 6145, 12288, 1536, false));
    assert!(!use_groups(16, 8, 6144, 6144, 12289, 1536, false));
    assert!(!use_groups(16, 8, 6144, 6144, 12288, 704, false));
    assert!(!use_groups(16, 8, 6144, 6144, 12288, 1536, true));
}
