//! The laws of the move algebra on concrete fleets.

use fulcrum::planner::max_min_fair::{pair_transfer, transfer_move, TransferVerdict};
use fulcrum::replay::classify_events;
use fulcrum::util::util_le_exec;
use fulcrum::{
    Capacity, EventKind, Fleet, HotToCold, MachineId, Mass, Neutral, ParsedEvent, Remove,
    TypedMove, WorkloadGen,
};

/// Every dimension of every machine is at most `tn / td` utilized.
fn within(f: &Fleet<2>, tn: u64, td: u64) -> bool {
    f.iter().all(|(_, s)| (0..2).all(|d| util_le_exec(s.load.0[d], s.capacity.0[d], tn, td)))
}

fn hetero() -> Fleet<2> {
    let mut f: Fleet<2> = Fleet::new();
    f.add_machine(MachineId(1), Capacity([100, 100]), Mass([80, 30]));
    f.add_machine(MachineId(2), Capacity([200, 100]), Mass([40, 70]));
    f.add_machine(MachineId(3), Capacity([400, 100]), Mass([0, 10]));
    f
}

#[test]
fn hot_to_cold_keeps_the_worst_utilization_bound() {
    let mut f = hetero();
    assert!(within(&f, 8, 10));
    let m = HotToCold::witness(MachineId(1), MachineId(3), Mass([60, 20]), &f).unwrap();
    m.apply_to(&mut f);
    assert_eq!(f.load(MachineId(1)), Some(Mass([20, 10])));
    assert_eq!(f.load(MachineId(3)), Some(Mass([60, 30])));
    assert!(within(&f, 8, 10));
}

#[test]
fn hot_to_cold_is_robin_hood_in_each_moved_dimension() {
    let before = hetero();
    let mut f = hetero();
    let m = HotToCold::witness(MachineId(1), MachineId(2), Mass([30, 0]), &f).unwrap();
    m.apply_to(&mut f);
    let (s0, d0) = (before.spec(MachineId(1)).unwrap(), before.spec(MachineId(2)).unwrap());
    let (s1, d1) = (f.spec(MachineId(1)).unwrap(), f.spec(MachineId(2)).unwrap());
    // 50/100 and 70/200 are both at most the source's old 80/100.
    assert!(util_le_exec(s1.load.0[0], 100, s0.load.0[0], 100));
    assert!(util_le_exec(d1.load.0[0], 200, s0.load.0[0], 100));
    // 50/100 + 70/200 = 0.85 ≤ 80/100 + 40/200 = 1.0, over the denominator 100 · 200.
    assert!(s1.load.0[0] * 200 + d1.load.0[0] * 100 <= s0.load.0[0] * 200 + d0.load.0[0] * 100);
}

#[test]
fn remove_keeps_the_worst_utilization_bound() {
    let mut f = hetero();
    assert!(within(&f, 8, 10));
    Remove::new(MachineId(2), Mass([40, 35])).apply_to(&mut f).unwrap();
    assert_eq!(f.load(MachineId(2)), Some(Mass([0, 35])));
    assert!(within(&f, 8, 10));
}

#[test]
fn neutral_can_raise_the_worst_utilization() {
    // Two machines at 50/100 meet a 55% bound; a neutral migration of 10
    // leaves the destination at 60/100, over it.
    let mut f: Fleet<1> = Fleet::new();
    f.add_machine(MachineId(1), Capacity([100]), Mass([50]));
    f.add_machine(MachineId(2), Capacity([100]), Mass([50]));
    let m = Neutral::witness(MachineId(1), MachineId(2), Mass([10]), &f).unwrap();
    m.apply_to(&mut f);
    assert_eq!(f.load(MachineId(2)), Some(Mass([60])));
    assert!(!util_le_exec(60, 100, 55, 100));
}

#[test]
fn every_emitted_rebalance_transfer_is_admissible() {
    let f = hetero();
    let src = *f.spec(MachineId(1)).unwrap();
    let dst = *f.spec(MachineId(3)).unwrap();
    match pair_transfer(&src, &dst) {
        TransferVerdict::Emit { worst_d, mass } => {
            assert_eq!((worst_d, mass), (0, 80));
            match transfer_move(&f, MachineId(1), MachineId(3), worst_d, mass) {
                Some(TypedMove::HotToCold(h)) => {
                    assert_eq!(h.mass, Mass([80, 0]));
                    assert!(HotToCold::witness(h.source, h.destination, h.mass, &f).is_some());
                }
                _ => panic!("an emitted transfer must pass the witness"),
            }
        }
        v => panic!("expected an emit, got {:?}", v),
    }
}

fn ev(time: u64, kind: EventKind, inst: &str, machine: u64, mass: u64) -> ParsedEvent {
    ParsedEvent { time, kind, instance: inst.to_string(), machine: MachineId(machine), mass: Mass([mass]) }
}

#[test]
fn replay_history_counts_applied_events_and_never_skips() {
    let events = vec![
        ev(1, EventKind::Schedule, "a", 1, 30),
        ev(2, EventKind::Schedule, "b", 2, 10),
        ev(3, EventKind::Schedule, "a", 2, 30),
        ev(4, EventKind::Schedule, "a", 2, 30),
        ev(5, EventKind::Remove, "b", 0, 0),
        ev(6, EventKind::Remove, "zz", 0, 0),
        ev(7, EventKind::Remove, "a", 0, 0),
    ];
    let r = classify_events(events, 100);
    assert_eq!(r.history.len() as u64, r.counters.applied_total());
    assert_eq!(r.counters.applied_total(), 5);
    assert_eq!(r.counters.remove_unobservable, 1);
    assert_eq!(r.counters.well_formedness_skipped, 0);
    assert_eq!(r.fleet.load(MachineId(1)), Some(Mass([0])));
    assert_eq!(r.fleet.load(MachineId(2)), Some(Mass([0])));
}

#[test]
fn same_seed_same_stream() {
    let mut a = WorkloadGen::new(7, [10, 20, 30, 40]);
    let mut b = WorkloadGen::new(7, [10, 20, 30, 40]);
    assert_eq!(a.take(25), b.take(25));
    assert_eq!(a.next(), b.next());
}

/// Sum of the `k` largest worst-dimension utilizations, in floating point.
fn top_k<const N: usize>(f: &Fleet<N>, k: usize) -> f64 {
    let mut u: Vec<f64> = f
        .iter()
        .map(|(_, s)| {
            (0..N).map(|d| s.load.0[d] as f64 / s.capacity.0[d] as f64).fold(0.0, f64::max)
        })
        .collect();
    u.sort_by(|a, b| b.partial_cmp(a).unwrap());
    u.iter().take(k).sum()
}

#[test]
fn hot_to_cold_keeps_every_top_k_sum_in_one_dimension() {
    let mut f: Fleet<1> = Fleet::new();
    f.add_machine(MachineId(1), Capacity([100]), Mass([90]));
    f.add_machine(MachineId(2), Capacity([300]), Mass([30]));
    f.add_machine(MachineId(3), Capacity([100]), Mass([60]));
    let before: Vec<f64> = (1..=3).map(|k| top_k(&f, k)).collect();
    let m = HotToCold::witness(MachineId(1), MachineId(2), Mass([80]), &f).unwrap();
    m.apply_to(&mut f);
    for k in 1..=3 {
        assert!(top_k(&f, k) <= before[k - 1] + 1e-12, "top-{} grew", k);
    }
}

#[test]
fn remove_keeps_every_top_k_sum() {
    let mut f = hetero();
    let before: Vec<f64> = (1..=3).map(|k| top_k(&f, k)).collect();
    Remove::new(MachineId(1), Mass([50, 0])).apply_to(&mut f).unwrap();
    for k in 1..=3 {
        assert!(top_k(&f, k) <= before[k - 1] + 1e-12);
    }
}

#[test]
fn hot_to_cold_can_raise_a_top_two_sum_in_two_dimensions() {
    // The source's worst dimension is one the transfer does not touch, while
    // the destination's worst utilization rises from 0.3 to 0.5.
    let mut f: Fleet<2> = Fleet::new();
    f.add_machine(MachineId(1), Capacity([100, 100]), Mass([50, 80]));
    f.add_machine(MachineId(2), Capacity([100, 100]), Mass([10, 30]));
    let before = top_k(&f, 2);
    let m = HotToCold::witness(MachineId(1), MachineId(2), Mass([40, 0]), &f).unwrap();
    m.apply_to(&mut f);
    assert!((before - 1.1).abs() < 1e-12);
    assert!((top_k(&f, 2) - 1.3).abs() < 1e-12);
    // the worst-machine bound still holds
    assert!((top_k(&f, 1) - 0.8).abs() < 1e-12);
}

#[test]
fn long_typed_pure_chain_stays_safe() {
    let mut f: Fleet<1> = Fleet::new();
    for (id, load) in [(1, 80), (2, 40), (3, 40), (4, 40)] {
        f.add_machine(MachineId(id), Capacity([100]), Mass([load]));
    }
    let within = |f: &Fleet<1>| f.iter().all(|(_, s)| util_le_exec(s.load.0[0], 100, 85, 100));
    assert!(within(&f));
    HotToCold::witness(MachineId(1), MachineId(2), Mass([10]), &f).unwrap().apply_to(&mut f);
    HotToCold::witness(MachineId(1), MachineId(3), Mass([10]), &f).unwrap().apply_to(&mut f);
    Remove::new(MachineId(1), Mass([5])).apply_to(&mut f).unwrap();
    HotToCold::witness(MachineId(2), MachineId(4), Mass([5]), &f).unwrap().apply_to(&mut f);
    Remove::new(MachineId(3), Mass([10])).apply_to(&mut f).unwrap();
    assert!(within(&f));
    assert_eq!(f.load(MachineId(1)), Some(Mass([55])));
    assert!((top_k(&f, 2) - 1.0).abs() < 1e-12);
}

#[test]
fn reordering_events_with_distinct_times_changes_nothing() {
    let a = vec![
        ev(3, EventKind::Schedule, "a", 1, 30),
        ev(1, EventKind::Schedule, "b", 2, 10),
        ev(2, EventKind::Remove, "b", 0, 0),
        ev(4, EventKind::Schedule, "a", 2, 30),
    ];
    let mut b = a.clone();
    b.swap(0, 1);
    b.swap(2, 3);
    let (ra, rb) = (classify_events(a, 100), classify_events(b, 100));
    assert_eq!(ra.counters, rb.counters);
    assert_eq!(ra.history.as_slice(), rb.history.as_slice());
    assert_eq!(ra.fleet.as_slice(), rb.fleet.as_slice());
}

#[test]
fn every_remove_event_is_counted_once() {
    let events = vec![
        ev(1, EventKind::Remove, "x", 0, 0),
        ev(2, EventKind::Schedule, "x", 1, 5),
        ev(3, EventKind::Schedule, "x", 1, 5),
        ev(4, EventKind::Remove, "x", 0, 0),
        ev(5, EventKind::Remove, "x", 0, 0),
    ];
    let c = classify_events(events, 10).counters;
    assert_eq!(c.remove + c.remove_unobservable, 3);
    assert!(c.place + c.hot_to_cold + c.neutral + c.cold_to_hot <= 2);
    assert_eq!(c.place, 1);
}
