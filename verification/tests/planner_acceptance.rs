//! Planner acceptance: each placer emits only placements, every placement
//! applies, and the worst-machine utilization stays within the threshold at
//! every intermediate state.

use fulcrum::{BestFitDecreasing, Capacity, Fleet, LeastLoaded, MachineId, Mass, PowerOfTwo, TypedMove};

/// Worst-machine, worst-dimension utilization.
fn linfty<const N: usize>(f: &Fleet<N>) -> f64 {
    f.iter()
        .map(|(_, s)| (0..N).map(|d| s.load.0[d] as f64 / s.capacity.0[d] as f64).fold(0.0, f64::max))
        .fold(0.0, f64::max)
}

/// Run `step` to exhaustion, applying each placement and checking the bound.
fn drive<const N: usize>(
    fleet: &mut Fleet<N>,
    threshold: f64,
    label: &str,
    mut step: impl FnMut(&Fleet<N>) -> Option<TypedMove<N>>,
) -> Vec<&'static str> {
    let mut moves = Vec::new();
    let mut n = 0;
    while n < 10_000 {
        let m = match step(fleet) {
            Some(m) => m,
            None => break,
        };
        moves.push(m.kind_name());
        match m {
            TypedMove::Place(p) => fleet.add_load(p.machine, p.mass).unwrap(),
            _ => panic!("{}: a placer emitted {}", label, moves[moves.len() - 1]),
        }
        let g = linfty(fleet);
        assert!(g <= threshold + 1e-9, "{}: bound violated at step {}: {} > {}", label, n, g, threshold);
        n += 1;
    }
    assert!(n < 10_000, "{}: planner failed to terminate", label);
    moves
}

fn empty_fleet_1d_with_capacity(machines: &[(u64, u64)]) -> Fleet<1> {
    let mut f = Fleet::new();
    for &(id, cap) in machines {
        f.add_machine(MachineId(id), Capacity([cap]), Mass([0]));
    }
    f
}

#[test]
fn least_loaded_distributes_work_uniformly_at_uniform_capacity() {
    let mut f = empty_fleet_1d_with_capacity(&[(1, 100), (2, 100), (3, 100), (4, 100), (5, 100)]);
    let items: Vec<Mass<1>> = (0..10).map(|_| Mass([10])).collect();
    let mut planner: LeastLoaded<1> = LeastLoaded::new(items);
    let moves = drive(&mut f, 0.50, "LeastLoaded uniform", |f| planner.step_on(f));
    assert_eq!(moves.len(), 10, "should place all 10 items");
    assert!(moves.iter().all(|k| *k == "Place"));
    assert!((linfty(&f) - 0.20).abs() < 1e-9);
}

#[test]
fn least_loaded_prefers_lighter_machine_under_heterogeneous_caps() {
    let mut f: Fleet<1> = Fleet::new();
    f.add_machine(MachineId(1), Capacity([100]), Mass([30]));
    f.add_machine(MachineId(2), Capacity([200]), Mass([30]));
    let mut planner: LeastLoaded<1> = LeastLoaded::new(vec![Mass([10])]);
    match planner.step_on(&f).unwrap() {
        TypedMove::Place(p) => assert_eq!(p.machine, MachineId(2), "should pick m2 (lower util)"),
        _ => panic!("expected Place"),
    }
}

#[test]
fn power_of_two_distributes_work() {
    let mut f = empty_fleet_1d_with_capacity(&[(1, 100), (2, 100), (3, 100), (4, 100), (5, 100)]);
    let items: Vec<Mass<1>> = (0..20).map(|_| Mass([5])).collect();
    let mut planner: PowerOfTwo<1> = PowerOfTwo::new(items, 0xDEADBEEFu64);
    let moves = drive(&mut f, 0.99, "PowerOfTwo", |f| planner.step_on(f));
    assert_eq!(moves.len(), 20);
    assert!(moves.iter().all(|k| *k == "Place"));
    assert!(linfty(&f) <= 0.50, "PowerOfTwo with 20 unit items should not exceed 0.50 gauge");
}

#[test]
fn best_fit_decreasing_packs_items() {
    let mut f: Fleet<1> = Fleet::new();
    f.add_machine(MachineId(1), Capacity([100]), Mass([0]));
    f.add_machine(MachineId(2), Capacity([200]), Mass([0]));
    f.add_machine(MachineId(3), Capacity([50]), Mass([0]));
    f.add_machine(MachineId(4), Capacity([50]), Mass([0]));
    let items = vec![Mass([80]), Mass([60]), Mass([40]), Mass([30]), Mass([20])];
    let mut planner: BestFitDecreasing<1> = BestFitDecreasing::new(items);
    let moves = drive(&mut f, 1.0, "BFD", |f| planner.step_on(f));
    assert_eq!(moves.len(), 5, "all 5 items should fit");
    assert!(moves.iter().all(|k| *k == "Place"));
    assert!(linfty(&f) <= 1.0);
}

#[test]
fn least_loaded_works_in_two_dim() {
    let mut f: Fleet<2> = Fleet::new();
    f.add_machine(MachineId(1), Capacity([100, 100]), Mass([0, 0]));
    f.add_machine(MachineId(2), Capacity([100, 100]), Mass([0, 0]));
    f.add_machine(MachineId(3), Capacity([100, 100]), Mass([0, 0]));
    let items = vec![Mass([10, 10]), Mass([10, 10]), Mass([10, 10]), Mass([10, 10])];
    let mut planner: LeastLoaded<2> = LeastLoaded::new(items);
    let moves = drive(&mut f, 0.99, "LeastLoaded 2D", |f| planner.step_on(f));
    assert_eq!(moves.len(), 4);
    assert!(linfty(&f) <= 0.30);
}
