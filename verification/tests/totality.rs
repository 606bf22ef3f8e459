//! Typed-pure moves apply without an error path on the fleet they were
//! witnessed against.

use fulcrum::{Capacity, Fleet, HotToCold, MachineId, Mass, Neutral, Remove};

fn uniform(loads: &[(u64, u64)]) -> Fleet<1> {
    let mut f = Fleet::new();
    for &(id, load) in loads {
        f.add_machine(MachineId(id), Capacity([100]), Mass([load]));
    }
    f
}

#[test]
fn remove_apply_returns_safe_directly() {
    let mut f = uniform(&[(1, 50)]);
    assert!(Remove::new(MachineId(1), Mass([10])).apply_to(&mut f).is_ok());
    assert_eq!(f.load(MachineId(1)), Some(Mass([40])));
}

#[test]
fn hot_to_cold_apply_returns_safe_directly() {
    let mut f = uniform(&[(1, 80), (2, 30)]);
    let m = HotToCold::witness(MachineId(1), MachineId(2), Mass([20]), &f).unwrap();
    m.apply_to(&mut f);
    assert_eq!(f.load(MachineId(1)), Some(Mass([60])));
    assert_eq!(f.load(MachineId(2)), Some(Mass([50])));
}

#[test]
fn neutral_apply_returns_safe_directly() {
    let mut f = uniform(&[(1, 50), (2, 50)]);
    let m = Neutral::witness(MachineId(1), MachineId(2), Mass([10]), &f).unwrap();
    m.apply_to(&mut f);
    assert_eq!(f.load(MachineId(1)), Some(Mass([40])));
    assert_eq!(f.load(MachineId(2)), Some(Mass([60])));
}

#[test]
fn neutral_witness_rejects_unequal_loads() {
    let f = uniform(&[(1, 50), (2, 51)]);
    let w = Neutral::witness(MachineId(1), MachineId(2), Mass([1]), &f);
    assert!(w.is_none(), "Neutral witness should reject unequal loads");
}

#[test]
fn hot_to_cold_witness_validates_direction() {
    let f = uniform(&[(1, 80), (2, 50), (3, 50)]);
    assert!(HotToCold::witness(MachineId(1), MachineId(2), Mass([10]), &f).is_some());
    assert!(HotToCold::witness(MachineId(2), MachineId(1), Mass([10]), &f).is_none());
    assert!(HotToCold::witness(MachineId(1), MachineId(2), Mass([40]), &f).is_none());
}

#[test]
fn witness_rejects_anti_robin_hood() {
    let f = uniform(&[(1, 30), (2, 80)]);
    let w = HotToCold::witness(MachineId(1), MachineId(2), Mass([10]), &f);
    assert!(w.is_none(), "witness should reject anti-Robin-Hood direction");
}

#[test]
fn witness_rejects_overshoot() {
    let f = uniform(&[(1, 80), (2, 30)]);
    let w = HotToCold::witness(MachineId(1), MachineId(2), Mass([51]), &f);
    assert!(w.is_none(), "witness should reject mass that would invert the order");
}

#[test]
fn forged_hot_to_cold_against_wrong_fleet_is_caught_by_witness() {
    let f = uniform(&[(1, 30), (2, 80)]);
    let attempted = HotToCold::witness(MachineId(1), MachineId(2), Mass([10]), &f);
    assert!(attempted.is_none(), "witness must reject Pigou-Dalton in the wrong direction");
}
