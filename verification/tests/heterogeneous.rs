//! Heterogeneous capacity (one dimension): witness conditions compare
//! utilization, restrict `cap(src) ≤ cap(dst)`, and require equal capacity
//! for `Neutral`.

use fulcrum::{Capacity, Fleet, HotToCold, MachineId, Mass, Neutral};

#[test]
fn hot_to_cold_uses_utilization_not_load() {
    let mut f: Fleet<1> = Fleet::new();
    f.add_machine(MachineId(1), Capacity([100]), Mass([80]));
    f.add_machine(MachineId(2), Capacity([200]), Mass([80]));

    let w = HotToCold::witness(MachineId(1), MachineId(2), Mass([10]), &f);
    assert!(w.is_some(), "transfer from utilization 0.80 to 0.40 must be typed-pure");

    let w_rev = HotToCold::witness(MachineId(2), MachineId(1), Mass([10]), &f);
    assert!(w_rev.is_none(), "transfer from utilization 0.40 to 0.80 must be rejected");
}

#[test]
fn hot_to_cold_rejects_high_to_low_capacity() {
    let mut f: Fleet<1> = Fleet::new();
    f.add_machine(MachineId(1), Capacity([100]), Mass([80]));
    f.add_machine(MachineId(2), Capacity([10]), Mass([5]));

    let w = HotToCold::witness(MachineId(1), MachineId(2), Mass([1]), &f);
    assert!(
        w.is_none(),
        "high-to-low-capacity transfer must be rejected even when util(src) > util(dst)"
    );
}

#[test]
fn hot_to_cold_collapses_to_v0_under_uniform_capacity() {
    let mut f: Fleet<1> = Fleet::new();
    f.add_machine(MachineId(1), Capacity([100]), Mass([80]));
    f.add_machine(MachineId(2), Capacity([100]), Mass([30]));

    assert!(
        HotToCold::witness(MachineId(1), MachineId(2), Mass([50]), &f).is_some(),
        "mass = load_src - load_dst must pass under uniform capacity"
    );
    assert!(
        HotToCold::witness(MachineId(1), MachineId(2), Mass([51]), &f).is_none(),
        "mass > load_src - load_dst must fail under uniform capacity"
    );
    let mut g: Fleet<1> = Fleet::new();
    g.add_machine(MachineId(1), Capacity([100]), Mass([50]));
    g.add_machine(MachineId(2), Capacity([100]), Mass([50]));
    assert!(
        HotToCold::witness(MachineId(1), MachineId(2), Mass([1]), &g).is_none(),
        "equal utilization must reject HotToCold"
    );
}

#[test]
fn hot_to_cold_admits_more_mass_when_destination_is_larger() {
    let mut f: Fleet<1> = Fleet::new();
    f.add_machine(MachineId(1), Capacity([100]), Mass([80]));
    f.add_machine(MachineId(2), Capacity([1000]), Mass([100]));

    let w = HotToCold::witness(MachineId(1), MachineId(2), Mass([80]), &f);
    assert!(w.is_some(), "transfer to a larger machine should admit larger mass");
}

#[test]
fn neutral_admits_only_equal_capacity() {
    let mut f: Fleet<1> = Fleet::new();
    f.add_machine(MachineId(1), Capacity([100]), Mass([50]));
    f.add_machine(MachineId(2), Capacity([200]), Mass([100]));
    assert!(
        Neutral::witness(MachineId(1), MachineId(2), Mass([10]), &f).is_none(),
        "Neutral must require equal capacity"
    );

    let mut g: Fleet<1> = Fleet::new();
    g.add_machine(MachineId(1), Capacity([100]), Mass([50]));
    g.add_machine(MachineId(2), Capacity([100]), Mass([50]));
    assert!(
        Neutral::witness(MachineId(1), MachineId(2), Mass([10]), &g).is_some(),
        "Neutral must admit equal-capacity equal-load pair"
    );
}

#[test]
fn unknown_machine_returns_none() {
    let mut f: Fleet<1> = Fleet::new();
    f.add_machine(MachineId(1), Capacity([100]), Mass([80]));
    assert!(HotToCold::witness(MachineId(1), MachineId(99), Mass([10]), &f).is_none());
    assert!(HotToCold::witness(MachineId(99), MachineId(1), Mass([10]), &f).is_none());
    assert!(Neutral::witness(MachineId(1), MachineId(99), Mass([10]), &f).is_none());
}

#[test]
fn zero_capacity_machine_rejects_witness() {
    let mut f: Fleet<1> = Fleet::new();
    f.add_machine(MachineId(1), Capacity([0]), Mass([0]));
    f.add_machine(MachineId(2), Capacity([100]), Mass([50]));
    assert!(HotToCold::witness(MachineId(2), MachineId(1), Mass([1]), &f).is_none());
    assert!(HotToCold::witness(MachineId(1), MachineId(2), Mass([1]), &f).is_none());
}
