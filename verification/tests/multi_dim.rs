//! Multi-dimensional load: a transfer is typed-pure iff it satisfies the
//! one-dimensional conditions in every dimension where mass moves.

use fulcrum::{Capacity, Fleet, HotToCold, MachineId, Mass, Neutral};

#[test]
fn two_dim_transfer_typed_pure_when_dominance_holds_in_both_dims() {
    let mut f: Fleet<2> = Fleet::new();
    f.add_machine(MachineId(1), Capacity([100, 100]), Mass([80, 70]));
    f.add_machine(MachineId(2), Capacity([100, 100]), Mass([30, 20]));

    let w = HotToCold::witness(MachineId(1), MachineId(2), Mass([10, 5]), &f);
    assert!(w.is_some(), "transfer dominant in both dims must be typed-pure");
}

#[test]
fn two_dim_transfer_rejected_when_one_dim_is_anti_robin_hood() {
    let mut f: Fleet<2> = Fleet::new();
    f.add_machine(MachineId(1), Capacity([100, 100]), Mass([80, 20]));
    f.add_machine(MachineId(2), Capacity([100, 100]), Mass([30, 70]));

    let w_both = HotToCold::witness(MachineId(1), MachineId(2), Mass([10, 5]), &f);
    assert!(w_both.is_none(), "transfer that's anti-Robin-Hood in any dim must be rejected");

    let w_d0 = HotToCold::witness(MachineId(1), MachineId(2), Mass([10, 0]), &f);
    assert!(w_d0.is_some(), "transfer with mass=0 in the conflicting dim must be admitted");
}

#[test]
fn neutral_in_multi_dim_requires_full_equality() {
    let mut f: Fleet<2> = Fleet::new();
    f.add_machine(MachineId(1), Capacity([100, 200]), Mass([50, 80]));
    f.add_machine(MachineId(2), Capacity([100, 200]), Mass([50, 80]));
    assert!(
        Neutral::witness(MachineId(1), MachineId(2), Mass([10, 5]), &f).is_some(),
        "Neutral admitted with equal caps and loads in every dim"
    );

    let mut g: Fleet<2> = Fleet::new();
    g.add_machine(MachineId(1), Capacity([100, 200]), Mass([50, 80]));
    g.add_machine(MachineId(2), Capacity([100, 200]), Mass([50, 79]));
    assert!(
        Neutral::witness(MachineId(1), MachineId(2), Mass([10, 5]), &g).is_none(),
        "Neutral rejected when loads differ in any dim"
    );
}

#[test]
fn high_to_low_capacity_dimension_is_rejected_in_two_dims() {
    // The dim-0 transfer is high-to-low capacity: the witness rejects it.
    let mut before: Fleet<2> = Fleet::new();
    before.add_machine(MachineId(1), Capacity([100, 100]), Mass([80, 30]));
    before.add_machine(MachineId(2), Capacity([10, 100]), Mass([5, 30]));
    assert!(
        HotToCold::witness(MachineId(1), MachineId(2), Mass([1, 0]), &before).is_none(),
        "witness must reject the high-to-low-cap dim-0 transfer"
    );
}

#[test]
fn zero_mass_witness_rejected() {
    let mut f: Fleet<2> = Fleet::new();
    f.add_machine(MachineId(1), Capacity([100, 100]), Mass([80, 70]));
    f.add_machine(MachineId(2), Capacity([100, 100]), Mass([30, 20]));
    assert!(HotToCold::witness(MachineId(1), MachineId(2), Mass([0, 0]), &f).is_none());
}

#[test]
fn multi_dim_neutral_admits_partial_mass() {
    let mut f: Fleet<2> = Fleet::new();
    f.add_machine(MachineId(1), Capacity([100, 100]), Mass([50, 50]));
    f.add_machine(MachineId(2), Capacity([100, 100]), Mass([50, 50]));

    let m = Neutral::witness(MachineId(1), MachineId(2), Mass([10, 0]), &f);
    assert!(m.is_some(), "Neutral with sparse mass should be admitted");
}

#[test]
fn four_dim_transfer_applies_per_dimension() {
    let mut f: Fleet<4> = Fleet::new();
    f.add_machine(MachineId(1), Capacity([100, 100, 100, 100]), Mass([10, 20, 30, 40]));
    f.add_machine(MachineId(2), Capacity([100, 100, 100, 100]), Mass([5, 5, 5, 5]));

    let m = HotToCold::witness(MachineId(1), MachineId(2), Mass([5, 5, 5, 5]), &f)
        .expect("4-dim transfer typed-pure");
    m.apply_to(&mut f);
    assert_eq!(f.load(MachineId(1)), Some(Mass([5, 15, 25, 35])));
    assert_eq!(f.load(MachineId(2)), Some(Mass([10, 10, 10, 10])));
}

#[test]
fn worst_dimension_index_is_the_most_utilized() {
    let mut f: Fleet<3> = Fleet::new();
    f.add_machine(MachineId(1), Capacity([100, 100, 100]), Mass([50, 80, 30]));
    let spec = f.spec(MachineId(1)).unwrap();
    assert_eq!(spec.worst_dim_exec(), 1);
}
