//! The seeded workload generator and departures.

use fulcrum::rng::Xorshift64;
use fulcrum::twin::pick_departure;
use fulcrum::{Capacity, Fleet, MachineId, Mass, WorkloadGen};

#[test]
fn workload_gen_is_seed_reproducible() {
    let mut a = WorkloadGen::new(42, [100, 100, 100, 100]);
    let mut b = WorkloadGen::new(42, [100, 100, 100, 100]);
    assert_eq!(a.take(10), b.take(10));
}

#[test]
fn workload_gen_draws_within_maxima_and_follows_the_stream() {
    let mut g = WorkloadGen::new(7, [10, 0, 1000, 3]);
    let mut rng = Xorshift64::new(7);
    for _ in 0..5 {
        let m = g.next();
        let expected = [
            rng.next() % 11,
            rng.next() % 1,
            rng.next() % 1001,
            rng.next() % 4,
        ];
        assert_eq!(m, Mass(expected));
        assert_eq!(m.0[1], 0);
        assert!(m.0[0] <= 10 && m.0[2] <= 1000 && m.0[3] <= 3);
    }
}

#[test]
fn xorshift_zero_seed_is_coerced_and_first_word_is_exact() {
    let mut a = Xorshift64::new(0);
    let mut b = Xorshift64::new(1);
    assert_eq!(a.next(), b.next());
    let mut c = Xorshift64::new(1);
    // 1 ^ (1 << 13) = 8193; 8193 ^ (8193 >> 7) = 8257; 8257 ^ (8257 << 17) = 1082269761.
    assert_eq!(c.next(), 1082269761);
}

#[test]
fn departure_never_exceeds_the_machine_load() {
    let mut f: Fleet<4> = Fleet::new();
    f.add_machine(MachineId(1), Capacity([100; 4]), Mass([0; 4]));
    f.add_machine(MachineId(2), Capacity([100; 4]), Mass([3, 0, 7, 1]));
    f.add_machine(MachineId(3), Capacity([100; 4]), Mass([0; 4]));
    let mut rng = Xorshift64::new(99);
    for _ in 0..20 {
        let (id, rm) = pick_departure(&f, &mut rng, &[50, 50, 50, 50]).expect("machine 2 has load");
        assert_eq!(id, MachineId(2));
        assert!(rm.0[0] <= 3 && rm.0[1] == 0 && rm.0[2] <= 7 && rm.0[3] <= 1);
        assert!(rm.0.iter().any(|&x| x > 0));
    }
}

#[test]
fn departure_from_empty_or_idle_fleet_is_none() {
    let empty: Fleet<4> = Fleet::new();
    let mut rng = Xorshift64::new(5);
    assert_eq!(pick_departure(&empty, &mut rng, &[10; 4]), None);

    let mut idle: Fleet<4> = Fleet::new();
    idle.add_machine(MachineId(1), Capacity([100; 4]), Mass([0; 4]));
    assert_eq!(pick_departure(&idle, &mut rng, &[10; 4]), None);
}
