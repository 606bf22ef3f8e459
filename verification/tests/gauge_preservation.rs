//! Typed-pure moves keep the gauge bounds: the worst-machine gauge in any
//! dimension count, every Ky Fan k-norm in one dimension.

use fulcrum::{Capacity, Fleet, HotToCold, MachineId, Mass, Remove};

/// Sum of the `k` largest worst-dimension utilizations (`k = 1`: ℓ∞).
fn top_k<const N: usize>(f: &Fleet<N>, k: usize) -> f64 {
    let mut u: Vec<f64> = f
        .iter()
        .map(|(_, s)| (0..N).map(|d| s.load.0[d] as f64 / s.capacity.0[d] as f64).fold(0.0, f64::max))
        .collect();
    u.sort_by(|a, b| b.partial_cmp(a).unwrap());
    u.iter().take(k).sum()
}

fn assert_le(actual: f64, threshold: f64, msg: &str) {
    assert!(actual <= threshold + 1e-9, "{}: {} > {}", msg, actual, threshold);
}

fn hetero_1d() -> Fleet<1> {
    let mut f: Fleet<1> = Fleet::new();
    f.add_machine(MachineId(1), Capacity([100]), Mass([80]));
    f.add_machine(MachineId(2), Capacity([200]), Mass([80]));
    f.add_machine(MachineId(3), Capacity([100]), Mass([30]));
    f
}

#[test]
fn hot_to_cold_apply_preserves_safety_with_heterogeneous_caps() {
    let mut f = hetero_1d();
    assert_le(top_k(&f, 1), 0.85, "starts within threshold");
    let g_before = top_k(&f, 1);
    HotToCold::witness(MachineId(1), MachineId(2), Mass([20]), &f).unwrap().apply_to(&mut f);
    assert_le(top_k(&f, 1), 0.85, "Linfty within threshold after transfer");
    assert_le(top_k(&f, 1), g_before, "gauge non-increasing");
}

#[test]
fn hot_to_cold_apply_preserves_sumtopk_with_heterogeneous_caps() {
    let mut f = hetero_1d();
    let before = top_k(&f, 2);
    assert_le(before, 1.30, "starts within threshold");
    HotToCold::witness(MachineId(1), MachineId(2), Mass([20]), &f).unwrap().apply_to(&mut f);
    let after = top_k(&f, 2);
    assert_le(after, before, "SumTopK<2> non-increasing");
    assert_le(after, 1.30, "SumTopK<2> within threshold");
}

#[test]
fn long_chain_of_heterogeneous_transfers_stays_safe() {
    let mut f: Fleet<1> = Fleet::new();
    f.add_machine(MachineId(1), Capacity([100]), Mass([80]));
    f.add_machine(MachineId(2), Capacity([200]), Mass([60]));
    f.add_machine(MachineId(3), Capacity([400]), Mass([80]));
    f.add_machine(MachineId(4), Capacity([100]), Mass([80]));
    assert_le(top_k(&f, 1), 0.85, "starts within threshold");
    HotToCold::witness(MachineId(1), MachineId(2), Mass([10]), &f).unwrap().apply_to(&mut f);
    assert_le(top_k(&f, 1), 0.85, "after 1→2");
    HotToCold::witness(MachineId(4), MachineId(3), Mass([15]), &f).unwrap().apply_to(&mut f);
    assert_le(top_k(&f, 1), 0.85, "after 4→3");
    HotToCold::witness(MachineId(1), MachineId(3), Mass([20]), &f).unwrap().apply_to(&mut f);
    assert_le(top_k(&f, 1), 0.85, "after 1→3");
}

#[test]
fn typed_pure_chain_decreases_or_holds_gauge() {
    let mut f: Fleet<1> = Fleet::new();
    for (id, load) in [(1, 80), (2, 30), (3, 50)] {
        f.add_machine(MachineId(id), Capacity([100]), Mass([load]));
    }
    let g_before = top_k(&f, 1);
    HotToCold::witness(MachineId(1), MachineId(2), Mass([20]), &f).unwrap().apply_to(&mut f);
    assert!(top_k(&f, 1) <= g_before + 1e-9, "Pigou-Dalton must not increase the gauge");
}

#[test]
fn safe_threads_through_alternate_gauge() {
    let mut f: Fleet<1> = Fleet::new();
    for (id, load) in [(1, 80), (2, 40), (3, 40), (4, 20)] {
        f.add_machine(MachineId(id), Capacity([100]), Mass([load]));
    }
    assert_le(top_k(&f, 2), 1.30, "starts within threshold");
    HotToCold::witness(MachineId(1), MachineId(2), Mass([20]), &f).unwrap().apply_to(&mut f);
    assert!((top_k(&f, 2) - 1.20).abs() < 1e-9);
    assert!(top_k(&f, 2) <= 1.30);
    Remove::new(MachineId(2), Mass([10])).apply_to(&mut f).unwrap();
    assert!(top_k(&f, 2) <= 1.30);
}

#[test]
fn two_dim_apply_preserves_safety() {
    let mut f: Fleet<2> = Fleet::new();
    f.add_machine(MachineId(1), Capacity([100, 100]), Mass([80, 70]));
    f.add_machine(MachineId(2), Capacity([100, 100]), Mass([30, 20]));
    f.add_machine(MachineId(3), Capacity([100, 100]), Mass([40, 50]));
    assert_le(top_k(&f, 1), 0.85, "starts within threshold");
    let g_before = top_k(&f, 1);
    HotToCold::witness(MachineId(1), MachineId(2), Mass([10, 5]), &f).unwrap().apply_to(&mut f);
    assert_le(top_k(&f, 1), 0.85, "Linfty within threshold");
    assert_le(top_k(&f, 1), g_before, "non-increasing");
}

#[test]
fn long_chain_of_two_dim_transfers_stays_safe() {
    let mut f: Fleet<2> = Fleet::new();
    f.add_machine(MachineId(1), Capacity([100, 100]), Mass([80, 70]));
    f.add_machine(MachineId(2), Capacity([200, 200]), Mass([60, 50]));
    f.add_machine(MachineId(3), Capacity([100, 100]), Mass([40, 30]));
    f.add_machine(MachineId(4), Capacity([200, 200]), Mass([80, 60]));
    assert_le(top_k(&f, 1), 0.85, "starts within threshold");
    HotToCold::witness(MachineId(1), MachineId(2), Mass([10, 10]), &f)
        .expect("1→2 typed-pure")
        .apply_to(&mut f);
    assert_le(top_k(&f, 1), 0.85, "after 1→2");
    HotToCold::witness(MachineId(1), MachineId(3), Mass([5, 5]), &f)
        .expect("1→3 typed-pure")
        .apply_to(&mut f);
    assert_le(top_k(&f, 1), 0.85, "after 1→3");
    Remove::new(MachineId(4), Mass([10, 0])).apply_to(&mut f).unwrap();
    assert_le(top_k(&f, 1), 0.85, "after remove");
}

#[test]
fn higher_n_compiles_and_runs() {
    let mut f: Fleet<4> = Fleet::new();
    f.add_machine(MachineId(1), Capacity([100, 100, 100, 100]), Mass([10, 20, 30, 40]));
    f.add_machine(MachineId(2), Capacity([100, 100, 100, 100]), Mass([5, 5, 5, 5]));
    assert_le(top_k(&f, 1), 0.50, "starts within threshold");
    assert!((top_k(&f, 1) - 0.40).abs() < 1e-9);
    HotToCold::witness(MachineId(1), MachineId(2), Mass([5, 5, 5, 5]), &f)
        .expect("4-dim transfer typed-pure")
        .apply_to(&mut f);
    assert!(top_k(&f, 1) <= 0.40 + 1e-9);
}
