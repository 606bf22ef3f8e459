//! Exact utilization arithmetic.
//!
//! Utilization is `load ÷ capacity`. It is kept here as an exact fraction
//! `(numerator, denominator)` and compared by cross-multiplication, never
//! rounded. A zero-capacity dimension carrying zero load has utilization 0;
//! one carrying positive load has utilization +∞, encoded by a zero
//! denominator.

use vstd::prelude::*;
use vstd::arithmetic::mul::{
    lemma_mul_is_associative, lemma_mul_is_commutative, lemma_mul_is_distributive_add_other_way,
};

verus! {

/// The exact utilization `load ÷ cap` as a fraction; `(1, 0)` stands for +∞.
pub open spec fn frac(load: int, cap: int) -> (int, int) {
    if cap == 0 {
        if load == 0 {
            (0, 1)
        } else {
            (1, 0)
        }
    } else {
        (load, cap)
    }
}

/// A fraction with a non-negative numerator and denominator.
pub open spec fn frac_ok(a: (int, int)) -> bool {
    &&& 0 <= a.0
    &&& 0 <= a.1
    &&& (a.1 == 0 ==> a.0 == 1)
}

/// `a ≤ b` on fractions, a zero denominator being +∞.
pub open spec fn frac_le(a: (int, int), b: (int, int)) -> bool {
    if b.1 == 0 {
        true
    } else if a.1 == 0 {
        false
    } else {
        a.0 * b.1 <= b.0 * a.1
    }
}

/// `load1 ÷ cap1 ≤ load2 ÷ cap2`, exactly.
pub open spec fn util_le(load1: int, cap1: int, load2: int, cap2: int) -> bool {
    frac_le(frac(load1, cap1), frac(load2, cap2))
}

pub proof fn lemma_frac_ok(load: int, cap: int)
    requires
        0 <= load,
        0 <= cap,
    ensures
        frac_ok(frac(load, cap)),
{
}

/// `≤` on fractions is reflexive and total.
pub proof fn lemma_frac_le_total(a: (int, int), b: (int, int))
    requires
        frac_ok(a),
        frac_ok(b),
    ensures
        frac_le(a, a),
        frac_le(a, b) || frac_le(b, a),
{
}

/// `≤` on fractions is transitive.
pub proof fn lemma_frac_le_trans(a: (int, int), b: (int, int), c: (int, int))
    requires
        frac_ok(a),
        frac_ok(b),
        frac_ok(c),
        frac_le(a, b),
        frac_le(b, c),
    ensures
        frac_le(a, c),
{
    if c.1 != 0 && b.1 != 0 && a.1 != 0 {
        let (a0, a1, b0, b1, c0, c1) = (a.0, a.1, b.0, b.1, c.0, c.1);
        assert(a0 * c1 <= c0 * a1) by (nonlinear_arith)
            requires
                a0 * b1 <= b0 * a1,
                b0 * c1 <= c0 * b1,
                0 <= a0,
                0 < a1,
                0 <= b0,
                0 < b1,
                0 <= c0,
                0 < c1,
        {
            assert(a0 * b1 * c1 <= b0 * a1 * c1);
            assert(b0 * c1 * a1 <= c0 * b1 * a1);
            assert(a0 * c1 * b1 <= c0 * a1 * b1);
        }
    }
}

/// Decides `load1 ÷ cap1 ≤ load2 ÷ cap2` exactly (128-bit cross products).
pub fn util_le_exec(load1: u64, cap1: u64, load2: u64, cap2: u64) -> (r: bool)
    ensures
        r == util_le(load1 as int, cap1 as int, load2 as int, cap2 as int),
{
    if cap2 == 0 && load2 > 0 {
        return true;
    }
    if cap1 == 0 && load1 > 0 {
        return false;
    }
    let n1: u128 = if cap1 == 0 { 0 } else { load1 as u128 };
    let d1: u128 = if cap1 == 0 { 1 } else { cap1 as u128 };
    let n2: u128 = if cap2 == 0 { 0 } else { load2 as u128 };
    let d2: u128 = if cap2 == 0 { 1 } else { cap2 as u128 };
    assert(n1 * d2 <= u64::MAX * u64::MAX) by (nonlinear_arith)
        requires
            n1 <= u64::MAX,
            d2 <= u64::MAX,
    ;
    assert(n2 * d1 <= u64::MAX * u64::MAX) by (nonlinear_arith)
        requires
            n2 <= u64::MAX,
            d1 <= u64::MAX,
    ;
    let lhs: u128 = n1 * d2;
    let rhs: u128 = n2 * d1;
    lhs <= rhs
}


/// `a + b` on fractions, a zero denominator being +∞.
pub open spec fn frac_add(a: (int, int), b: (int, int)) -> (int, int) {
    if a.1 == 0 || b.1 == 0 {
        (1, 0)
    } else {
        (a.0 * b.1 + b.0 * a.1, a.1 * b.1)
    }
}

pub proof fn lemma_frac_add_ok(a: (int, int), b: (int, int))
    requires
        frac_ok(a),
        frac_ok(b),
    ensures
        frac_ok(frac_add(a, b)),
{
    if a.1 != 0 && b.1 != 0 {
        assert(a.0 * b.1 + b.0 * a.1 >= 0) by (nonlinear_arith)
            requires
                0 <= a.0,
                0 < a.1,
                0 <= b.0,
                0 < b.1,
        ;
        assert(a.1 * b.1 > 0) by (nonlinear_arith)
            requires
                0 < a.1,
                0 < b.1,
        ;
    }
}

/// Addition of fractions is commutative and associative (as pairs, not only
/// as values).
pub proof fn lemma_frac_add_comm_assoc(a: (int, int), b: (int, int), c: (int, int))
    requires
        frac_ok(a),
        frac_ok(b),
        frac_ok(c),
    ensures
        frac_add(a, b) == frac_add(b, a),
        frac_add(frac_add(a, b), c) == frac_add(a, frac_add(b, c)),
{
    let (a0, a1, b0, b1, c0, c1) = (a.0, a.1, b.0, b.1, c.0, c.1);
    if a1 != 0 && b1 != 0 {
        assert(a1 * b1 != 0 && a1 * b1 == b1 * a1) by (nonlinear_arith)
            requires
                0 < a1,
                0 < b1,
        ;
    }
    if b1 != 0 && c1 != 0 {
        assert(b1 * c1 != 0) by (nonlinear_arith)
            requires
                0 < b1,
                0 < c1,
        ;
    }
    if a1 != 0 && b1 != 0 && c1 != 0 {
        lemma_mul_is_distributive_add_other_way(c1, a0 * b1, b0 * a1);
        lemma_mul_is_distributive_add_other_way(a1, b0 * c1, c0 * b1);
        lemma_mul_is_associative(a0, b1, c1);
        lemma_mul_is_associative(b0, a1, c1);
        lemma_mul_is_associative(b0, c1, a1);
        lemma_mul_is_associative(c0, a1, b1);
        lemma_mul_is_associative(c0, b1, a1);
        lemma_mul_is_associative(a1, b1, c1);
        lemma_mul_is_commutative(a1, c1);
        lemma_mul_is_commutative(a1, b1);
    }
}

/// `≤` on fractions is compatible with addition.
pub proof fn lemma_frac_add_mono(a: (int, int), b: (int, int), c: (int, int), d: (int, int))
    requires
        frac_ok(a),
        frac_ok(b),
        frac_ok(c),
        frac_ok(d),
        frac_le(a, c),
        frac_le(b, d),
    ensures
        frac_le(frac_add(a, b), frac_add(c, d)),
{
    if c.1 != 0 && d.1 != 0 {
        let (a0, a1, b0, b1, c0, c1, d0, d1) = (a.0, a.1, b.0, b.1, c.0, c.1, d.0, d.1);
        assert(a1 * b1 > 0 && c1 * d1 > 0) by (nonlinear_arith)
            requires
                0 < a1,
                0 < b1,
                0 < c1,
                0 < d1,
        ;
        assert((a0 * b1 + b0 * a1) * (c1 * d1) <= (c0 * d1 + d0 * c1) * (a1 * b1)) by (nonlinear_arith)
            requires
                a0 * c1 <= c0 * a1,
                b0 * d1 <= d0 * b1,
                0 < a1,
                0 < b1,
                0 < c1,
                0 < d1,
        {
            assert(a0 * c1 * (b1 * d1) <= c0 * a1 * (b1 * d1));
            assert(b0 * d1 * (a1 * c1) <= d0 * b1 * (a1 * c1));
        }
    }
}

} // verus!
