//! Alphabet discipline: names, effects and their classification.

use fulcrum::alphabet::{Effect, Primitive};
use fulcrum::{ColdToHot, HotToCold, Neutral, Place, Remove};

#[test]
fn theorem_citation_present_and_substantive() {
    fn assert_well_formed<P: Primitive>() {
        let theorem = P::THEOREM;
        let name = P::NAME;
        assert!(!theorem.is_empty(), "{}: THEOREM is empty", name);
        assert!(
            theorem.len() >= 40,
            "{}: THEOREM too short ({} chars). Cite a published source.",
            name,
            theorem.len()
        );
        for forbidden in ["TODO", "FIXME", "XXX", "tbd", "TBD"] {
            assert!(
                !theorem.contains(forbidden),
                "{}: THEOREM contains placeholder '{}'",
                name,
                forbidden
            );
        }
    }

    assert_well_formed::<Remove<1>>();
    assert_well_formed::<HotToCold<1>>();
    assert_well_formed::<Neutral<1>>();
    assert_well_formed::<ColdToHot<1>>();
    assert_well_formed::<Place<1>>();
}

#[test]
fn names_are_unique() {
    let names = [
        Remove::<1>::NAME,
        HotToCold::<1>::NAME,
        Neutral::<1>::NAME,
        ColdToHot::<1>::NAME,
        Place::<1>::NAME,
    ];
    for n in &names {
        assert!(!n.is_empty());
    }
    let mut sorted = names.to_vec();
    sorted.sort();
    sorted.dedup();
    assert_eq!(sorted.len(), names.len(), "duplicate NAME found");
}

#[test]
fn effect_classifications_are_correct() {
    assert_eq!(Remove::<1>::EFFECT, Effect::MassDecreasing);
    assert_eq!(HotToCold::<1>::EFFECT, Effect::PigouDalton);
    assert_eq!(Neutral::<1>::EFFECT, Effect::Permutation);
    assert_eq!(ColdToHot::<1>::EFFECT, Effect::MassPreservingFree);
    assert_eq!(Place::<1>::EFFECT, Effect::MassIncreasing);

    assert!(Remove::<1>::EFFECT.is_typed_pure());
    assert!(HotToCold::<1>::EFFECT.is_typed_pure());
    assert!(Neutral::<1>::EFFECT.is_typed_pure());

    assert!(!ColdToHot::<1>::EFFECT.is_typed_pure());
    assert!(!Place::<1>::EFFECT.is_typed_pure());
}

#[test]
fn typed_pure_primitives_have_typed_pure_effect() {
    assert!(Remove::<1>::EFFECT.is_typed_pure());
    assert!(HotToCold::<1>::EFFECT.is_typed_pure());
    assert!(Neutral::<1>::EFFECT.is_typed_pure());
}

#[test]
fn catch_all_primitives_have_catch_all_effect() {
    assert!(!ColdToHot::<1>::EFFECT.is_typed_pure());
    assert!(!Place::<1>::EFFECT.is_typed_pure());
}
