use tausplit::reaction::{binomial, Reaction};
use tausplit::f_reaction::FReaction;

#[test]
fn binomial_small_values() {
    assert_eq!(binomial(5, 0), 1);
    assert_eq!(binomial(6, 1), 6);
    assert_eq!(binomial(5, 2), 10);
    assert_eq!(binomial(10, 3), 120);
    assert_eq!(binomial(0, 2), 0);
    assert_eq!(binomial(1, 3), 0);
}

#[test]
fn binomial_general_arm() {
    assert_eq!(binomial(7, 4), 35);
    assert_eq!(binomial(10, 5), 252);
    assert_eq!(binomial(3, 5), 0);
    assert_eq!(binomial(52, 5), 2598960);
}

#[test]
fn reaction_new_partitions_stoichiometry() {
    let r = Reaction::new(vec![(0, 1), (1, 1)], vec![(0, -1), (2, 1)]);
    assert_eq!(r.positive_stoichiometry, vec![(2, 1)]);
    assert_eq!(r.negative_stoichiometry, vec![(0, -1)]);
    assert_eq!(r.stoichiometry, vec![(0, -1), (2, 1)]);
}

#[test]
fn input_product_counts_combinations() {
    // A + 2B with A=5, B=4: 5 * C(4,2) = 30 combinations.
    let r = Reaction::new(vec![(0, 1), (1, 2)], vec![(2, 1)]);
    assert_eq!(r.input_product(&vec![5, 4, 0]), 30);
    // A negative population counts as zero molecules.
    assert_eq!(r.input_product(&vec![-3, 4, 0]), 0);
}

#[test]
fn apply_scales_stoichiometry() {
    let r = Reaction::new(vec![(0, 1)], vec![(0, -1), (1, 2)]);
    let mut state = vec![10i64, 3];
    r.apply(&mut state, 4);
    assert_eq!(state, vec![6, 11]);
    r.apply(&mut state, -4);
    assert_eq!(state, vec![10, 3]);
}

#[test]
fn all_reactants_lists_inputs_then_outputs() {
    let r = Reaction::new(vec![(0, 1), (1, 1)], vec![(1, -1), (2, 1)]);
    assert_eq!(r.all_reactants(), vec![0, 1, 1, 2]);
}

#[test]
fn freaction_self_consumption() {
    // A + B -> B + C: A loses one molecule, B is untouched.
    let r = Reaction::new(vec![(0, 1), (1, 1)], vec![(0, -1), (2, 1)]);
    let f = FReaction::from_reaction(&r);
    assert_eq!(f.inputs[0].index, 0);
    assert_eq!(f.inputs[0].self_consumption, -1);
    assert_eq!(f.inputs[1].index, 1);
    assert_eq!(f.inputs[1].self_consumption, 0);
    assert_eq!(f.stoichiometry, r.stoichiometry);
}

#[test]
fn conservation_of_linear_invariant() {
    // The cyclic conversion A+B -> B+C preserves the total A+B+C.
    let r = Reaction::new(vec![(0, 1), (1, 1)], vec![(0, -1), (2, 1)]);
    let mut state = vec![100i64, 100, 100];
    let before: i64 = state.iter().sum();
    r.apply(&mut state, 17);
    let after: i64 = state.iter().sum();
    assert_eq!(before, after);
    assert_eq!(state, vec![83, 100, 117]);
}

#[test]
fn freaction_input_product() {
    let r = Reaction::new(vec![(0, 2), (1, 1)], vec![(0, -2), (1, -1), (2, 1)]);
    let f = FReaction::from_reaction(&r);
    // C(5,2) * 3 = 30 combinations; a depleted species gives none.
    assert_eq!(f.input_product(&vec![5, 3, 0]), 30);
    assert_eq!(f.input_product(&vec![1, 3, 0]), 0);
}
