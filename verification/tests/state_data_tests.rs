use tausplit::f_reaction::FReaction;
use tausplit::reaction::Reaction;
use tausplit::reaction_data::{ReactionData, StableReactionData, TauData};
use tausplit::state_data::{ComponentData, StateData};
use tausplit::unstable_dependents::UnstableDependents;

fn decay() -> FReaction {
    // A -> nothing.
    FReaction::from_reaction(&Reaction::new(vec![(0, 1)], vec![(0, -1)]))
}

fn conversion() -> FReaction {
    // A + B -> B + C.
    FReaction::from_reaction(&Reaction::new(vec![(0, 1), (1, 1)], vec![(0, -1), (2, 1)]))
}

#[test]
fn new_state_has_equal_tracks() {
    let s = StateData::new(&vec![5, 7]);
    assert_eq!(s.len(), 2);
    let c = s.component(0);
    assert_eq!((c.lower, c.value, c.upper), (5, 5, 5));
    let c = s.component(1);
    assert_eq!((c.lower, c.value, c.upper), (7, 7, 7));
}

#[test]
fn add_bounds_widen_and_keep_sandwich() {
    let mut s = StateData::new(&vec![10, 10, 0]);
    let r = conversion();
    let rdata = ReactionData::new(0, 3);
    s.add_bounds(&rdata, &r);
    // Three firings could consume three A and produce three C.
    let a = s.component(0);
    assert_eq!((a.lower, a.value, a.upper), (7, 10, 10));
    let c = s.component(2);
    assert_eq!((c.lower, c.value, c.upper), (0, 0, 3));
    for i in 0..3 {
        let comp = s.component(i);
        assert!(comp.lower <= comp.value && comp.value <= comp.upper);
    }
}

#[test]
fn remove_bounds_restores_the_state() {
    // Adding a contribution and removing it again is the identity.
    let mut s = StateData::new(&vec![10, 10, 0]);
    let r = conversion();
    let rdata = ReactionData::new(0, 5);
    s.add_bounds(&rdata, &r);
    s.remove_bounds(&rdata, &r);
    for i in 0..3 {
        let comp = s.component(i);
        assert_eq!((comp.lower, comp.value, comp.upper), match i {
            0 => (10, 10, 10),
            1 => (10, 10, 10),
            _ => (0, 0, 0),
        });
    }
}

#[test]
fn split_contributions_sum_to_parent() {
    // Splitting a record and adding both halves contributes exactly
    // what the whole record would have.
    let r = decay();
    let mut parent = ReactionData::new(0, 9);
    let right = parent.split(4);
    assert_eq!(parent.events + right.events, 9);

    let mut split_state = StateData::new(&vec![20]);
    split_state.add_bounds(&parent, &r);
    split_state.add_bounds(&right, &r);

    let mut whole_state = StateData::new(&vec![20]);
    whole_state.add_bounds(&ReactionData::new(0, 9), &r);

    let a = split_state.component(0);
    let b = whole_state.component(0);
    assert_eq!((a.lower, a.value, a.upper), (b.lower, b.value, b.upper));
}

#[test]
fn apply_advances_all_tracks() {
    let mut s = StateData::new(&vec![10, 0]);
    let r = FReaction::from_reaction(&Reaction::new(vec![(0, 1)], vec![(0, -1), (1, 1)]));
    let rdata = ReactionData::new(0, 4);
    s.apply(&rdata, &r);
    let a = s.component(0);
    assert_eq!((a.lower, a.value, a.upper), (6, 6, 6));
    let b = s.component(1);
    assert_eq!((b.lower, b.value, b.upper), (4, 4, 4));
}

#[test]
fn products_track_the_three_bounds() {
    let mut s = StateData::new(&vec![10, 10, 0]);
    let r = conversion();
    s.add_bounds(&ReactionData::new(0, 2), &r);
    // Lower track of A is 8, value 10, upper 10; B stays 10.
    assert_eq!(s.state_product(&r), 100);
    assert_eq!(s.upper_product(&r), 100);
    // Without charging self-consumption: 8 * 10.
    assert_eq!(s.lower_product(&r, false), 80);
    // Charging one firing of the reaction against input A: (8+1) * 10.
    assert_eq!(s.lower_product(&r, true), 90);
}

#[test]
fn stable_split_hands_each_endpoint_to_one_child() {
    let mut parent = StableReactionData::new(3, 6, true, true);
    let right = parent.split(2, true, false);
    assert_eq!(parent.events, 4);
    assert_eq!(right.events, 2);
    // The low endpoint went right, the high endpoint stayed left.
    assert!(!parent.has_low && right.has_low);
    assert!(parent.has_high && !right.has_high);
    assert_eq!(right.reaction, 3);
}

#[test]
fn destabilize_keeps_the_count() {
    let stable = StableReactionData::new(2, 7, false, true);
    let active = stable.destabilize();
    assert_eq!(active.reaction, 2);
    assert_eq!(active.events, 7);
    assert!(active.has_events());
    assert_eq!(active.event_count(), 7);
    assert_eq!(active.index(), 2);
}

#[test]
fn dependents_count_inputs() {
    let mut d = UnstableDependents::empty(3);
    let conv = conversion();
    d.add_unstable(&conv);
    assert_eq!(d.count(0), 1);
    assert_eq!(d.count(1), 1);
    assert_eq!(d.count(2), 0);
    // The conversion writes to A and C, both consumed or produced by it.
    assert!(d.has_dependents(&conv));
    d.remove_unstable(&conv);
    assert_eq!(d.count(0), 0);
    assert!(!d.has_dependents(&conv));
}

#[test]
fn component_data_new() {
    let c = ComponentData::new(1, 2, 3);
    assert_eq!((c.lower, c.value, c.upper), (1, 2, 3));
}
