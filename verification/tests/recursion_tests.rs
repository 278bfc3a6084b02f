use tausplit::f_reaction::FReaction;
use tausplit::reaction::Reaction;
use tausplit::reaction_data::{ReactionData, StableReactionData};
use tausplit::recursion::{NodeId, RecursionTree};

fn decay_network() -> Vec<FReaction> {
    vec![FReaction::from_reaction(&Reaction::new(vec![(0, 1)], vec![(0, -1)]))]
}

fn fresh_tree() -> RecursionTree {
    let reactions = decay_network();
    let samples = vec![ReactionData::new(0, 3)];
    RecursionTree::new(&vec![10], reactions, samples)
}

#[test]
fn new_tree_has_one_root() {
    let tree = fresh_tree();
    assert_eq!(tree.nodes.len(), 1);
    assert_eq!(tree.nodes[0].id, NodeId(1));
    assert_eq!(tree.nodes[0].unstable_reactions.len(), 1);
    assert_eq!(tree.nodes[0].stable_reactions.len(), 0);
    assert_eq!(tree.total_events, 0);
    assert_eq!(tree.stable_index, vec![None]);
}

#[test]
fn node_ids_spell_the_path() {
    let mut tree = fresh_tree();
    let right = tree.add_node(0, Vec::new(), Vec::new(), false);
    let left = tree.add_node(0, Vec::new(), Vec::new(), true);
    assert_eq!(right, 1);
    assert_eq!(left, 2);
    assert_eq!(tree.nodes[right].id, NodeId(3));
    assert_eq!(tree.nodes[left].id, NodeId(2));
    assert_eq!(tree.nodes[right].parent, Some(0));
}

#[test]
fn remove_node_pops_the_top() {
    let mut tree = fresh_tree();
    let right = tree.add_node(0, Vec::new(), Vec::new(), false);
    tree.nodes[0].right = Some(right);
    tree.remove_node(right);
    assert_eq!(tree.nodes.len(), 1);
    assert_eq!(tree.nodes[0].right, None);
}

#[test]
fn stable_index_tracks_records() {
    let mut tree = fresh_tree();
    tree.activate_node(0);
    tree.add_stable(0, StableReactionData::new(0, 2, true, true));
    assert_eq!(tree.stable_index[0], Some((0, 0)));
    let (node, rdata) = tree.remove_stable(0).unwrap();
    assert_eq!(node, 0);
    assert_eq!(rdata.reaction, 0);
    assert_eq!(rdata.events, 2);
    assert_eq!(tree.stable_index[0], None);
    assert!(tree.remove_stable(0).is_none());
}

#[test]
fn remove_stable_swaps_the_last_record_in() {
    // Two reactions, both stable in the root; removing the first one
    // swap-removes and redirects the index of the last.
    let reactions = vec![
        FReaction::from_reaction(&Reaction::new(vec![(0, 1)], vec![(0, -1)])),
        FReaction::from_reaction(&Reaction::new(vec![(1, 1)], vec![(1, -1)])),
    ];
    let samples = vec![ReactionData::new(0, 1), ReactionData::new(1, 1)];
    let mut tree = RecursionTree::new(&vec![5, 5], reactions, samples);
    tree.activate_node(0);
    tree.add_stable(0, StableReactionData::new(0, 1, true, true));
    tree.add_stable(0, StableReactionData::new(1, 4, true, true));
    let (_, removed) = tree.remove_stable(0).unwrap();
    assert_eq!(removed.reaction, 0);
    assert_eq!(tree.stable_index[1], Some((0, 0)));
    assert_eq!(tree.nodes[0].stable_reactions.len(), 1);
    assert_eq!(tree.nodes[0].stable_reactions[0].reaction, 1);
}

#[test]
fn finish_entry_applies_and_counts() {
    let mut tree = fresh_tree();
    tree.activate_node(0);
    tree.nodes[0].unstable_reactions.clear();
    tree.add_stable(0, StableReactionData::new(0, 3, true, true));
    // The record was never added to the bounds here, so put its
    // contribution in first for a clean unwind.
    let reaction = tausplit::f_reaction::FReaction::from_reaction(&Reaction::new(
        vec![(0, 1)],
        vec![(0, -1)],
    ));
    tree.state.add_bounds(&ReactionData::new(0, 3), &reaction);
    let out = tree.finish_entry(0);
    assert_eq!(out.events, 3);
    assert_eq!(tree.total_events, 3);
    // Three decays of A: 10 - 3 molecules on every track.
    let c = tree.state.component(0);
    assert_eq!((c.lower, c.value, c.upper), (7, 7, 7));
    assert_eq!(tree.stable_index[0], None);
}

#[test]
fn can_deactivate_without_dependents() {
    let mut tree = fresh_tree();
    // No unstable reaction is registered as consuming species 0.
    let idle = StableReactionData::new(0, 2, true, true);
    assert!(tree.can_deactivate(&idle));
    // Zero events always deactivate.
    let empty = StableReactionData::new(0, 0, true, true);
    assert!(tree.can_deactivate(&empty));
    // With a consumer registered, a firing record must stay splittable.
    let reaction = tausplit::f_reaction::FReaction::from_reaction(&Reaction::new(
        vec![(0, 1)],
        vec![(0, -1)],
    ));
    tree.unstable_dependents.add_unstable(&reaction);
    assert!(!tree.can_deactivate(&idle));
    assert!(tree.can_deactivate(&empty));
}

#[test]
fn listener_validity_checks_node_ids() {
    let mut tree = fresh_tree();
    assert!(tree.is_valid_listener((0, 1)));
    assert!(!tree.is_valid_listener((0, 2)));
    assert!(!tree.is_valid_listener((1, 1)));
    let right = tree.add_node(0, Vec::new(), Vec::new(), false);
    assert!(tree.is_valid_listener((right, 3)));
}
