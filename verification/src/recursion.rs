//! The bisection tree and its bookkeeping.
//!
//! The controller descends a binary tree of time segments; the nodes on
//! the current root-to-leaf path live on a stack.  Each node carries
//! the stable and the unstable records of its segment, and a global
//! index locates the stable record of every reaction.  The consistency
//! of that index with the node stack, and the arithmetic on the bounds
//! when a node is unwound, are verified here; the propensity brackets
//! that decide stability and the random draws stay with the driver.

use vstd::prelude::*;
use crate::f_reaction::FReaction;
use crate::reaction::spec_delta;
use crate::reaction_data::{ReactionData, StableReactionData};
use crate::state_data::{StateData, track_shift_fits};
use crate::unstable_dependents::UnstableDependents;

verus! {

/// A monotone tag that disambiguates reused node-stack positions.
#[derive(Clone, Copy, PartialEq, Eq, Structural, Debug, Hash)]
pub struct NodeId(pub usize);

/// One open segment on the current root-to-leaf path.
pub struct RecursionTreeNode {
    /// A list of the stable reactions in the node.
    pub stable_reactions: Vec<StableReactionData>,
    /// A list of the unstable reactions in the node.
    pub unstable_reactions: Vec<ReactionData>,
    /// A node is active if the timespan it represents contains the current timepoint.
    pub is_active: bool,
    /// The parent node of the node.
    pub parent: Option<usize>,
    /// The child node spanning the first half of the time-segment spanned by the node.
    pub left: Option<usize>,
    /// The child node spanning the second half of the time segment spanned by the node.
    pub right: Option<usize>,
    pub id: NodeId,
}

/// The bookkeeping of the adaptive bisection controller.
pub struct RecursionTree {
    /// The current nodes of the recursion tree.
    /// They are organized such that the active node is the last.
    pub nodes: Vec<RecursionTreeNode>,
    /// For every reaction, either None if the reaction is unstable,
    /// or (node, index) such that nodes[node].stable_reactions[index]
    /// is the stable reaction data for that reaction.
    pub stable_index: Vec<Option<(usize, usize)>>,
    /// The reactions being simulated.
    pub reactions: Vec<FReaction>,
    /// The current state.
    pub state: StateData,
    /// For every reactant, the number of unstable reactions with that reactant as an input.
    pub unstable_dependents: UnstableDependents,
    /// The number of reactions simulated up to now.
    pub total_events: u64,
    /// Stores for every component the stable reactions that have the component
    /// as their output and a nonzero event count: the reactions that must be
    /// fully split if an unstable reaction comes to depend on the component.
    pub inactive_by_component: Vec<Vec<usize>>,
}

impl RecursionTree {
    /// The stable index and the node stack agree: every index entry
    /// points at a record of its reaction, and every stable record of
    /// an active node is pointed at by the index of its reaction.
    pub open spec fn wf(self) -> bool {
        &&& self.stable_index@.len() == self.reactions@.len()
        &&& forall|r: int| 0 <= r < self.stable_index@.len() ==> match (
        #[trigger] self.stable_index@[r]) {
            Option::Some(p) => {
                &&& (p.0 as int) < self.nodes@.len()
                &&& self.nodes@[p.0 as int].is_active
                &&& (p.1 as int) < self.nodes@[p.0 as int].stable_reactions@.len()
                &&& self.nodes@[p.0 as int].stable_reactions@[p.1 as int].reaction == r
            },
            Option::None => true,
        }
        &&& forall|n: int, v: int| 0 <= n < self.nodes@.len() && self.nodes@[n].is_active && 0
            <= v < self.nodes@[n].stable_reactions@.len()
            ==> (self.stable_index@[(#[trigger] self.nodes@[n].stable_reactions@[v]).reaction
            as int] matches Some(p) && p.0 as int == n && p.1 as int == v)
        &&& forall|n: int, v: int| 0 <= n < self.nodes@.len() && 0 <= v
            < self.nodes@[n].stable_reactions@.len() ==> ((
        #[trigger] self.nodes@[n].stable_reactions@[v]).reaction as int) < self.reactions@.len()
        &&& forall|n: int, v: int| 0 <= n < self.nodes@.len() && 0 <= v
            < self.nodes@[n].unstable_reactions@.len() ==> ((
        #[trigger] self.nodes@[n].unstable_reactions@[v]).reaction as int)
            < self.reactions@.len()
    }

    /// Builds the tree for one advance call: a single root segment whose
    /// unstable records are the initial samples, one per reaction.
    pub fn new(initial_state: &Vec<i64>, reactions: Vec<FReaction>,
        samples: Vec<ReactionData>) -> (r: RecursionTree)
        requires
            forall|v: int| 0 <= v < samples@.len() ==> ((#[trigger] samples@[v]).reaction as int)
                < reactions@.len(),
        ensures
            r.wf(),
            r.nodes@.len() == 1,
            r.nodes@[0].stable_reactions@.len() == 0,
            r.nodes@[0].unstable_reactions@ == samples@,
            !r.nodes@[0].is_active,
            r.nodes@[0].id == NodeId(1usize),
            r.nodes@[0].parent is None,
            r.nodes@[0].left is None,
            r.nodes@[0].right is None,
            r.stable_index@.len() == reactions@.len(),
            forall|i: int| 0 <= i < reactions@.len() ==> (#[trigger] r.stable_index@[i]) is None,
            r.reactions@ == reactions@,
            r.total_events == 0,
            r.state.state@.len() == initial_state@.len(),
            r.state.tracks_equal(),
            r.state.sandwich(),
            forall|i: int| 0 <= i < initial_state@.len() ==> (#[trigger] r.state.state@[i]).value
                == initial_state@[i],
            r.unstable_dependents.dependent_count@.len() == initial_state@.len(),
            forall|i: int| 0 <= i < initial_state@.len() ==> (
            #[trigger] r.unstable_dependents.dependent_count@[i]) == 0usize,
            r.inactive_by_component@.len() == initial_state@.len(),
            forall|i: int| 0 <= i < initial_state@.len() ==> (
            #[trigger] r.inactive_by_component@[i])@.len() == 0,
    {
        let n = reactions.len();
        let root = RecursionTreeNode {
            stable_reactions: Vec::new(),
            unstable_reactions: samples,
            is_active: false,
            parent: None,
            left: None,
            right: None,
            id: NodeId(1),
        };
        let mut nodes: Vec<RecursionTreeNode> = Vec::new();
        nodes.push(root);
        let mut stable_index: Vec<Option<(usize, usize)>> = Vec::new();
        let mut i: usize = 0;
        while i < n
            invariant
                i <= n,
                stable_index@.len() == i,
                forall|k: int| 0 <= k < i ==> (#[trigger] stable_index@[k]) is None,
            decreases n - i,
        {
            stable_index.push(None);
            i = i + 1;
        }
        let mut inactive_by_component: Vec<Vec<usize>> = Vec::new();
        let mut c: usize = 0;
        while c < initial_state.len()
            invariant
                c <= initial_state@.len(),
                inactive_by_component@.len() == c,
                forall|k: int| 0 <= k < c ==> (#[trigger] inactive_by_component@[k])@.len() == 0,
            decreases initial_state@.len() - c,
        {
            inactive_by_component.push(Vec::new());
            c = c + 1;
        }
        RecursionTree {
            nodes,
            stable_index,
            reactions,
            state: StateData::new(initial_state),
            unstable_dependents: UnstableDependents::empty(initial_state.len()),
            total_events: 0,
            inactive_by_component,
        }
    }

    /// Pushes a fresh inactive child node onto the stack.  Its id
    /// extends the parent's: twice the parent's for a left child, one
    /// more for a right child, so ids spell the path from the root.
    pub fn add_node(&mut self, parent: usize, unstable_reactions: Vec<ReactionData>,
        stable_reactions: Vec<StableReactionData>, is_left: bool) -> (r: usize)
        requires
            old(self).wf(),
            parent < old(self).nodes@.len(),
            old(self).nodes@[parent as int].id.0 * 2 + 1 <= usize::MAX,
            forall|v: int| 0 <= v < stable_reactions@.len() ==> ((
            #[trigger] stable_reactions@[v]).reaction as int) < old(self).reactions@.len(),
            forall|v: int| 0 <= v < unstable_reactions@.len() ==> ((
            #[trigger] unstable_reactions@[v]).reaction as int) < old(self).reactions@.len(),
        ensures
            final(self).wf(),
            r == old(self).nodes@.len(),
            final(self).nodes@.len() == old(self).nodes@.len() + 1,
            forall|n: int| 0 <= n < old(self).nodes@.len() ==> (#[trigger] final(self).nodes@[n])
                == old(self).nodes@[n],
            final(self).nodes@[r as int].stable_reactions@ == stable_reactions@,
            final(self).nodes@[r as int].unstable_reactions@ == unstable_reactions@,
            !final(self).nodes@[r as int].is_active,
            final(self).nodes@[r as int].parent == Some(parent),
            final(self).nodes@[r as int].left is None,
            final(self).nodes@[r as int].right is None,
            final(self).nodes@[r as int].id.0 == old(self).nodes@[parent as int].id.0 * 2 + (
            if is_left {
                0int
            } else {
                1int
            }),
            final(self).stable_index@ == old(self).stable_index@,
            final(self).reactions@ == old(self).reactions@,
            final(self).state == old(self).state,
            final(self).total_events == old(self).total_events,
    {
        let parent_id = self.nodes[parent].id.0;
        let id = NodeId(if is_left {
            parent_id * 2
        } else {
            parent_id * 2 + 1
        });
        self.nodes.push(
            RecursionTreeNode {
                stable_reactions,
                unstable_reactions,
                is_active: false,
                parent: Some(parent),
                left: None,
                right: None,
                id,
            },
        );
        self.nodes.len() - 1
    }

    /// Pops the top node of the stack and clears its link in the parent.
    /// Nodes are strictly stack-allocated: only the top may be removed,
    /// and no stable record may still be indexed in it.
    pub fn remove_node(&mut self, node: usize)
        requires
            old(self).wf(),
            old(self).nodes@.len() > 0,
            node == old(self).nodes@.len() - 1,
            forall|r: int| 0 <= r < old(self).stable_index@.len() ==> ((
            #[trigger] old(self).stable_index@[r]) matches Some(p) ==> p.0 != node),
        ensures
            final(self).wf(),
            final(self).nodes@.len() == old(self).nodes@.len() - 1,
            forall|n: int| 0 <= n < node ==> {
                &&& (#[trigger] final(self).nodes@[n]).stable_reactions@ == old(self).nodes@[n].stable_reactions@
                &&& final(self).nodes@[n].unstable_reactions@ == old(self).nodes@[n].unstable_reactions@
                &&& final(self).nodes@[n].is_active == old(self).nodes@[n].is_active
                &&& final(self).nodes@[n].id == old(self).nodes@[n].id
                &&& final(self).nodes@[n].parent == old(self).nodes@[n].parent
            },
            forall|n: int| 0 <= n < node && old(self).nodes@[node as int].parent != Some(
                n as usize,
            ) ==> (#[trigger] final(self).nodes@[n]) == old(self).nodes@[n],
            old(self).nodes@[node as int].parent matches Some(p) ==> (p as int) < node ==> {
                let n = p as int;
                &&& final(self).nodes@[n].left == (if old(self).nodes@[n].left == Some(node) {
                    Option::<usize>::None
                } else {
                    old(self).nodes@[n].left
                })
                &&& final(self).nodes@[n].right == (if old(self).nodes@[n].left != Some(node)
                    && old(self).nodes@[n].right == Some(node) {
                    Option::<usize>::None
                } else {
                    old(self).nodes@[n].right
                })
            },
            final(self).stable_index@ == old(self).stable_index@,
            final(self).state == old(self).state,
            final(self).total_events == old(self).total_events,
            final(self).reactions@ == old(self).reactions@,
    {
        let parent_opt = self.nodes[node].parent;
        match parent_opt {
            Some(parent) => {
                if parent < node {
                    let mut p = self.nodes.remove(parent);
                    if p.left == Some(node) {
                        p.left = None;
                    } else {
                        if p.right == Some(node) {
                            p.right = None;
                        }
                    }
                    self.nodes.insert(parent, p);
                    proof {
                        assert(self.nodes@ =~= old(self).nodes@.update(
                            parent as int,
                            self.nodes@[parent as int],
                        ));
                    }
                }
            },
            None => {
            },
        }
        self.nodes.pop();
    }

    /// Whether a stable record may stay behind in its node when the
    /// segment is split: it fired no event, or no unstable reaction
    /// consumes any species it changes.
    pub fn can_deactivate(&self, rdata: &StableReactionData) -> (r: bool)
        requires
            (rdata.reaction as int) < self.reactions@.len(),
            forall|j: int| 0 <= j
                < self.reactions@[rdata.reaction as int].stoichiometry@.len() ==> (
            #[trigger] self.reactions@[rdata.reaction as int].stoichiometry@[j]).0
                < self.unstable_dependents.dependent_count@.len(),
        ensures
            r == (rdata.events == 0 || !(exists|j: int|
                0 <= j < self.reactions@[rdata.reaction as int].stoichiometry@.len()
                    && self.unstable_dependents.dependent_count@[(
                #[trigger] self.reactions@[rdata.reaction as int].stoichiometry@[j]).0 as int]
                    > 0)),
    {
        let no_events = rdata.events == 0;
        if no_events {
            true
        } else {
            let reaction = &self.reactions[rdata.reaction];
            !self.unstable_dependents.has_dependents(reaction)
        }
    }

    /// Whether a recorded listener still refers to a live node.
    pub fn is_valid_listener(&self, listener: (usize, usize)) -> (r: bool)
        ensures
            r == (listener.0 < self.nodes@.len() && self.nodes@[listener.0 as int].id.0
                == listener.1),
    {
        listener.0 < self.nodes.len() && {
            let id = self.nodes[listener.0].id;
            id.0 == listener.1
        }
    }

    /// Registers a stable record in a node.  On an active node the
    /// record is indexed at its position; the index of its reaction
    /// must be free.
    pub fn add_stable(&mut self, node_idx: usize, rdata: StableReactionData)
        requires
            old(self).wf(),
            node_idx < old(self).nodes@.len(),
            (rdata.reaction as int) < old(self).reactions@.len(),
            old(self).stable_index@[rdata.reaction as int] is None,
        ensures
            final(self).wf(),
            final(self).nodes@.len() == old(self).nodes@.len(),
            forall|n: int| 0 <= n < old(self).nodes@.len() && n != node_idx ==> (#[trigger] final(self).nodes@[n]) == old(self).nodes@[n],
            final(self).nodes@[node_idx as int].stable_reactions@ == old(self).nodes@[node_idx
                as int].stable_reactions@.push(rdata),
            final(self).nodes@[node_idx as int].unstable_reactions@ == old(self).nodes@[node_idx
                as int].unstable_reactions@,
            final(self).nodes@[node_idx as int].is_active == old(self).nodes@[node_idx
                as int].is_active,
            old(self).nodes@[node_idx as int].is_active ==> final(self).stable_index@ == old(self).stable_index@.update(rdata.reaction as int, Some((node_idx, old(self).nodes@[node_idx
                as int].stable_reactions@.len() as usize))),
            !old(self).nodes@[node_idx as int].is_active ==> final(self).stable_index@ == old(self).stable_index@,
            final(self).state == old(self).state,
            final(self).total_events == old(self).total_events,
            final(self).reactions@ == old(self).reactions@,
    {
        let mut node = self.nodes.remove(node_idx);
        let pos = node.stable_reactions.len();
        node.stable_reactions.push(rdata);
        let active = node.is_active;
        self.nodes.insert(node_idx, node);
        proof {
            assert(self.nodes@ =~= old(self).nodes@.update(
                node_idx as int,
                self.nodes@[node_idx as int],
            ));
        }
        if active {
            self.stable_index.set(rdata.reaction, Some((node_idx, pos)));
        }
    }

    /// Removes the stable record of a reaction, wherever it is indexed.
    ///
    /// The record is swap-removed from its node's list, and the index of
    /// the record that takes its place is redirected there.
    pub fn remove_stable(&mut self, reaction_idx: usize) -> (r: Option<(usize,
        StableReactionData)>)
        requires
            old(self).wf(),
            (reaction_idx as int) < old(self).reactions@.len(),
        ensures
            final(self).wf(),
            old(self).stable_index@[reaction_idx as int] is None ==> r is None && *final(self)
                == *old(self),
            old(self).stable_index@[reaction_idx as int] matches Some(p) ==> {
                let node = p.0 as int;
                let vec_idx = p.1 as int;
                let list = old(self).nodes@[node].stable_reactions@;
                &&& r matches Some(out)
                &&& out.0 == p.0
                &&& out.1 == list[vec_idx]
                &&& out.1.reaction == reaction_idx
                &&& final(self).nodes@.len() == old(self).nodes@.len()
                &&& forall|n: int| 0 <= n < old(self).nodes@.len() && n != node ==> (
                #[trigger] final(self).nodes@[n]) == old(self).nodes@[n]
                &&& final(self).nodes@[node].stable_reactions@ == list.update(
                    vec_idx,
                    list.last(),
                ).drop_last()
                &&& final(self).nodes@[node].unstable_reactions@ == old(self).nodes@[node].unstable_reactions@
                &&& final(self).nodes@[node].is_active == old(self).nodes@[node].is_active
                &&& final(self).stable_index@[reaction_idx as int] is None
                &&& forall|rr: int| 0 <= rr < old(self).stable_index@.len() && rr != reaction_idx
                    && rr != list.last().reaction ==> (#[trigger] final(self).stable_index@[rr])
                    == old(self).stable_index@[rr]
                &&& (list.last().reaction != reaction_idx && vec_idx + 1 != list.len()
                    ==> final(self).stable_index@[list.last().reaction as int] == Some((
                p.0,
                p.1,
                )))
                &&& final(self).state == old(self).state
                &&& final(self).total_events == old(self).total_events
                &&& final(self).reactions@ == old(self).reactions@
            },
    {
        let index_entry = self.stable_index[reaction_idx];
        match index_entry {
            None => None,
            Some((node_idx, vec_idx)) => {
                proof {
                    assert(old(self).stable_index@[reaction_idx as int] == Some((
                    node_idx,
                    vec_idx,
                    )));
                    assert(match old(self).stable_index@[reaction_idx as int] {
                        Option::Some(p) => {
                            &&& (p.0 as int) < old(self).nodes@.len()
                            &&& old(self).nodes@[p.0 as int].is_active
                            &&& (p.1 as int) < old(self).nodes@[p.0
                                as int].stable_reactions@.len()
                            &&& old(self).nodes@[p.0 as int].stable_reactions@[p.1
                                as int].reaction == reaction_idx
                        },
                        Option::None => false,
                    });
                }
                let mut node = self.nodes.remove(node_idx);
                let last_idx = node.stable_reactions.len() - 1;
                let rdata = node.stable_reactions[vec_idx];
                let ghost list = old(self).nodes@[node_idx as int].stable_reactions@;
                proof {
                    assert(list[last_idx as int] == list.last());
                    assert((list.last().reaction as int) < old(self).reactions@.len());
                    assert(old(self).stable_index@[list.last().reaction as int] == Some((
                    node_idx,
                    last_idx,
                    )));
                }
                if vec_idx != last_idx {
                    let last_rdata = node.stable_reactions[last_idx];
                    node.stable_reactions.set(vec_idx, last_rdata);
                    self.stable_index.set(last_rdata.reaction, Some((node_idx, vec_idx)));
                }
                node.stable_reactions.pop();
                self.nodes.insert(node_idx, node);
                self.stable_index.set(reaction_idx, None);
                proof {
                    assert(self.nodes@ =~= old(self).nodes@.update(
                        node_idx as int,
                        self.nodes@[node_idx as int],
                    ));
                    assert(self.nodes@[node_idx as int].stable_reactions@ =~= list.update(
                        vec_idx as int,
                        list.last(),
                    ).drop_last());
                    let last_r = list.last().reaction;
                    if vec_idx != last_idx {
                        assert(last_r != reaction_idx);
                    }
                    assert forall|n: int, v: int| 0 <= n < self.nodes@.len()
                        && self.nodes@[n].is_active && 0 <= v
                        < self.nodes@[n].stable_reactions@.len() implies self.stable_index@[(
                    #[trigger] self.nodes@[n].stable_reactions@[v]).reaction as int] matches Some(
                        p,
                    ) && p.0 as int == n && p.1 as int == v by {
                        let rr = self.nodes@[n].stable_reactions@[v].reaction;
                        if n == node_idx as int {
                            if vec_idx != last_idx && v == vec_idx as int {
                                assert(self.nodes@[n].stable_reactions@[v] == list.last());
                                assert(self.stable_index@[rr as int] == Some((
                                node_idx,
                                vec_idx,
                                )));
                            } else {
                                assert(self.nodes@[n].stable_reactions@[v] == list[v]);
                                assert(old(self).nodes@[n].stable_reactions@ == list);
                                assert(old(self).nodes@[n].stable_reactions@[v] == list[v]);
                                assert(old(self).nodes@[n].is_active);
                                assert(old(self).stable_index@[rr as int] matches Some(p) && p.0
                                    as int == n && p.1 as int == v);
                                assert(v < list.len() - 1);
                                assert(rr != reaction_idx) by {
                                    if rr == reaction_idx {
                                        assert(v == vec_idx as int);
                                        assert(vec_idx == last_idx);
                                    }
                                }
                                if vec_idx != last_idx {
                                    assert(rr != last_r) by {
                                        if rr == last_r {
                                            assert(v == last_idx as int);
                                        }
                                    }
                                }
                            }
                        } else {
                            assert(self.nodes@[n] == old(self).nodes@[n]);
                            assert(self.nodes@[n].stable_reactions@[v] == old(
                                self,
                            ).nodes@[n].stable_reactions@[v]);
                            assert(old(self).nodes@[n].is_active);
                            assert(old(self).stable_index@[rr as int] matches Some(p) && p.0
                                as int == n && p.1 as int == v);
                            assert(rr != reaction_idx) by {
                                if rr == reaction_idx {
                                    assert(n == node_idx as int);
                                }
                            }
                            if vec_idx != last_idx {
                                assert(rr != last_r) by {
                                    if rr == last_r {
                                        assert(n == node_idx as int);
                                    }
                                }
                            }
                        }
                    }
                }
                Some((node_idx, rdata))
            },
        }
    }

    /// Marks a node as entered: its segment now contains the current
    /// timepoint.  All its stable records become indexed; their
    /// reactions must not be indexed elsewhere.
    pub fn activate_node(&mut self, node: usize)
        requires
            old(self).wf(),
            node < old(self).nodes@.len(),
            !old(self).nodes@[node as int].is_active,
            forall|v: int| 0 <= v < old(self).nodes@[node as int].stable_reactions@.len() ==> {
                let rr = (#[trigger] old(self).nodes@[node as int].stable_reactions@[v]).reaction;
                &&& (rr as int) < old(self).reactions@.len()
                &&& old(self).stable_index@[rr as int] is None
            },
            forall|v1: int, v2: int| 0 <= v1 < v2 < old(self).nodes@[node
                as int].stable_reactions@.len() ==> (#[trigger] old(self).nodes@[node
                as int].stable_reactions@[v1]).reaction != (#[trigger] old(self).nodes@[node
                as int].stable_reactions@[v2]).reaction,
        ensures
            final(self).wf(),
            final(self).nodes@.len() == old(self).nodes@.len(),
            forall|n: int| 0 <= n < old(self).nodes@.len() && n != node ==> (#[trigger] final(self).nodes@[n]) == old(self).nodes@[n],
            final(self).nodes@[node as int].is_active,
            final(self).nodes@[node as int].stable_reactions@ == old(self).nodes@[node
                as int].stable_reactions@,
            final(self).nodes@[node as int].unstable_reactions@ == old(self).nodes@[node
                as int].unstable_reactions@,
            final(self).nodes@[node as int].id == old(self).nodes@[node as int].id,
            final(self).nodes@[node as int].parent == old(self).nodes@[node as int].parent,
            forall|v: int| 0 <= v < old(self).nodes@[node as int].stable_reactions@.len()
                ==> final(self).stable_index@[(#[trigger] old(self).nodes@[node
                as int].stable_reactions@[v]).reaction as int] == Some((node, v as usize)),
            forall|rr: int| 0 <= rr < old(self).stable_index@.len() && (forall|v: int|
                0 <= v < old(self).nodes@[node as int].stable_reactions@.len() ==> (
                #[trigger] old(self).nodes@[node as int].stable_reactions@[v]).reaction as int
                    != rr) ==> (#[trigger] final(self).stable_index@[rr]) == old(self).stable_index@[rr],
            final(self).state == old(self).state,
            final(self).total_events == old(self).total_events,
            final(self).reactions@ == old(self).reactions@,
    {
        let mut node_data = self.nodes.remove(node);
        node_data.is_active = true;
        let count = node_data.stable_reactions.len();
        self.nodes.insert(node, node_data);
        proof {
            assert(self.nodes@ =~= old(self).nodes@.update(
                node as int,
                self.nodes@[node as int],
            ));
        }
        let mut v: usize = 0;
        while v < count
            invariant
                old(self).wf(),
                node < self.nodes@.len(),
                v <= count,
                self.nodes@.len() == old(self).nodes@.len(),
                forall|n: int| 0 <= n < old(self).nodes@.len() && n != node ==> (
                #[trigger] self.nodes@[n]) == old(self).nodes@[n],
                self.nodes@[node as int].is_active,
                self.nodes@[node as int].stable_reactions@ == old(self).nodes@[node
                    as int].stable_reactions@,
                self.nodes@[node as int].unstable_reactions@ == old(self).nodes@[node
                    as int].unstable_reactions@,
                self.nodes@[node as int].id == old(self).nodes@[node as int].id,
                self.nodes@[node as int].parent == old(self).nodes@[node as int].parent,
                count == old(self).nodes@[node as int].stable_reactions@.len(),
                self.stable_index@.len() == old(self).stable_index@.len(),
                self.reactions@ == old(self).reactions@,
                self.state == old(self).state,
                self.total_events == old(self).total_events,
                self.unstable_dependents == old(self).unstable_dependents,
                self.inactive_by_component@ == old(self).inactive_by_component@,
                forall|vv: int| 0 <= vv < count ==> {
                    let rr = (#[trigger] old(self).nodes@[node
                        as int].stable_reactions@[vv]).reaction;
                    &&& (rr as int) < old(self).reactions@.len()
                    &&& (vv < v ==> self.stable_index@[rr as int] == Some((node, vv as usize)))
                    &&& (vv >= v ==> self.stable_index@[rr as int] is None)
                },
                forall|rr: int| 0 <= rr < old(self).stable_index@.len() && (forall|vv: int|
                    0 <= vv < count ==> (#[trigger] old(self).nodes@[node
                    as int].stable_reactions@[vv]).reaction as int != rr) ==> (
                #[trigger] self.stable_index@[rr]) == old(self).stable_index@[rr],
                forall|v1: int, v2: int| 0 <= v1 < v2 < count ==> (#[trigger] old(self).nodes@[node as int].stable_reactions@[v1]).reaction != (#[trigger] old(self).nodes@[node as int].stable_reactions@[v2]).reaction,
            decreases count - v,
        {
            let rr = self.nodes[node].stable_reactions[v].reaction;
            self.stable_index.set(rr, Some((node, v)));
            v = v + 1;
        }
        proof {
            assert forall|r: int| 0 <= r < self.stable_index@.len() implies match (
            #[trigger] self.stable_index@[r]) {
                Option::Some(p) => {
                    &&& (p.0 as int) < self.nodes@.len()
                    &&& (p.1 as int) < self.nodes@[p.0 as int].stable_reactions@.len()
                    &&& self.nodes@[p.0 as int].stable_reactions@[p.1 as int].reaction == r
                },
                Option::None => true,
            } by {
                if self.stable_index@[r] is Some {
                    if old(self).stable_index@[r] == self.stable_index@[r] {
                    }
                }
            }
        }
    }

    /// Unwinds one stable record of the top node: its contribution
    /// leaves the bounds, its events are committed to the state and to
    /// the running total, and its index entry is cleared.
    pub fn finish_entry(&mut self, node: usize) -> (out: StableReactionData)
        requires
            old(self).wf(),
            old(self).nodes@.len() > 0,
            node == old(self).nodes@.len() - 1,
            old(self).nodes@[node as int].is_active,
            old(self).nodes@[node as int].stable_reactions@.len() > 0,
            ({
                let entry = old(self).nodes@[node as int].stable_reactions@.last();
                let rx = old(self).reactions@[entry.reaction as int];
                &&& entry.events <= i64::MAX
                &&& old(self).total_events + entry.events <= u64::MAX
                &&& forall|j: int| 0 <= j < rx.negative_stoichiometry@.len() ==> (
                #[trigger] rx.negative_stoichiometry@[j]).0 < old(self).state.state@.len()
                &&& forall|j: int| 0 <= j < rx.positive_stoichiometry@.len() ==> (
                #[trigger] rx.positive_stoichiometry@[j]).0 < old(self).state.state@.len()
                &&& forall|j: int| 0 <= j < rx.stoichiometry@.len() ==> (
                #[trigger] rx.stoichiometry@[j]).0 < old(self).state.state@.len()
                &&& track_shift_fits(old(self).state.lowers(), rx.negative_stoichiometry@, -(
                entry.events as int))
                &&& track_shift_fits(old(self).state.uppers(), rx.positive_stoichiometry@, -(
                entry.events as int))
                &&& track_shift_fits(
                    Seq::new(old(self).state.state@.len(), |i: int| old(self).state.lowers()[i]
                        - spec_delta(rx.negative_stoichiometry@, i) * entry.events),
                    rx.stoichiometry@,
                    entry.events as int,
                )
                &&& track_shift_fits(old(self).state.values(), rx.stoichiometry@,
                    entry.events as int)
                &&& track_shift_fits(
                    Seq::new(old(self).state.state@.len(), |i: int| old(self).state.uppers()[i]
                        - spec_delta(rx.positive_stoichiometry@, i) * entry.events),
                    rx.stoichiometry@,
                    entry.events as int,
                )
            }),
        ensures
            final(self).wf(),
            ({
                let entry = old(self).nodes@[node as int].stable_reactions@.last();
                let rx = old(self).reactions@[entry.reaction as int];
                let e = entry.events as int;
                &&& out == entry
                &&& final(self).nodes@.len() == old(self).nodes@.len()
                &&& forall|n: int| 0 <= n < old(self).nodes@.len() && n != node ==> (
                #[trigger] final(self).nodes@[n]) == old(self).nodes@[n]
                &&& final(self).nodes@[node as int].stable_reactions@ == old(self).nodes@[node
                    as int].stable_reactions@.drop_last()
                &&& final(self).nodes@[node as int].unstable_reactions@ == old(self).nodes@[node as int].unstable_reactions@
                &&& final(self).nodes@[node as int].is_active == old(self).nodes@[node
                    as int].is_active
                &&& final(self).stable_index@ == old(self).stable_index@.update(
                    entry.reaction as int,
                    None,
                )
                &&& final(self).total_events == old(self).total_events + entry.events
                &&& final(self).state.state@.len() == old(self).state.state@.len()
                &&& forall|i: int| 0 <= i < old(self).state.state@.len() ==> final(self).state.lowers()[i] == old(self).state.lowers()[i] + (spec_delta(
                    rx.stoichiometry@,
                    i,
                ) - spec_delta(rx.negative_stoichiometry@, i)) * e
                &&& forall|i: int| 0 <= i < old(self).state.state@.len() ==> final(self).state.values()[i] == old(self).state.values()[i] + spec_delta(
                    rx.stoichiometry@,
                    i,
                ) * e
                &&& forall|i: int| 0 <= i < old(self).state.state@.len() ==> final(self).state.uppers()[i] == old(self).state.uppers()[i] + (spec_delta(
                    rx.stoichiometry@,
                    i,
                ) - spec_delta(rx.positive_stoichiometry@, i)) * e
                &&& final(self).reactions@ == old(self).reactions@
            }),
    {
        let mut node_data = self.nodes.remove(node);
        let entry = match node_data.stable_reactions.pop() {
            Some(entry) => entry,
            None => {
                proof {
                    assert(false);
                }
                StableReactionData::new(0, 0, false, false)
            },
        };
        self.nodes.insert(node, node_data);
        proof {
            assert(self.nodes@ =~= old(self).nodes@.update(
                node as int,
                self.nodes@[node as int],
            ));
            let list = old(self).nodes@[node as int].stable_reactions@;
            assert(self.nodes@[node as int].stable_reactions@ =~= list.drop_last());
            assert(entry == list.last());
            assert(old(self).stable_index@[entry.reaction as int] == Some((
            node,
            (list.len() - 1) as usize,
            )));
        }
        self.stable_index.set(entry.reaction, None);
        proof {
            let list = old(self).nodes@[node as int].stable_reactions@;
            assert forall|n: int, v: int| 0 <= n < self.nodes@.len() && self.nodes@[n].is_active
                && 0 <= v < self.nodes@[n].stable_reactions@.len() implies self.stable_index@[(
            #[trigger] self.nodes@[n].stable_reactions@[v]).reaction as int] matches Some(p) && p.0
                as int == n && p.1 as int == v by {
                let rr = self.nodes@[n].stable_reactions@[v].reaction;
                if n == node as int {
                    assert(self.nodes@[n].stable_reactions@ =~= list.drop_last());
                    assert(v < list.len() - 1);
                    assert(self.nodes@[n].stable_reactions@[v] == list[v]);
                    assert(old(self).nodes@[n].stable_reactions@ == list);
                    assert(old(self).nodes@[n].stable_reactions@[v] == list[v]);
                    assert(old(self).nodes@[n].is_active);
                    assert(old(self).stable_index@[rr as int] matches Some(p) && p.0 as int == n
                        && p.1 as int == v);
                    assert(rr != entry.reaction) by {
                        if rr == entry.reaction {
                            assert(v == list.len() - 1);
                        }
                    }
                } else {
                    assert(self.nodes@[n] == old(self).nodes@[n]);
                    assert(self.nodes@[n].stable_reactions@[v] == old(
                        self,
                    ).nodes@[n].stable_reactions@[v]);
                    assert(old(self).nodes@[n].is_active);
                    assert(old(self).stable_index@[rr as int] matches Some(p) && p.0 as int == n
                        && p.1 as int == v);
                    assert(rr != entry.reaction) by {
                        if rr == entry.reaction {
                            assert(v == list.len() - 1);
                        }
                    }
                }
            }
        }
        let reaction = self.reactions.remove(entry.reaction);
        self.state.remove_bounds(&entry, &reaction);
        let ghost mid2 = self.state;
        self.state.apply(&entry, &reaction);
        self.reactions.insert(entry.reaction, reaction);
        proof {
            assert(self.reactions@ =~= old(self).reactions@);
            let rx = old(self).reactions@[entry.reaction as int];
            let e = entry.events as int;
            assert forall|i: int| 0 <= i < old(self).state.state@.len() implies self.state.lowers()[i] == old(self).state.lowers()[i] + (spec_delta(rx.stoichiometry@, i) - spec_delta(
                rx.negative_stoichiometry@,
                i,
            )) * e by {
                let dn = spec_delta(rx.negative_stoichiometry@, i);
                let ds = spec_delta(rx.stoichiometry@, i);
                assert(mid2.lowers()[i] == old(self).state.lowers()[i] - dn * e);
                assert(self.state.lowers()[i] == mid2.lowers()[i] + ds * e);
                assert((ds - dn) * e == ds * e - dn * e) by (nonlinear_arith);
            }
            assert forall|i: int| 0 <= i < old(self).state.state@.len() implies self.state.uppers()[i] == old(self).state.uppers()[i] + (spec_delta(rx.stoichiometry@, i) - spec_delta(
                rx.positive_stoichiometry@,
                i,
            )) * e by {
                let dp = spec_delta(rx.positive_stoichiometry@, i);
                let ds = spec_delta(rx.stoichiometry@, i);
                assert(mid2.uppers()[i] == old(self).state.uppers()[i] - dp * e);
                assert(self.state.uppers()[i] == mid2.uppers()[i] + ds * e);
                assert((ds - dp) * e == ds * e - dp * e) by (nonlinear_arith);
            }
        }
        self.total_events = self.total_events + entry.events;
        entry
    }
}

} // verus!
