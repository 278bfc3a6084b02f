//! The bipartite dependency graph between species and reactions.

use vstd::prelude::*;
use crate::reaction::Reaction;

verus! {

/// A data structure holding, for every species, the reactions that read
/// it and the reactions that change it.
pub struct ReactionGraph {
    /// A list of the reactions having each component as an input.
    pub component_input: Vec<Vec<usize>>,
    /// A list of the reactions having each component as an output.
    pub component_output: Vec<Vec<usize>>,
}

impl ReactionGraph {
    /// Every entry of `lists[c]` is a reaction below `n` with `c` among
    /// the indices that `f` projects out of it, and every such reaction
    /// is present.
    pub open spec fn spec_complete(lists: Seq<Seq<usize>>, reactions: Seq<Reaction>,
        inputs: bool) -> bool {
        &&& forall|c: int, k: int| 0 <= c < lists.len() && 0 <= k < lists[c].len() ==> {
            let r = #[trigger] lists[c][k];
            &&& (r as int) < reactions.len()
            &&& Self::spec_mentions(reactions[r as int], c, inputs)
        }
        &&& forall|c: int, r: int| 0 <= c < lists.len() && 0 <= r < reactions.len()
            && #[trigger] Self::spec_mentions(reactions[r], c, inputs) ==> lists[c].contains(
            r as usize)
    }

    /// Whether species `c` occurs among the reaction's inputs (or, with
    /// `inputs` unset, its stoichiometry).
    pub open spec fn spec_mentions(reaction: Reaction, c: int, inputs: bool) -> bool {
        if inputs {
            exists|j: int| 0 <= j < reaction.inputs@.len() && (#[trigger] reaction.inputs@[j]).0
                == c
        } else {
            exists|j: int| 0 <= j < reaction.stoichiometry@.len() && (
            #[trigger] reaction.stoichiometry@[j]).0 == c
        }
    }

    /// Initializes the dependency graph from the state and reactions.
    ///
    /// Species referenced by a reaction must be below the state's length.
    pub fn from_reactions(state: &Vec<i64>, reactions: &Vec<Reaction>) -> (r: ReactionGraph)
        requires
            forall|r: int, j: int| 0 <= r < reactions@.len() && 0 <= j
                < reactions@[r].inputs@.len() ==> (#[trigger] reactions@[r].inputs@[j]).0
                < state@.len(),
            forall|r: int, j: int| 0 <= r < reactions@.len() && 0 <= j
                < reactions@[r].stoichiometry@.len() ==> (
            #[trigger] reactions@[r].stoichiometry@[j]).0 < state@.len(),
        ensures
            r.component_input@.len() == state@.len(),
            r.component_output@.len() == state@.len(),
            Self::spec_complete(r.component_input@.map_values(|v: Vec<usize>| v@), reactions@,
                true),
            Self::spec_complete(r.component_output@.map_values(|v: Vec<usize>| v@), reactions@,
                false),
    {
        let component_input = build_mention_lists(state.len(), reactions, true);
        let component_output = build_mention_lists(state.len(), reactions, false);
        ReactionGraph { component_input, component_output }
    }

    /// Returns the indices of the reactions depending on the given component.
    pub fn have_input(&self, component: usize) -> (r: &Vec<usize>)
        requires
            component < self.component_input@.len(),
        ensures
            r@ == self.component_input@[component as int]@,
    {
        &self.component_input[component]
    }

    /// Returns the indices of the reactions affecting the given component.
    pub fn have_output(&self, component: usize) -> (r: &Vec<usize>)
        requires
            component < self.component_output@.len(),
        ensures
            r@ == self.component_output@[component as int]@,
    {
        &self.component_output[component]
    }
}

/// For every species below `n`, collects the reactions that mention it
/// among their inputs (or their stoichiometry).
fn build_mention_lists(n: usize, reactions: &Vec<Reaction>, inputs: bool) -> (lists: Vec<Vec<
    usize>>)
    requires
        forall|r: int, j: int| 0 <= r < reactions@.len() && 0 <= j < reactions@[r].inputs@.len()
            ==> (#[trigger] reactions@[r].inputs@[j]).0 < n,
        forall|r: int, j: int| 0 <= r < reactions@.len() && 0 <= j
            < reactions@[r].stoichiometry@.len() ==> (
        #[trigger] reactions@[r].stoichiometry@[j]).0 < n,
    ensures
        lists@.len() == n,
        ReactionGraph::spec_complete(lists@.map_values(|v: Vec<usize>| v@), reactions@, inputs),
{
    let mut lists: Vec<Vec<usize>> = Vec::new();
    let mut c: usize = 0;
    while c < n
        invariant
            c <= n,
            lists@.len() == c,
            forall|k: int| 0 <= k < c ==> (#[trigger] lists@[k])@.len() == 0,
        decreases n - c,
    {
        lists.push(Vec::new());
        c = c + 1;
    }
    let mut r: usize = 0;
    while r < reactions.len()
        invariant
            r <= reactions@.len(),
            lists@.len() == n,
            forall|rr: int, j: int| 0 <= rr < reactions@.len() && 0 <= j
                < reactions@[rr].inputs@.len() ==> (#[trigger] reactions@[rr].inputs@[j]).0 < n,
            forall|rr: int, j: int| 0 <= rr < reactions@.len() && 0 <= j
                < reactions@[rr].stoichiometry@.len() ==> (
            #[trigger] reactions@[rr].stoichiometry@[j]).0 < n,
            forall|cc: int, k: int| 0 <= cc < n && 0 <= k < lists@[cc]@.len() ==> {
                let rr = #[trigger] lists@[cc]@[k];
                &&& (rr as int) < r
                &&& ReactionGraph::spec_mentions(reactions@[rr as int], cc, inputs)
            },
            forall|cc: int, rr: int| 0 <= cc < n && 0 <= rr < r
                && #[trigger] ReactionGraph::spec_mentions(reactions@[rr], cc, inputs)
                ==> lists@[cc]@.contains(rr as usize),
        decreases reactions@.len() - r,
    {
        let mut j: usize = 0;
        let end: usize = if inputs {
            reactions[r].inputs.len()
        } else {
            reactions[r].stoichiometry.len()
        };
        while j < end
            invariant
                r < reactions@.len(),
                j <= end,
                lists@.len() == n,
                end == if inputs {
                    reactions@[r as int].inputs@.len()
                } else {
                    reactions@[r as int].stoichiometry@.len()
                },
                forall|rr: int, jj: int| 0 <= rr < reactions@.len() && 0 <= jj
                    < reactions@[rr].inputs@.len() ==> (#[trigger] reactions@[rr].inputs@[jj]).0
                    < n,
                forall|rr: int, jj: int| 0 <= rr < reactions@.len() && 0 <= jj
                    < reactions@[rr].stoichiometry@.len() ==> (
                #[trigger] reactions@[rr].stoichiometry@[jj]).0 < n,
                forall|cc: int, k: int| 0 <= cc < n && 0 <= k < lists@[cc]@.len() ==> {
                    let rr = #[trigger] lists@[cc]@[k];
                    &&& (rr as int) <= r as int
                    &&& ReactionGraph::spec_mentions(reactions@[rr as int], cc, inputs)
                },
                forall|cc: int, rr: int| 0 <= cc < n && 0 <= rr < r
                    && #[trigger] ReactionGraph::spec_mentions(reactions@[rr], cc, inputs)
                    ==> lists@[cc]@.contains(rr as usize),
                inputs ==> forall|jj: int| 0 <= jj < j ==> lists@[(
                #[trigger] reactions@[r as int].inputs@[jj]).0 as int]@.contains(r),
                !inputs ==> forall|jj: int| 0 <= jj < j ==> lists@[(
                #[trigger] reactions@[r as int].stoichiometry@[jj]).0 as int]@.contains(r),
            decreases end - j,
        {
            let comp: usize = if inputs {
                reactions[r].inputs[j].0
            } else {
                reactions[r].stoichiometry[j].0
            };
            let ghost prev = lists@;
            let mut entry = lists.remove(comp);
            entry.push(r);
            lists.insert(comp, entry);
            proof {
                assert(lists@ =~= prev.update(comp as int, lists@[comp as int]));
                assert(lists@[comp as int]@ == prev[comp as int]@.push(r));
                assert(forall|cc: int| 0 <= cc < n && cc != comp as int ==> (
                #[trigger] lists@[cc])@ == prev[cc]@);
                assert(lists@[comp as int]@.contains(r)) by {
                    assert(lists@[comp as int]@[lists@[comp as int]@.len() - 1] == r);
                }
                assert(forall|cc: int, rr: usize| 0 <= cc < n && prev[cc]@.contains(rr)
                    ==> lists@[cc]@.contains(rr)) by {
                    assert forall|cc: int, rr: usize| 0 <= cc < n && prev[cc]@.contains(rr)
                        implies lists@[cc]@.contains(rr) by {
                        let k = choose|k: int| 0 <= k < prev[cc]@.len() && prev[cc]@[k] == rr;
                        assert(lists@[cc]@[k] == rr);
                    }
                }
                if inputs {
                    assert(ReactionGraph::spec_mentions(reactions@[r as int], comp as int, inputs))
                        by {
                        assert((reactions@[r as int].inputs@[j as int]).0 == comp);
                    }
                } else {
                    assert(ReactionGraph::spec_mentions(reactions@[r as int], comp as int, inputs))
                        by {
                        assert((reactions@[r as int].stoichiometry@[j as int]).0 == comp);
                    }
                }
                if inputs {
                    assert forall|jj: int| 0 <= jj < j + 1 implies lists@[(
                    #[trigger] reactions@[r as int].inputs@[jj]).0 as int]@.contains(r) by {
                        let cc = (reactions@[r as int].inputs@[jj]).0 as int;
                        if jj == j as int {
                            assert(cc == comp as int);
                        } else {
                            assert(prev[cc]@.contains(r));
                            let k = choose|k: int| 0 <= k < prev[cc]@.len() && prev[cc]@[k] == r;
                            assert(lists@[cc]@[k] == r);
                        }
                        assert(lists@[cc]@.contains(r));
                    }
                } else {
                    assert forall|jj: int| 0 <= jj < j + 1 implies lists@[(
                    #[trigger] reactions@[r as int].stoichiometry@[jj]).0 as int]@.contains(r) by {
                        let cc = (reactions@[r as int].stoichiometry@[jj]).0 as int;
                        if jj == j as int {
                            assert(cc == comp as int);
                        } else {
                            assert(prev[cc]@.contains(r));
                            let k = choose|k: int| 0 <= k < prev[cc]@.len() && prev[cc]@[k] == r;
                            assert(lists@[cc]@[k] == r);
                        }
                        assert(lists@[cc]@.contains(r));
                    }
                }
            }
            j = j + 1;
        }
        proof {
            assert(forall|cc: int, rr: int| 0 <= cc < n && rr == r as int
                && #[trigger] ReactionGraph::spec_mentions(reactions@[rr], cc, inputs)
                ==> lists@[cc]@.contains(rr as usize)) by {
                assert forall|cc: int| 0 <= cc < n && ReactionGraph::spec_mentions(
                    reactions@[r as int],
                    cc,
                    inputs,
                ) implies lists@[cc]@.contains(r) by {
                    if inputs {
                        let jj = choose|jj: int| 0 <= jj < reactions@[r as int].inputs@.len()
                            && (#[trigger] reactions@[r as int].inputs@[jj]).0 == cc;
                        assert(lists@[cc]@.contains(r));
                    } else {
                        let jj = choose|jj: int| 0 <= jj
                            < reactions@[r as int].stoichiometry@.len() && (
                        #[trigger] reactions@[r as int].stoichiometry@[jj]).0 == cc;
                        assert(lists@[cc]@.contains(r));
                    }
                }
            }
        }
        r = r + 1;
    }
    proof {
        let views = lists@.map_values(|v: Vec<usize>| v@);
        assert(forall|cc: int| 0 <= cc < n ==> #[trigger] views[cc] == lists@[cc]@);
    }
    lists
}

} // verus!
