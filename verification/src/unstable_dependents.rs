//! Tracking how many unstable reactions consume each reactant.

use vstd::prelude::*;
use crate::f_reaction::{FReaction, Input};

verus! {

/// The number of times species `i` occurs among the inputs.
pub open spec fn spec_input_count(inputs: Seq<Input>, i: int) -> int
    decreases inputs.len(),
{
    if inputs.len() == 0 {
        0
    } else {
        spec_input_count(inputs.drop_last(), i) + if inputs.last().index == i {
            1int
        } else {
            0int
        }
    }
}

/// A struct that tracks how many unstable reactions depend on each reactant.
#[derive(Clone, PartialEq, Eq, Debug)]
pub struct UnstableDependents {
    /// For every reactant, the number of unstable reactions consuming it.
    pub dependent_count: Vec<usize>,
}

impl UnstableDependents {
    pub fn empty(reactant_count: usize) -> (r: UnstableDependents)
        ensures
            r.dependent_count@.len() == reactant_count,
            forall|i: int| 0 <= i < reactant_count ==> r.dependent_count@[i] == 0usize,
    {
        let mut counts: Vec<usize> = Vec::new();
        let mut i: usize = 0;
        while i < reactant_count
            invariant
                i <= reactant_count,
                counts@.len() == i,
                forall|k: int| 0 <= k < i ==> counts@[k] == 0usize,
            decreases reactant_count - i,
        {
            counts.push(0);
            i = i + 1;
        }
        UnstableDependents { dependent_count: counts }
    }

    /// The stored count for one reactant.
    pub fn count(&self, i: usize) -> (r: usize)
        requires
            i < self.dependent_count@.len(),
        ensures
            r == self.dependent_count@[i as int],
    {
        self.dependent_count[i]
    }

    /// Adds an unstable reaction to the tracker: every input's counter
    /// rises by its number of occurrences.
    pub fn add_unstable(&mut self, reaction: &FReaction)
        requires
            forall|j: int| 0 <= j < reaction.inputs@.len() ==> (#[trigger] reaction.inputs@[j])
                .index < old(self).dependent_count@.len(),
            forall|i: int, j: int| 0 <= i < old(self).dependent_count@.len() && 0 <= j
                <= reaction.inputs@.len() ==> old(self).dependent_count@[i]
                + #[trigger] spec_input_count(reaction.inputs@.take(j), i) <= usize::MAX,
        ensures
            final(self).dependent_count@.len() == old(self).dependent_count@.len(),
            forall|i: int| 0 <= i < old(self).dependent_count@.len()
                ==> final(self).dependent_count@[i] == old(self).dependent_count@[i]
                + spec_input_count(reaction.inputs@, i),
    {
        let mut j: usize = 0;
        while j < reaction.inputs.len()
            invariant
                j <= reaction.inputs@.len(),
                self.dependent_count@.len() == old(self).dependent_count@.len(),
                forall|jj: int| 0 <= jj < reaction.inputs@.len() ==> (
                #[trigger] reaction.inputs@[jj]).index < old(self).dependent_count@.len(),
                forall|i: int, jj: int| 0 <= i < old(self).dependent_count@.len() && 0 <= jj
                    <= reaction.inputs@.len() ==> old(self).dependent_count@[i]
                    + #[trigger] spec_input_count(reaction.inputs@.take(jj), i) <= usize::MAX,
                forall|i: int| 0 <= i < old(self).dependent_count@.len() ==> self.dependent_count@[i]
                    == old(self).dependent_count@[i] + spec_input_count(
                    reaction.inputs@.take(j as int),
                    i,
                ),
            decreases reaction.inputs@.len() - j,
        {
            let idx = reaction.inputs[j].index;
            proof {
                assert(reaction.inputs@.take(j + 1).drop_last() == reaction.inputs@.take(j as int));
                assert(reaction.inputs@.take(j + 1).last() == reaction.inputs@[j as int]);
                assert(spec_input_count(reaction.inputs@.take(j + 1), idx as int)
                    == spec_input_count(reaction.inputs@.take(j as int), idx as int) + 1);
                assert(forall|i: int| i != idx as int ==> spec_input_count(
                    reaction.inputs@.take(j + 1),
                    i,
                ) == spec_input_count(reaction.inputs@.take(j as int), i));
                assert(old(self).dependent_count@[idx as int] + spec_input_count(
                    reaction.inputs@.take(j + 1),
                    idx as int,
                ) <= usize::MAX);
            }
            let c = self.dependent_count[idx];
            self.dependent_count.set(idx, c + 1);
            j = j + 1;
        }
        proof {
            assert(reaction.inputs@.take(reaction.inputs@.len() as int) == reaction.inputs@);
        }
    }

    /// Removes an unstable reaction from the tracker.
    pub fn remove_unstable(&mut self, reaction: &FReaction)
        requires
            forall|j: int| 0 <= j < reaction.inputs@.len() ==> (#[trigger] reaction.inputs@[j])
                .index < old(self).dependent_count@.len(),
            forall|i: int, j: int| 0 <= i < old(self).dependent_count@.len() && 0 <= j
                <= reaction.inputs@.len() ==> old(self).dependent_count@[i]
                - #[trigger] spec_input_count(reaction.inputs@.take(j), i) >= 0,
        ensures
            final(self).dependent_count@.len() == old(self).dependent_count@.len(),
            forall|i: int| 0 <= i < old(self).dependent_count@.len()
                ==> final(self).dependent_count@[i] == old(self).dependent_count@[i]
                - spec_input_count(reaction.inputs@, i),
    {
        let mut j: usize = 0;
        while j < reaction.inputs.len()
            invariant
                j <= reaction.inputs@.len(),
                self.dependent_count@.len() == old(self).dependent_count@.len(),
                forall|jj: int| 0 <= jj < reaction.inputs@.len() ==> (
                #[trigger] reaction.inputs@[jj]).index < old(self).dependent_count@.len(),
                forall|i: int, jj: int| 0 <= i < old(self).dependent_count@.len() && 0 <= jj
                    <= reaction.inputs@.len() ==> old(self).dependent_count@[i]
                    - #[trigger] spec_input_count(reaction.inputs@.take(jj), i) >= 0,
                forall|i: int| 0 <= i < old(self).dependent_count@.len() ==> self.dependent_count@[i]
                    == old(self).dependent_count@[i] - spec_input_count(
                    reaction.inputs@.take(j as int),
                    i,
                ),
            decreases reaction.inputs@.len() - j,
        {
            let idx = reaction.inputs[j].index;
            proof {
                assert(reaction.inputs@.take(j + 1).drop_last() == reaction.inputs@.take(j as int));
                assert(reaction.inputs@.take(j + 1).last() == reaction.inputs@[j as int]);
                assert(spec_input_count(reaction.inputs@.take(j + 1), idx as int)
                    == spec_input_count(reaction.inputs@.take(j as int), idx as int) + 1);
                assert(forall|i: int| i != idx as int ==> spec_input_count(
                    reaction.inputs@.take(j + 1),
                    i,
                ) == spec_input_count(reaction.inputs@.take(j as int), i));
                assert(old(self).dependent_count@[idx as int] - spec_input_count(
                    reaction.inputs@.take(j + 1),
                    idx as int,
                ) >= 0);
            }
            let c = self.dependent_count[idx];
            self.dependent_count.set(idx, c - 1);
            j = j + 1;
        }
        proof {
            assert(reaction.inputs@.take(reaction.inputs@.len() as int) == reaction.inputs@);
        }
    }

    /// Checks if any species the reaction changes is consumed by an
    /// unstable reaction.
    pub fn has_dependents(&self, reaction: &FReaction) -> (r: bool)
        requires
            forall|j: int| 0 <= j < reaction.stoichiometry@.len() ==> (
            #[trigger] reaction.stoichiometry@[j]).0 < self.dependent_count@.len(),
        ensures
            r == exists|j: int| 0 <= j < reaction.stoichiometry@.len()
                && self.dependent_count@[(#[trigger] reaction.stoichiometry@[j]).0 as int] > 0,
    {
        let mut j: usize = 0;
        while j < reaction.stoichiometry.len()
            invariant
                j <= reaction.stoichiometry@.len(),
                forall|jj: int| 0 <= jj < reaction.stoichiometry@.len() ==> (
                #[trigger] reaction.stoichiometry@[jj]).0 < self.dependent_count@.len(),
                forall|jj: int| 0 <= jj < j ==> self.dependent_count@[(
                #[trigger] reaction.stoichiometry@[jj]).0 as int] == 0,
            decreases reaction.stoichiometry@.len() - j,
        {
            let (comp, _) = reaction.stoichiometry[j];
            if self.dependent_count[comp] > 0 {
                return true;
            }
            j = j + 1;
        }
        false
    }
}

} // verus!
