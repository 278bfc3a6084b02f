//! Reaction records enriched with a per-input self-consumption term.

use vstd::prelude::*;
use crate::reaction::{Reaction, binomial, spec_binomial};

verus! {

/// A struct holding one input of a reaction.
#[derive(Clone, Copy, PartialEq, Eq, Structural, Debug)]
pub struct Input {
    /// The index of the reactant.
    pub index: usize,
    /// The number of times the reactant appears in the reaction.
    pub count: u64,
    /// If the reaction produces more of the input, 0.
    /// Otherwise, the change in the input done by the reaction.
    pub self_consumption: i64,
}

/// The first stoichiometry delta recorded for species `idx`, or 0 if none is.
pub open spec fn spec_first_delta(stoi: Seq<(usize, i64)>, idx: usize) -> int
    decreases stoi.len(),
{
    if stoi.len() == 0 {
        0
    } else if stoi.first().0 == idx {
        stoi.first().1 as int
    } else {
        spec_first_delta(stoi.drop_first(), idx)
    }
}

/// The self-consumption of an input: its own stoichiometry delta, clamped non-positive.
pub open spec fn spec_self_consumption(stoi: Seq<(usize, i64)>, idx: usize) -> int {
    let d = spec_first_delta(stoi, idx);
    if d < 0 {
        d
    } else {
        0
    }
}

/// A population already shifted by the input's self-consumption
/// (when `use_sc` is set), clamped at zero.
pub open spec fn spec_shifted_pop(track: Seq<int>, inp: Input, use_sc: bool) -> nat {
    let raw = track[inp.index as int] - if use_sc {
        inp.self_consumption as int
    } else {
        0
    };
    if raw > 0 {
        raw as nat
    } else {
        0
    }
}

/// The product of the input binomials over a population track.
pub open spec fn spec_bound_product(inputs: Seq<Input>, track: Seq<int>, use_sc: bool) -> nat
    decreases inputs.len(),
{
    if inputs.len() == 0 {
        1
    } else {
        spec_bound_product(inputs.drop_last(), track, use_sc) * spec_binomial(
            spec_shifted_pop(track, inputs.last(), use_sc),
            inputs.last().count as nat,
        )
    }
}

/// The machine limits under which the product of the input binomials
/// can be computed in 64 bits.
pub open spec fn products_fit(inputs: Seq<Input>, track: Seq<int>, use_sc: bool) -> bool {
    &&& forall|j: int| 0 <= j < inputs.len() ==> (#[trigger] inputs[j]).index < track.len()
    &&& forall|j: int| 0 <= j < inputs.len() ==> (#[trigger] inputs[j]).count <= 3
    &&& forall|j: int| 0 <= j < inputs.len() ==> i64::MIN <= track[(#[trigger] inputs[j]).index
        as int] - (if use_sc { inputs[j].self_consumption as int } else { 0 }) <= i64::MAX
    &&& forall|j: int| 0 <= j < inputs.len() ==> {
        let p = spec_shifted_pop(track, #[trigger] inputs[j], use_sc);
        &&& (inputs[j].count == 2 ==> p * p <= u64::MAX)
        &&& (inputs[j].count == 3 ==> p * (p - 1) * (p - 2) <= u64::MAX)
    }
    &&& forall|j: int| 0 <= j <= inputs.len() ==> #[trigger] spec_bound_product(
        inputs.take(j),
        track,
        use_sc,
    ) <= u64::MAX
}

/// A struct describing a single chemical reaction.
///
/// This struct includes a self-interaction term to better handle self-cancellations.
pub struct FReaction {
    /// The inputs to the reaction.
    pub inputs: Vec<Input>,
    /// The change to the reaction state for every firing of the reaction.
    pub stoichiometry: Vec<(usize, i64)>,
    /// The entries of the stoichiometry that increase a population.
    pub positive_stoichiometry: Vec<(usize, i64)>,
    /// The entries of the stoichiometry that decrease a population.
    pub negative_stoichiometry: Vec<(usize, i64)>,
}

impl FReaction {
    /// The derived fields agree with the stoichiometry.
    pub open spec fn wf(self) -> bool {
        &&& self.positive_stoichiometry@ == Reaction::spec_positive(self.stoichiometry@)
        &&& self.negative_stoichiometry@ == Reaction::spec_negative(self.stoichiometry@)
        &&& forall|j: int| 0 <= j < self.inputs@.len() ==> (
        #[trigger] self.inputs@[j]).self_consumption == spec_self_consumption(
            self.stoichiometry@,
            self.inputs@[j].index,
        )
    }

    /// Derives the enriched record from a plain reaction record.
    pub fn from_reaction(reaction: &Reaction) -> (r: FReaction)
        ensures
            r.inputs@.len() == reaction.inputs@.len(),
            forall|j: int| 0 <= j < reaction.inputs@.len() ==> {
                &&& (#[trigger] r.inputs@[j]).index == reaction.inputs@[j].0
                &&& r.inputs@[j].count == reaction.inputs@[j].1
                &&& r.inputs@[j].self_consumption == spec_self_consumption(
                    reaction.stoichiometry@,
                    reaction.inputs@[j].0,
                )
            },
            r.stoichiometry@ == reaction.stoichiometry@,
            r.positive_stoichiometry@ == reaction.positive_stoichiometry@,
            r.negative_stoichiometry@ == reaction.negative_stoichiometry@,
            reaction.wf() ==> r.wf(),
    {
        let copy = reaction.clone();
        let mut inputs: Vec<Input> = Vec::new();
        let mut j: usize = 0;
        while j < reaction.inputs.len()
            invariant
                j <= reaction.inputs@.len(),
                inputs@.len() == j,
                forall|jj: int| 0 <= jj < j ==> {
                    &&& (#[trigger] inputs@[jj]).index == reaction.inputs@[jj].0
                    &&& inputs@[jj].count == reaction.inputs@[jj].1
                    &&& inputs@[jj].self_consumption == spec_self_consumption(
                        reaction.stoichiometry@,
                        reaction.inputs@[jj].0,
                    )
                },
            decreases reaction.inputs@.len() - j,
        {
            let (index, count) = reaction.inputs[j];
            let self_consumption = first_delta_clamped(&reaction.stoichiometry, index);
            inputs.push(Input { index, count, self_consumption });
            j = j + 1;
        }
        FReaction {
            inputs,
            stoichiometry: copy.stoichiometry,
            positive_stoichiometry: copy.positive_stoichiometry,
            negative_stoichiometry: copy.negative_stoichiometry,
        }
    }
}

/// The first stoichiometry delta of species `idx`, clamped non-positive.
fn first_delta_clamped(stoi: &Vec<(usize, i64)>, idx: usize) -> (r: i64)
    ensures
        r == spec_self_consumption(stoi@, idx),
{
    let mut k: usize = 0;
    while k < stoi.len()
        invariant
            k <= stoi@.len(),
            forall|kk: int| 0 <= kk < k ==> (#[trigger] stoi@[kk]).0 != idx,
        decreases stoi@.len() - k,
    {
        let (species, delta) = stoi[k];
        if species == idx {
            proof {
                lemma_first_delta_skip(stoi@, idx, k as int);
                assert(stoi@.skip(k as int).first() == stoi@[k as int]);
            }
            if delta < 0 {
                return delta;
            } else {
                return 0;
            }
        }
        k = k + 1;
    }
    proof {
        lemma_first_delta_skip(stoi@, idx, stoi@.len() as int);
        assert(stoi@.skip(stoi@.len() as int).len() == 0);
    }
    0
}

/// Scanning past entries of other species does not change the first delta.
proof fn lemma_first_delta_skip(stoi: Seq<(usize, i64)>, idx: usize, k: int)
    requires
        0 <= k <= stoi.len(),
        forall|kk: int| 0 <= kk < k ==> (#[trigger] stoi[kk]).0 != idx,
    ensures
        spec_first_delta(stoi, idx) == spec_first_delta(stoi.skip(k), idx),
    decreases k,
{
    if k > 0 {
        assert(stoi[0].0 != idx);
        assert(stoi.first() == stoi[0]);
        assert(forall|kk: int| 0 <= kk < k - 1 ==> (#[trigger] stoi.drop_first()[kk]) == stoi[kk
            + 1]);
        lemma_first_delta_skip(stoi.drop_first(), idx, k - 1);
        assert(stoi.drop_first().skip(k - 1) =~= stoi.skip(k));
    } else {
        assert(stoi.skip(0) =~= stoi);
    }
}

/// A raw population vector, as mathematical integers.
pub open spec fn spec_raw_track(state: Seq<i64>) -> Seq<int> {
    state.map_values(|v: i64| v as int)
}

impl FReaction {
    /// Computes the `input_product` of the reaction, or the number of
    /// combinations of input molecules.
    pub fn input_product(&self, reactants: &Vec<i64>) -> (r: u64)
        requires
            products_fit(self.inputs@, spec_raw_track(reactants@), false),
        ensures
            r == spec_bound_product(self.inputs@, spec_raw_track(reactants@), false),
    {
        let ghost tr = spec_raw_track(reactants@);
        let mut r: u64 = 1;
        let mut i: usize = 0;
        while i < self.inputs.len()
            invariant
                i <= self.inputs@.len(),
                tr == spec_raw_track(reactants@),
                products_fit(self.inputs@, tr, false),
                r == spec_bound_product(self.inputs@.take(i as int), tr, false),
            decreases self.inputs@.len() - i,
        {
            let inp = self.inputs[i];
            let raw = reactants[inp.index];
            let pop: u64 = if raw > 0 {
                raw as u64
            } else {
                0
            };
            proof {
                assert(tr[inp.index as int] == reactants@[inp.index as int]);
                assert(pop == spec_shifted_pop(tr, self.inputs@[i as int], false));
            }
            let b = binomial(pop, inp.count);
            proof {
                assert(self.inputs@.take(i + 1).drop_last() == self.inputs@.take(i as int));
                assert(self.inputs@.take(i + 1).last() == self.inputs@[i as int]);
                assert(spec_bound_product(self.inputs@.take(i + 1), tr, false) <= u64::MAX);
            }
            r = r * b;
            i = i + 1;
        }
        proof {
            assert(self.inputs@.take(self.inputs@.len() as int) == self.inputs@);
        }
        r
    }
}

} // verus!
