//! The per-species population tracks and their bounds.
//!
//! Each species carries a triple `(lower, value, upper)`.  `value` is
//! the population with all currently sampled firings applied; `lower`
//! counts only the negative deltas of those firings and `upper` only
//! the positive ones, so the pair brackets every population reachable
//! by applying any subset of the sampled firings.

use vstd::prelude::*;
use crate::f_reaction::{FReaction, Input, products_fit, spec_bound_product, spec_shifted_pop};
use crate::reaction::{binomial, spec_delta};
use crate::reaction_data::TauData;

verus! {

/// The population tracks of one species.
#[derive(Clone, Copy, PartialEq, Eq, Structural, Debug)]
pub struct ComponentData {
    /// The population if only the negative deltas of the sampled firings applied.
    pub lower: i64,
    /// The population with all sampled firings applied.
    pub value: i64,
    /// The population if only the positive deltas of the sampled firings applied.
    pub upper: i64,
}

impl ComponentData {
    pub fn new(lower: i64, value: i64, upper: i64) -> (r: ComponentData)
        ensures
            r == (ComponentData { lower, value, upper }),
    {
        ComponentData { lower, value, upper }
    }
}

/// The lower track of a component list, as mathematical integers.
pub open spec fn seq_lowers(s: Seq<ComponentData>) -> Seq<int> {
    s.map_values(|c: ComponentData| c.lower as int)
}

/// The value track of a component list, as mathematical integers.
pub open spec fn seq_values(s: Seq<ComponentData>) -> Seq<int> {
    s.map_values(|c: ComponentData| c.value as int)
}

/// The upper track of a component list, as mathematical integers.
pub open spec fn seq_uppers(s: Seq<ComponentData>) -> Seq<int> {
    s.map_values(|c: ComponentData| c.upper as int)
}

/// One track of a component list: 0 the lower, 1 the value, 2 the upper.
pub open spec fn spec_track(s: Seq<ComponentData>, track: u8) -> Seq<int> {
    if track == 0 {
        seq_lowers(s)
    } else if track == 1 {
        seq_values(s)
    } else {
        seq_uppers(s)
    }
}

/// Whether shifting `track` by `e` firings of `stoi` stays within 64 bits
/// at every intermediate step.
pub open spec fn track_shift_fits(track: Seq<int>, stoi: Seq<(usize, i64)>, e: int) -> bool {
    &&& forall|j: int| 0 <= j < stoi.len() ==> i64::MIN <= (#[trigger] stoi[j]).1 * e <= i64::MAX
    &&& forall|i: int, j: int| 0 <= i < track.len() && 0 <= j <= stoi.len() ==> i64::MIN
        <= track[i] + #[trigger] spec_delta(stoi.take(j), i) * e <= i64::MAX
}

/// The state of every species of the simulation.
#[derive(Clone, PartialEq, Eq, Debug)]
pub struct StateData {
    /// The population tracks, one triple per species.
    pub state: Vec<ComponentData>,
}

impl StateData {
    /// The lower track.
    pub open spec fn lowers(self) -> Seq<int> {
        seq_lowers(self.state@)
    }

    /// The value track.
    pub open spec fn values(self) -> Seq<int> {
        seq_values(self.state@)
    }

    /// The upper track.
    pub open spec fn uppers(self) -> Seq<int> {
        seq_uppers(self.state@)
    }

    /// The bounds sandwich: for every species, `lower <= value <= upper`.
    pub open spec fn sandwich(self) -> bool {
        forall|i: int| 0 <= i < self.state@.len() ==> (#[trigger] self.state@[i]).lower
            <= self.state@[i].value <= self.state@[i].upper
    }

    /// The three tracks coincide; holds whenever every sampled firing
    /// has been either applied for good or removed again.
    pub open spec fn tracks_equal(self) -> bool {
        forall|i: int| 0 <= i < self.state@.len() ==> (#[trigger] self.state@[i]).lower
            == self.state@[i].value && self.state@[i].value == self.state@[i].upper
    }

    pub fn new(state: &Vec<i64>) -> (r: StateData)
        ensures
            r.state@.len() == state@.len(),
            forall|i: int| 0 <= i < state@.len() ==> (#[trigger] r.state@[i]) == (ComponentData {
                lower: state@[i],
                value: state@[i],
                upper: state@[i],
            }),
            r.sandwich(),
            r.tracks_equal(),
    {
        let mut r: Vec<ComponentData> = Vec::new();
        let mut i: usize = 0;
        while i < state.len()
            invariant
                i <= state@.len(),
                r@.len() == i,
                forall|k: int| 0 <= k < i ==> (#[trigger] r@[k]) == (ComponentData {
                    lower: state@[k],
                    value: state@[k],
                    upper: state@[k],
                }),
            decreases state@.len() - i,
        {
            let v = state[i];
            r.push(ComponentData { lower: v, value: v, upper: v });
            i = i + 1;
        }
        StateData { state: r }
    }

    /// Returns the number of reactants contained in the state.
    pub fn len(&self) -> (r: usize)
        ensures
            r == self.state@.len(),
    {
        self.state.len()
    }

    /// Returns the tracks of one species.
    pub fn component(&self, i: usize) -> (r: ComponentData)
        requires
            i < self.state@.len(),
        ensures
            r == self.state@[i as int],
    {
        self.state[i]
    }

    /// Changes the error bounds by `event_count` firings of the reaction:
    /// the lower track takes the negative deltas, the upper track the
    /// positive ones, and the value track is untouched.
    pub fn change_bounds(&mut self, event_count: i64, reaction: &FReaction)
        requires
            forall|j: int| 0 <= j < reaction.negative_stoichiometry@.len() ==> (
            #[trigger] reaction.negative_stoichiometry@[j]).0 < old(self).state@.len(),
            forall|j: int| 0 <= j < reaction.positive_stoichiometry@.len() ==> (
            #[trigger] reaction.positive_stoichiometry@[j]).0 < old(self).state@.len(),
            track_shift_fits(old(self).lowers(), reaction.negative_stoichiometry@,
                event_count as int),
            track_shift_fits(old(self).uppers(), reaction.positive_stoichiometry@,
                event_count as int),
        ensures
            final(self).state@.len() == old(self).state@.len(),
            forall|i: int| 0 <= i < old(self).state@.len() ==> final(self).lowers()[i] == old(
                self,
            ).lowers()[i] + spec_delta(reaction.negative_stoichiometry@, i) * event_count,
            final(self).values() == old(self).values(),
            forall|i: int| 0 <= i < old(self).state@.len() ==> final(self).uppers()[i] == old(
                self,
            ).uppers()[i] + spec_delta(reaction.positive_stoichiometry@, i) * event_count,
    {
        if event_count != 0 {
            self.apply_negative(event_count, reaction);
            self.apply_positive(event_count, reaction);
        } else {
            proof {
                assert(forall|i: int| 0 <= i < old(self).state@.len()
                    ==> #[trigger] spec_delta(reaction.negative_stoichiometry@, i) * 0 == 0);
                assert(forall|i: int| 0 <= i < old(self).state@.len()
                    ==> #[trigger] spec_delta(reaction.positive_stoichiometry@, i) * 0 == 0);
            }
        }
    }

    /// Removes the effect of a reaction record from the error bounds.
    pub fn remove_bounds<T: TauData>(&mut self, rdata: &T, reaction: &FReaction)
        requires
            rdata.spec_events() <= i64::MAX,
            forall|j: int| 0 <= j < reaction.negative_stoichiometry@.len() ==> (
            #[trigger] reaction.negative_stoichiometry@[j]).0 < old(self).state@.len(),
            forall|j: int| 0 <= j < reaction.positive_stoichiometry@.len() ==> (
            #[trigger] reaction.positive_stoichiometry@[j]).0 < old(self).state@.len(),
            track_shift_fits(old(self).lowers(), reaction.negative_stoichiometry@,
                -(rdata.spec_events() as int)),
            track_shift_fits(old(self).uppers(), reaction.positive_stoichiometry@,
                -(rdata.spec_events() as int)),
        ensures
            final(self).state@.len() == old(self).state@.len(),
            forall|i: int| 0 <= i < old(self).state@.len() ==> final(self).lowers()[i] == old(
                self,
            ).lowers()[i] - spec_delta(reaction.negative_stoichiometry@, i)
                * rdata.spec_events(),
            final(self).values() == old(self).values(),
            forall|i: int| 0 <= i < old(self).state@.len() ==> final(self).uppers()[i] == old(
                self,
            ).uppers()[i] - spec_delta(reaction.positive_stoichiometry@, i)
                * rdata.spec_events(),
    {
        let events = rdata.event_count();
        let e: i64 = -(events as i64);
        proof {
            let en = rdata.spec_events() as int;
            assert(forall|i: int| #[trigger] spec_delta(reaction.negative_stoichiometry@, i) * (
            -en) == -(spec_delta(reaction.negative_stoichiometry@, i) * en)) by {
                assert forall|i: int| #[trigger] spec_delta(reaction.negative_stoichiometry@, i)
                    * (-en) == -(spec_delta(reaction.negative_stoichiometry@, i) * en) by {
                    let d = spec_delta(reaction.negative_stoichiometry@, i);
                    assert(d * (-en) == -(d * en)) by (nonlinear_arith);
                }
            }
            assert(forall|i: int| #[trigger] spec_delta(reaction.positive_stoichiometry@, i) * (
            -en) == -(spec_delta(reaction.positive_stoichiometry@, i) * en)) by {
                assert forall|i: int| #[trigger] spec_delta(reaction.positive_stoichiometry@, i)
                    * (-en) == -(spec_delta(reaction.positive_stoichiometry@, i) * en) by {
                    let d = spec_delta(reaction.positive_stoichiometry@, i);
                    assert(d * (-en) == -(d * en)) by (nonlinear_arith);
                }
            }
        }
        self.change_bounds(e, reaction);
    }

    /// Adds the effect of a reaction record to the error bounds.
    ///
    /// Widening the bounds by a non-negative count keeps the sandwich:
    /// the lower track only drops and the upper track only grows.
    pub fn add_bounds<T: TauData>(&mut self, rdata: &T, reaction: &FReaction)
        requires
            rdata.spec_events() <= i64::MAX,
            forall|j: int| 0 <= j < reaction.negative_stoichiometry@.len() ==> (
            #[trigger] reaction.negative_stoichiometry@[j]).0 < old(self).state@.len(),
            forall|j: int| 0 <= j < reaction.positive_stoichiometry@.len() ==> (
            #[trigger] reaction.positive_stoichiometry@[j]).0 < old(self).state@.len(),
            track_shift_fits(old(self).lowers(), reaction.negative_stoichiometry@,
                rdata.spec_events() as int),
            track_shift_fits(old(self).uppers(), reaction.positive_stoichiometry@,
                rdata.spec_events() as int),
        ensures
            final(self).state@.len() == old(self).state@.len(),
            forall|i: int| 0 <= i < old(self).state@.len() ==> final(self).lowers()[i] == old(
                self,
            ).lowers()[i] + spec_delta(reaction.negative_stoichiometry@, i)
                * rdata.spec_events(),
            final(self).values() == old(self).values(),
            forall|i: int| 0 <= i < old(self).state@.len() ==> final(self).uppers()[i] == old(
                self,
            ).uppers()[i] + spec_delta(reaction.positive_stoichiometry@, i)
                * rdata.spec_events(),
            old(self).sandwich() && reaction.wf() ==> final(self).sandwich(),
    {
        let events = rdata.event_count();
        self.change_bounds(events as i64, reaction);
        proof {
            if old(self).sandwich() && reaction.wf() {
                crate::reaction::lemma_filtered_signs(reaction.stoichiometry@);
                assert forall|i: int| 0 <= i < self.state@.len() implies (
                #[trigger] self.state@[i]).lower <= self.state@[i].value
                    <= self.state@[i].upper by {
                    let en = rdata.spec_events() as int;
                    let dn = spec_delta(reaction.negative_stoichiometry@, i);
                    let dp = spec_delta(reaction.positive_stoichiometry@, i);
                    lemma_delta_sign(reaction.negative_stoichiometry@, i);
                    lemma_delta_sign(reaction.positive_stoichiometry@, i);
                    assert(dn * en <= 0) by (nonlinear_arith)
                        requires dn <= 0, en >= 0;
                    assert(dp * en >= 0) by (nonlinear_arith)
                        requires dp >= 0, en >= 0;
                    assert(self.lowers()[i] == old(self).lowers()[i] + dn * en);
                    assert(self.uppers()[i] == old(self).uppers()[i] + dp * en);
                    assert(self.values()[i] == old(self).values()[i]);
                }
            }
        }
    }

    /// Applies the reaction to the state for good: all three tracks
    /// advance together by the full stoichiometry, so both the sandwich
    /// and the equality of the tracks are preserved.
    pub fn apply<T: TauData>(&mut self, rdata: &T, reaction: &FReaction)
        requires
            rdata.spec_events() <= i64::MAX,
            forall|j: int| 0 <= j < reaction.stoichiometry@.len() ==> (
            #[trigger] reaction.stoichiometry@[j]).0 < old(self).state@.len(),
            track_shift_fits(old(self).lowers(), reaction.stoichiometry@,
                rdata.spec_events() as int),
            track_shift_fits(old(self).values(), reaction.stoichiometry@,
                rdata.spec_events() as int),
            track_shift_fits(old(self).uppers(), reaction.stoichiometry@,
                rdata.spec_events() as int),
        ensures
            final(self).state@.len() == old(self).state@.len(),
            forall|i: int| 0 <= i < old(self).state@.len() ==> final(self).lowers()[i] == old(
                self,
            ).lowers()[i] + spec_delta(reaction.stoichiometry@, i) * rdata.spec_events(),
            forall|i: int| 0 <= i < old(self).state@.len() ==> final(self).values()[i] == old(
                self,
            ).values()[i] + spec_delta(reaction.stoichiometry@, i) * rdata.spec_events(),
            forall|i: int| 0 <= i < old(self).state@.len() ==> final(self).uppers()[i] == old(
                self,
            ).uppers()[i] + spec_delta(reaction.stoichiometry@, i) * rdata.spec_events(),
            old(self).sandwich() ==> final(self).sandwich(),
            old(self).tracks_equal() ==> final(self).tracks_equal(),
    {
        let events = rdata.event_count();
        shift_tracks(&mut self.state, &reaction.stoichiometry, events as i64, true, true, true);
        proof {
            let en = rdata.spec_events() as int;
            assert forall|i: int| 0 <= i < self.state@.len() implies {
                let d = spec_delta(reaction.stoichiometry@, i);
                &&& (#[trigger] self.state@[i]).lower == old(self).state@[i].lower + d * en
                &&& self.state@[i].value == old(self).state@[i].value + d * en
                &&& self.state@[i].upper == old(self).state@[i].upper + d * en
            } by {
                assert(seq_lowers(self.state@)[i] == self.state@[i].lower);
                assert(seq_lowers(old(self).state@)[i] == old(self).state@[i].lower);
                assert(seq_values(self.state@)[i] == self.state@[i].value);
                assert(seq_values(old(self).state@)[i] == old(self).state@[i].value);
                assert(seq_uppers(self.state@)[i] == self.state@[i].upper);
                assert(seq_uppers(old(self).state@)[i] == old(self).state@[i].upper);
            }
        }
    }

    /// Applies only the negative deltas to the lower track.
    pub fn apply_negative(&mut self, event_count: i64, reaction: &FReaction)
        requires
            forall|j: int| 0 <= j < reaction.negative_stoichiometry@.len() ==> (
            #[trigger] reaction.negative_stoichiometry@[j]).0 < old(self).state@.len(),
            track_shift_fits(old(self).lowers(), reaction.negative_stoichiometry@,
                event_count as int),
        ensures
            final(self).state@.len() == old(self).state@.len(),
            forall|i: int| 0 <= i < old(self).state@.len() ==> final(self).lowers()[i] == old(
                self,
            ).lowers()[i] + spec_delta(reaction.negative_stoichiometry@, i) * event_count,
            final(self).values() == old(self).values(),
            final(self).uppers() == old(self).uppers(),
    {
        shift_tracks(
            &mut self.state,
            &reaction.negative_stoichiometry,
            event_count,
            true,
            false,
            false,
        );
    }

    /// Applies only the positive deltas to the upper track.
    pub fn apply_positive(&mut self, event_count: i64, reaction: &FReaction)
        requires
            forall|j: int| 0 <= j < reaction.positive_stoichiometry@.len() ==> (
            #[trigger] reaction.positive_stoichiometry@[j]).0 < old(self).state@.len(),
            track_shift_fits(old(self).uppers(), reaction.positive_stoichiometry@,
                event_count as int),
        ensures
            final(self).state@.len() == old(self).state@.len(),
            final(self).lowers() == old(self).lowers(),
            final(self).values() == old(self).values(),
            forall|i: int| 0 <= i < old(self).state@.len() ==> final(self).uppers()[i] == old(
                self,
            ).uppers()[i] + spec_delta(reaction.positive_stoichiometry@, i) * event_count,
    {
        shift_tracks(
            &mut self.state,
            &reaction.positive_stoichiometry,
            event_count,
            false,
            false,
            true,
        );
    }

    /// Returns the upper bound of the input product of the reaction.
    pub fn upper_product(&self, reaction: &FReaction) -> (r: u64)
        requires
            products_fit(reaction.inputs@, self.uppers(), false),
        ensures
            r == spec_bound_product(reaction.inputs@, self.uppers(), false),
    {
        bound_product(&reaction.inputs, &self.state, 2, false)
    }

    /// Returns the input product of the reaction.
    pub fn state_product(&self, reaction: &FReaction) -> (r: u64)
        requires
            products_fit(reaction.inputs@, self.values(), false),
        ensures
            r == spec_bound_product(reaction.inputs@, self.values(), false),
    {
        bound_product(&reaction.inputs, &self.state, 1, false)
    }

    /// Returns the lower bound of the input product of the reaction.
    ///
    /// With `has_events` set, each input's self-consumption is charged
    /// before the binomial, modeling that at least one firing has
    /// already consumed a molecule of it.
    pub fn lower_product(&self, reaction: &FReaction, has_events: bool) -> (r: u64)
        requires
            products_fit(reaction.inputs@, self.lowers(), has_events),
        ensures
            r == spec_bound_product(reaction.inputs@, self.lowers(), has_events),
    {
        bound_product(&reaction.inputs, &self.state, 0, has_events)
    }
}

/// The sign of a delta sum follows the signs of its entries.
proof fn lemma_delta_sign(stoi: Seq<(usize, i64)>, i: int)
    ensures
        (forall|j: int| 0 <= j < stoi.len() ==> (#[trigger] stoi[j]).1 < 0) ==> spec_delta(stoi, i)
            <= 0,
        (forall|j: int| 0 <= j < stoi.len() ==> (#[trigger] stoi[j]).1 > 0) ==> spec_delta(stoi, i)
            >= 0,
    decreases stoi.len(),
{
    if stoi.len() > 0 {
        lemma_delta_sign(stoi.drop_last(), i);
        assert(forall|j: int| 0 <= j < stoi.len() - 1 ==> (#[trigger] stoi.drop_last()[j])
            == stoi[j]);
        assert(stoi.last() == stoi[stoi.len() - 1]);
    }
}

/// Adds `e` times the deltas of `stoi` to the chosen tracks.
fn shift_tracks(state: &mut Vec<ComponentData>, stoi: &Vec<(usize, i64)>, e: i64, lo: bool,
    va: bool, up: bool)
    requires
        forall|j: int| 0 <= j < stoi@.len() ==> (#[trigger] stoi@[j]).0 < old(state)@.len(),
        lo ==> track_shift_fits(seq_lowers(old(state)@), stoi@, e as int),
        va ==> track_shift_fits(seq_values(old(state)@), stoi@, e as int),
        up ==> track_shift_fits(seq_uppers(old(state)@), stoi@, e as int),
        stoi@.len() > 0 ==> forall|j: int| 0 <= j < stoi@.len() ==> i64::MIN <= (
        #[trigger] stoi@[j]).1 * e <= i64::MAX,
    ensures
        final(state)@.len() == old(state)@.len(),
        forall|i: int| 0 <= i < old(state)@.len() ==> seq_lowers(final(state)@)[i] == seq_lowers(
            old(state)@,
        )[i] + (if lo { spec_delta(stoi@, i) * e } else { 0 }),
        forall|i: int| 0 <= i < old(state)@.len() ==> seq_values(final(state)@)[i] == seq_values(
            old(state)@,
        )[i] + (if va { spec_delta(stoi@, i) * e } else { 0 }),
        forall|i: int| 0 <= i < old(state)@.len() ==> seq_uppers(final(state)@)[i] == seq_uppers(
            old(state)@,
        )[i] + (if up { spec_delta(stoi@, i) * e } else { 0 }),
{
    let mut j: usize = 0;
    while j < stoi.len()
        invariant
            j <= stoi@.len(),
            state@.len() == old(state)@.len(),
            forall|jj: int| 0 <= jj < stoi@.len() ==> (#[trigger] stoi@[jj]).0 < old(
                state,
            )@.len(),
            lo ==> track_shift_fits(seq_lowers(old(state)@), stoi@, e as int),
            va ==> track_shift_fits(seq_values(old(state)@), stoi@, e as int),
            up ==> track_shift_fits(seq_uppers(old(state)@), stoi@, e as int),
            forall|jj: int| 0 <= jj < stoi@.len() ==> i64::MIN <= (#[trigger] stoi@[jj]).1 * e
                <= i64::MAX,
            forall|i: int| 0 <= i < old(state)@.len() ==> seq_lowers(state@)[i] == seq_lowers(
                old(state)@,
            )[i] + (if lo { spec_delta(stoi@.take(j as int), i) * e } else { 0 }),
            forall|i: int| 0 <= i < old(state)@.len() ==> seq_values(state@)[i] == seq_values(
                old(state)@,
            )[i] + (if va { spec_delta(stoi@.take(j as int), i) * e } else { 0 }),
            forall|i: int| 0 <= i < old(state)@.len() ==> seq_uppers(state@)[i] == seq_uppers(
                old(state)@,
            )[i] + (if up { spec_delta(stoi@.take(j as int), i) * e } else { 0 }),
        decreases stoi@.len() - j,
    {
        let (species, change) = stoi[j];
        let ghost sp = species as int;
        proof {
            assert(stoi@.take(j + 1).drop_last() == stoi@.take(j as int));
            assert(stoi@.take(j + 1).last() == stoi@[j as int]);
            assert(forall|i: int| 0 <= i < old(state)@.len() && i != sp ==> spec_delta(
                stoi@.take(j + 1),
                i,
            ) == spec_delta(stoi@.take(j as int), i));
            assert(spec_delta(stoi@.take(j + 1), sp) == spec_delta(stoi@.take(j as int), sp)
                + change);
            assert((spec_delta(stoi@.take(j as int), sp) + change) * e == spec_delta(
                stoi@.take(j as int),
                sp,
            ) * e + change * e) by (nonlinear_arith);
        }
        let mut c = state[species];
        if lo {
            proof {
                assert(seq_lowers(state@)[sp] == c.lower);
                assert(i64::MIN <= seq_lowers(old(state)@)[sp] + spec_delta(
                    stoi@.take(j + 1),
                    sp,
                ) * e <= i64::MAX);
            }
            c.lower = c.lower + change * e;
        }
        if va {
            proof {
                assert(seq_values(state@)[sp] == c.value);
                assert(i64::MIN <= seq_values(old(state)@)[sp] + spec_delta(
                    stoi@.take(j + 1),
                    sp,
                ) * e <= i64::MAX);
            }
            c.value = c.value + change * e;
        }
        if up {
            proof {
                assert(seq_uppers(state@)[sp] == c.upper);
                assert(i64::MIN <= seq_uppers(old(state)@)[sp] + spec_delta(
                    stoi@.take(j + 1),
                    sp,
                ) * e <= i64::MAX);
            }
            c.upper = c.upper + change * e;
        }
        let ghost prev = state@;
        state.set(species, c);
        proof {
            assert(state@ == prev.update(sp, c));
            assert forall|i: int| 0 <= i < old(state)@.len() implies seq_lowers(state@)[i]
                == seq_lowers(old(state)@)[i] + (if lo {
                spec_delta(stoi@.take(j + 1), i) * e
            } else {
                0
            }) by {
                assert(seq_lowers(state@)[i] == state@[i].lower);
                assert(seq_lowers(prev)[i] == prev[i].lower);
                if i != sp {
                    assert(state@[i] == prev[i]);
                    assert(spec_delta(stoi@.take(j + 1), i) == spec_delta(stoi@.take(j as int), i));
                } else {
                    assert(state@[i] == c);
                }
            }
            assert forall|i: int| 0 <= i < old(state)@.len() implies seq_values(state@)[i]
                == seq_values(old(state)@)[i] + (if va {
                spec_delta(stoi@.take(j + 1), i) * e
            } else {
                0
            }) by {
                assert(seq_values(state@)[i] == state@[i].value);
                assert(seq_values(prev)[i] == prev[i].value);
                if i != sp {
                    assert(state@[i] == prev[i]);
                    assert(spec_delta(stoi@.take(j + 1), i) == spec_delta(stoi@.take(j as int), i));
                } else {
                    assert(state@[i] == c);
                }
            }
            assert forall|i: int| 0 <= i < old(state)@.len() implies seq_uppers(state@)[i]
                == seq_uppers(old(state)@)[i] + (if up {
                spec_delta(stoi@.take(j + 1), i) * e
            } else {
                0
            }) by {
                assert(seq_uppers(state@)[i] == state@[i].upper);
                assert(seq_uppers(prev)[i] == prev[i].upper);
                if i != sp {
                    assert(state@[i] == prev[i]);
                    assert(spec_delta(stoi@.take(j + 1), i) == spec_delta(stoi@.take(j as int), i));
                } else {
                    assert(state@[i] == c);
                }
            }
        }
        j = j + 1;
    }
    proof {
        assert(stoi@.take(stoi@.len() as int) == stoi@);
    }
}

/// The product of the input binomials over the chosen track.
fn bound_product(inputs: &Vec<Input>, state: &Vec<ComponentData>, track: u8, use_sc: bool) -> (r:
    u64)
    requires
        track <= 2,
        products_fit(inputs@, spec_track(state@, track), use_sc),
    ensures
        r == spec_bound_product(inputs@, spec_track(state@, track), use_sc),
{
    let ghost tr = spec_track(state@, track);
    let mut r: u64 = 1;
    let mut i: usize = 0;
    while i < inputs.len()
        invariant
            i <= inputs@.len(),
            track <= 2,
            tr == spec_track(state@, track),
            products_fit(inputs@, tr, use_sc),
            r == spec_bound_product(inputs@.take(i as int), tr, use_sc),
        decreases inputs@.len() - i,
    {
        let inp = inputs[i];
        let c = state[inp.index];
        let raw: i64 = if track == 0 {
            c.lower
        } else if track == 1 {
            c.value
        } else {
            c.upper
        };
        let shifted: i64 = if use_sc {
            raw - inp.self_consumption
        } else {
            raw
        };
        let pop: u64 = if shifted > 0 {
            shifted as u64
        } else {
            0
        };
        proof {
            assert(pop == spec_shifted_pop(tr, inputs@[i as int], use_sc));
        }
        let b = binomial(pop, inp.count);
        proof {
            assert(inputs@.take(i + 1).drop_last() == inputs@.take(i as int));
            assert(inputs@.take(i + 1).last() == inputs@[i as int]);
            assert(spec_bound_product(inputs@.take(i + 1), tr, use_sc) <= u64::MAX);
        }
        r = r * b;
        i = i + 1;
    }
    proof {
        assert(inputs@.take(inputs@.len() as int) == inputs@);
    }
    r
}

/// Non-negativity through the lower track: the lower bound counts only
/// the consumptions of the sampled firings, so whenever it stays
/// non-negative, the populations themselves never dip below zero.
pub proof fn lemma_nonnegative_within_bounds(s: StateData)
    requires
        s.sandwich(),
        forall|i: int| 0 <= i < s.state@.len() ==> (#[trigger] s.state@[i]).lower >= 0,
    ensures
        forall|i: int| 0 <= i < s.state@.len() ==> (#[trigger] s.state@[i]).value >= 0,
{
}

/// The weighted sum of the first `n` entries of a track.
pub open spec fn spec_weighted(w: Seq<int>, v: Seq<int>, n: int) -> int
    decreases n,
{
    if n <= 0 {
        0
    } else {
        spec_weighted(w, v, n - 1) + w[n - 1] * v[n - 1]
    }
}

/// The weighted net change of one firing of a stoichiometry.
pub open spec fn spec_stoi_weight(w: Seq<int>, stoi: Seq<(usize, i64)>) -> int
    decreases stoi.len(),
{
    if stoi.len() == 0 {
        0
    } else {
        spec_stoi_weight(w, stoi.drop_last()) + w[stoi.last().0 as int] * stoi.last().1
    }
}

/// Two tracks that agree pointwise have the same weighted sum.
proof fn lemma_weighted_eq(w: Seq<int>, a: Seq<int>, b: Seq<int>, n: int)
    requires
        forall|i: int| 0 <= i < n ==> a[i] == b[i],
    ensures
        spec_weighted(w, a, n) == spec_weighted(w, b, n),
    decreases n,
{
    if n > 0 {
        lemma_weighted_eq(w, a, b, n - 1);
    }
}

/// Shifting one entry shifts the weighted sum by the weighted amount.
proof fn lemma_weighted_point(w: Seq<int>, a: Seq<int>, b: Seq<int>, idx: int, amt: int, n: int)
    requires
        forall|i: int| 0 <= i < n && i != idx ==> a[i] == b[i],
        0 <= idx < n ==> b[idx] == a[idx] + amt,
    ensures
        spec_weighted(w, b, n) == spec_weighted(w, a, n) + if 0 <= idx < n {
            w[idx] * amt
        } else {
            0
        },
    decreases n,
{
    if n > 0 {
        lemma_weighted_point(w, a, b, idx, amt, n - 1);
        if idx == n - 1 {
            assert(w[n - 1] * (a[n - 1] + amt) == w[n - 1] * a[n - 1] + w[n - 1] * amt)
                by (nonlinear_arith);
        }
    }
}

/// Shifting a track by `e` firings of a stoichiometry shifts its weighted
/// sum by `e` times the stoichiometry's weighted net change.
proof fn lemma_weighted_shift(w: Seq<int>, a: Seq<int>, b: Seq<int>, stoi: Seq<(usize, i64)>,
    e: int, n: int)
    requires
        forall|j: int| 0 <= j < stoi.len() ==> (#[trigger] stoi[j]).0 < n,
        forall|i: int| 0 <= i < n ==> b[i] == a[i] + spec_delta(stoi, i) * e,
    ensures
        spec_weighted(w, b, n) == spec_weighted(w, a, n) + spec_stoi_weight(w, stoi) * e,
    decreases stoi.len(),
{
    if stoi.len() == 0 {
        assert(forall|i: int| 0 <= i < n ==> spec_delta(stoi, i) == 0);
        assert(forall|i: int| 0 <= i < n ==> b[i] == a[i]);
        lemma_weighted_eq(w, a, b, n);
        assert(spec_stoi_weight(w, stoi) * e == 0) by (nonlinear_arith)
            requires spec_stoi_weight(w, stoi) == 0;
    } else {
        let s = stoi.drop_last();
        let idx = stoi.last().0 as int;
        let d = stoi.last().1 as int;
        let c = Seq::new(if n >= 0 { n as nat } else { 0 }, |i: int| a[i] + spec_delta(s, i) * e);
        assert(forall|j: int| 0 <= j < s.len() ==> (#[trigger] s[j]) == stoi[j]);
        lemma_weighted_shift(w, a, c, s, e, n);
        assert forall|i: int| 0 <= i < n && i != idx implies b[i] == c[i] by {
            assert(spec_delta(stoi, i) == spec_delta(s, i));
        }
        if 0 <= idx < n {
            assert(spec_delta(stoi, idx) == spec_delta(s, idx) + d);
            assert((spec_delta(s, idx) + d) * e == spec_delta(s, idx) * e + d * e)
                by (nonlinear_arith);
            assert(b[idx] == c[idx] + d * e);
        }
        lemma_weighted_point(w, c, b, idx, d * e, n);
        assert(spec_stoi_weight(w, stoi) == spec_stoi_weight(w, s) + w[idx] * d);
        assert((spec_stoi_weight(w, s) + w[idx] * d) * e == spec_stoi_weight(w, s) * e + (w[idx]
            * d) * e) by (nonlinear_arith);
        assert(w[idx] * (d * e) == (w[idx] * d) * e) by (nonlinear_arith);
    }
}

/// Conservation law: when the weights `w` annihilate the stoichiometry
/// (`spec_stoi_weight(w, stoi) == 0`), applying any number `e` of firings
/// leaves the weighted sum of the populations exactly unchanged.  Applying
/// a whole trajectory is a chain of such steps, so the invariant holds
/// along every trajectory.
pub proof fn lemma_conservation(w: Seq<int>, before: Seq<int>, after: Seq<int>,
    stoi: Seq<(usize, i64)>, e: int)
    requires
        before.len() == after.len(),
        forall|j: int| 0 <= j < stoi.len() ==> (#[trigger] stoi[j]).0 < before.len(),
        forall|i: int| 0 <= i < before.len() ==> after[i] == before[i] + spec_delta(stoi, i) * e,
        spec_stoi_weight(w, stoi) == 0,
    ensures
        spec_weighted(w, after, before.len() as int) == spec_weighted(
            w,
            before,
            before.len() as int,
        ),
{
    lemma_weighted_shift(w, before, after, stoi, e, before.len() as int);
    assert(spec_stoi_weight(w, stoi) * e == 0) by (nonlinear_arith)
        requires spec_stoi_weight(w, stoi) == 0;
}

/// Bounds round trip: a contribution that is first added to a track and
/// then removed again leaves the track exactly as it was, so the lower
/// and upper tracks collapse back onto the value once every sampled
/// firing has been unwound.
pub proof fn lemma_bounds_round_trip(base: Seq<int>, added: Seq<int>, removed: Seq<int>,
    stoi: Seq<(usize, i64)>, e: int)
    requires
        added.len() == base.len(),
        removed.len() == base.len(),
        forall|i: int| 0 <= i < base.len() ==> added[i] == base[i] + spec_delta(stoi, i) * e,
        forall|i: int| 0 <= i < base.len() ==> removed[i] == added[i] - spec_delta(stoi, i) * e,
    ensures
        removed =~= base,
{
}

/// Split contributions: the two halves of a split record contribute to a
/// track exactly what the whole record would have, so splitting and then
/// summing the children's contributions reproduces the parent's.
pub proof fn lemma_split_contributions(base: Seq<int>, with_left: Seq<int>, with_both: Seq<int>,
    stoi: Seq<(usize, i64)>, e_left: int, e_right: int)
    requires
        with_left.len() == base.len(),
        with_both.len() == base.len(),
        forall|i: int| 0 <= i < base.len() ==> with_left[i] == base[i] + spec_delta(stoi, i)
            * e_left,
        forall|i: int| 0 <= i < base.len() ==> with_both[i] == with_left[i] + spec_delta(stoi, i)
            * e_right,
    ensures
        forall|i: int| 0 <= i < base.len() ==> with_both[i] == base[i] + spec_delta(stoi, i) * (
        e_left + e_right),
{
    assert forall|i: int| 0 <= i < base.len() implies with_both[i] == base[i] + spec_delta(
        stoi,
        i,
    ) * (e_left + e_right) by {
        let d = spec_delta(stoi, i);
        assert(d * (e_left + e_right) == d * e_left + d * e_right) by (nonlinear_arith);
    }
}

} // verus!
