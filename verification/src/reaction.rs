//! Reaction records and the combinatorial counting they rest on.

use vstd::prelude::*;

verus! {

/// The number of subsets of size `k` of a set of size `n`, by Pascal's rule.
pub open spec fn spec_binomial(n: nat, k: nat) -> nat
    decreases n + k,
{
    if k == 0 {
        1
    } else if n == 0 {
        0
    } else {
        spec_binomial((n - 1) as nat, (k - 1) as nat) + spec_binomial((n - 1) as nat, k)
    }
}

/// Choosing more elements than the set holds is impossible.
pub proof fn lemma_binomial_over(n: nat, k: nat)
    requires
        k > n,
    ensures
        spec_binomial(n, k) == 0,
    decreases n,
{
    if n > 0 {
        lemma_binomial_over((n - 1) as nat, (k - 1) as nat);
        lemma_binomial_over((n - 1) as nat, k);
    }
}

/// There are `n` singletons in a set of size `n`.
pub proof fn lemma_binomial_one(n: nat)
    ensures
        spec_binomial(n, 1) == n,
    decreases n,
{
    if n > 0 {
        lemma_binomial_one((n - 1) as nat);
        assert(spec_binomial((n - 1) as nat, 0) == 1);
        assert(spec_binomial(n, 1) == spec_binomial((n - 1) as nat, 0) + spec_binomial(
            (n - 1) as nat,
            1,
        ));
    }
}

/// The closed form of the number of pairs: `2 * C(n, 2) == n * (n - 1)`.
pub proof fn lemma_binomial_two(n: nat)
    ensures
        2 * spec_binomial(n, 2) == n * (n - 1),
    decreases n,
{
    if n > 0 {
        let m = (n - 1) as nat;
        lemma_binomial_two(m);
        lemma_binomial_one(m);
        assert(spec_binomial(n, 2) == spec_binomial(m, 1) + spec_binomial(m, 2));
        assert(2 * spec_binomial(n, 2) == 2 * m + m * (m - 1));
        assert(2 * m + m * (m - 1) == (m + 1) * m) by (nonlinear_arith);
        assert(n * (n - 1) == (m + 1) * m);
    } else {
        assert(spec_binomial(0, 2) == 0);
    }
}

/// The closed form of the number of triples: `6 * C(n, 3) == n * (n - 1) * (n - 2)`.
pub proof fn lemma_binomial_three(n: nat)
    ensures
        6 * spec_binomial(n, 3) == n * (n - 1) * (n - 2),
    decreases n,
{
    if n > 0 {
        let m = (n - 1) as nat;
        lemma_binomial_three(m);
        lemma_binomial_two(m);
        assert(spec_binomial(n, 3) == spec_binomial(m, 2) + spec_binomial(m, 3));
        assert(6 * spec_binomial(m, 2) == 3 * (m * (m - 1)));
        assert(6 * spec_binomial(n, 3) == 3 * (m * (m - 1)) + m * (m - 1) * (m - 2));
        assert(3 * (m * (m - 1)) + m * (m - 1) * (m - 2) == (m + 1) * m * (m - 1))
            by (nonlinear_arith);
        assert(n * (n - 1) * (n - 2) == (m + 1) * m * (m - 1));
    } else {
        assert(spec_binomial(0, 3) == 0);
        assert(n * (n - 1) * (n - 2) == 0) by (nonlinear_arith)
            requires n == 0;
    }
}

/// The multiplicative step between adjacent binomial coefficients:
/// `C(n, k) * (n - k) == C(n, k + 1) * (k + 1)`.
pub proof fn lemma_binomial_factor(n: nat, k: nat)
    requires
        k <= n,
    ensures
        spec_binomial(n, k) * (n - k) == spec_binomial(n, (k + 1) as nat) * (k + 1),
    decreases n,
{
    if k == n {
        lemma_binomial_over(n, (k + 1) as nat);
        assert(n - k == 0);
        assert(spec_binomial(n, k) * (n - k) == 0) by (nonlinear_arith)
            requires n - k == 0;
        assert(spec_binomial(n, (k + 1) as nat) * (k + 1) == 0) by (nonlinear_arith)
            requires spec_binomial(n, (k + 1) as nat) == 0;
    } else if k == 0 {
        lemma_binomial_one(n);
        assert(spec_binomial(n, 0) == 1);
        assert(spec_binomial(n, 1) * 1 == n) by (nonlinear_arith)
            requires spec_binomial(n, 1) == n;
        assert(1 * (n - 0) == n) by (nonlinear_arith);
    } else {
        let m = (n - 1) as nat;
        lemma_binomial_factor(m, (k - 1) as nat);
        lemma_binomial_factor(m, k);
        let a = spec_binomial(m, (k - 1) as nat);
        let b = spec_binomial(m, k);
        let c = spec_binomial(m, (k + 1) as nat);
        assert(spec_binomial(n, k) == a + b);
        assert(spec_binomial(n, (k + 1) as nat) == b + c);
        assert(a * (m - (k - 1)) == b * k);
        assert(b * (m - k) == c * (k + 1));
        assert((a + b) * (n - k) == (b + c) * (k + 1)) by (nonlinear_arith)
            requires
                m == n - 1,
                0 < k < n,
                a * (m - (k - 1)) == b * k,
                b * (m - k) == c * (k + 1),
        ;
    }
}

/// Computes n choose k, or the number of subsets of size k of a set of size n.
pub fn binomial(n: u64, k: u64) -> (r: u64)
    requires
        k == 2 ==> n * n <= u64::MAX,
        k == 3 ==> n * (n - 1) * (n - 2) <= u64::MAX,
        k >= 4 ==> forall|j: int|
            1 <= j <= k ==> #[trigger] spec_binomial(n as nat, j as nat) * j <= u64::MAX,
    ensures
        r == spec_binomial(n as nat, k as nat),
{
    match k {
        0 => 1,
        1 => {
            proof {
                lemma_binomial_one(n as nat);
            }
            n
        },
        2 => {
            proof {
                lemma_binomial_two(n as nat);
                assert(n * n >= n) by (nonlinear_arith);
                assert(n * (n - 1) == n * n - n) by (nonlinear_arith);
                assert((2 * spec_binomial(n as nat, 2)) / 2 == spec_binomial(n as nat, 2));
            }
            (n * n - n) / 2
        },
        3 => {
            if n < 2 {
                proof {
                    lemma_binomial_over(n as nat, 3);
                }
                0
            } else {
                proof {
                    lemma_binomial_three(n as nat);
                    if n >= 3 {
                        assert(n * (n - 1) <= n * (n - 1) * (n - 2)) by (nonlinear_arith)
                            requires n >= 3;
                    } else {
                        assert(n * (n - 1) == 2) by (nonlinear_arith)
                            requires n == 2;
                    }
                    assert((6 * spec_binomial(n as nat, 3)) / 6 == spec_binomial(n as nat, 3));
                }
                n * (n - 1) * (n - 2) / 6
            }
        },
        k => {
            if k > n {
                proof {
                    lemma_binomial_over(n as nat, k as nat);
                }
                return 0;
            }
            let mut res: u64 = 1;
            let mut i: u64 = 0;
            while i < k
                invariant
                    i <= k,
                    k <= n,
                    res == spec_binomial(n as nat, i as nat),
                    forall|j: int|
                        1 <= j <= k ==> #[trigger] spec_binomial(n as nat, j as nat) * j
                            <= u64::MAX,
                decreases k - i,
            {
                proof {
                    lemma_binomial_factor(n as nat, i as nat);
                    assert(spec_binomial(n as nat, (i + 1) as nat) * (i + 1) <= u64::MAX);
                    let c = spec_binomial(n as nat, (i + 1) as nat);
                    assert((c * (i + 1)) / (i + 1) == c) by (nonlinear_arith)
                        requires 0 <= i < u64::MAX;
                }
                res = res * (n - i) / (i + 1);
                i = i + 1;
            }
            res
        },
    }
}

/// A population clamped at zero: negative populations contribute no combinations.
pub open spec fn spec_pop(v: i64) -> nat {
    if v > 0 {
        v as nat
    } else {
        0
    }
}

/// The number of distinct combinations of input molecules available in `st`
/// for the inputs `inputs`, each a pair of species index and multiplicity.
pub open spec fn spec_input_product(inputs: Seq<(usize, u64)>, st: Seq<i64>) -> nat
    decreases inputs.len(),
{
    if inputs.len() == 0 {
        1
    } else {
        spec_input_product(inputs.drop_last(), st) * spec_binomial(
            spec_pop(st[inputs.last().0 as int]),
            inputs.last().1 as nat,
        )
    }
}

/// The total change a stoichiometry list applies to species `i` per firing.
pub open spec fn spec_delta(stoi: Seq<(usize, i64)>, i: int) -> int
    decreases stoi.len(),
{
    if stoi.len() == 0 {
        0
    } else {
        spec_delta(stoi.drop_last(), i) + if stoi.last().0 == i {
            stoi.last().1 as int
        } else {
            0
        }
    }
}

/// A struct describing a single chemical reaction.
///
/// The rate constant is a real number and is carried by the embedding
/// driver; the record here holds everything the discrete bookkeeping
/// reads: which species react, in what multiplicity, and how every
/// firing changes the population vector.
pub struct Reaction {
    /// The inputs to the reaction, each a pair of species index and multiplicity.
    pub inputs: Vec<(usize, u64)>,
    /// The change to the reaction state for every firing of the reaction.
    pub stoichiometry: Vec<(usize, i64)>,
    /// The entries of the stoichiometry that increase a population.
    pub positive_stoichiometry: Vec<(usize, i64)>,
    /// The entries of the stoichiometry that decrease a population.
    pub negative_stoichiometry: Vec<(usize, i64)>,
}

impl Clone for Reaction {
    fn clone(&self) -> (r: Reaction)
        ensures
            r.inputs@ == self.inputs@,
            r.stoichiometry@ == self.stoichiometry@,
            r.positive_stoichiometry@ == self.positive_stoichiometry@,
            r.negative_stoichiometry@ == self.negative_stoichiometry@,
    {
        Reaction {
            inputs: copy_pairs_u64(&self.inputs),
            stoichiometry: copy_pairs_i64(&self.stoichiometry),
            positive_stoichiometry: copy_pairs_i64(&self.positive_stoichiometry),
            negative_stoichiometry: copy_pairs_i64(&self.negative_stoichiometry),
        }
    }
}

/// An element-wise copy of a list of (species, multiplicity) pairs.
fn copy_pairs_u64(v: &Vec<(usize, u64)>) -> (r: Vec<(usize, u64)>)
    ensures
        r@ == v@,
{
    let mut r: Vec<(usize, u64)> = Vec::new();
    let mut i: usize = 0;
    while i < v.len()
        invariant
            i <= v@.len(),
            r@ == v@.take(i as int),
        decreases v@.len() - i,
    {
        r.push(v[i]);
        proof {
            assert(r@ =~= v@.take(i + 1));
        }
        i = i + 1;
    }
    proof {
        assert(v@.take(v@.len() as int) == v@);
    }
    r
}

/// An element-wise copy of a list of (species, delta) pairs.
fn copy_pairs_i64(v: &Vec<(usize, i64)>) -> (r: Vec<(usize, i64)>)
    ensures
        r@ == v@,
{
    let mut r: Vec<(usize, i64)> = Vec::new();
    let mut i: usize = 0;
    while i < v.len()
        invariant
            i <= v@.len(),
            r@ == v@.take(i as int),
        decreases v@.len() - i,
    {
        r.push(v[i]);
        proof {
            assert(r@ =~= v@.take(i + 1));
        }
        i = i + 1;
    }
    proof {
        assert(v@.take(v@.len() as int) == v@);
    }
    r
}

impl Reaction {
    /// The positive part of a stoichiometry list.
    pub open spec fn spec_positive(stoi: Seq<(usize, i64)>) -> Seq<(usize, i64)> {
        stoi.filter(|p: (usize, i64)| p.1 > 0)
    }

    /// The negative part of a stoichiometry list.
    pub open spec fn spec_negative(stoi: Seq<(usize, i64)>) -> Seq<(usize, i64)> {
        stoi.filter(|p: (usize, i64)| p.1 < 0)
    }

    /// The derived positive and negative parts match the stoichiometry.
    pub open spec fn wf(self) -> bool {
        &&& self.positive_stoichiometry@ == Self::spec_positive(self.stoichiometry@)
        &&& self.negative_stoichiometry@ == Self::spec_negative(self.stoichiometry@)
    }

    pub fn new(inputs: Vec<(usize, u64)>, stoichiometry: Vec<(usize, i64)>) -> (r: Reaction)
        ensures
            r.inputs@ == inputs@,
            r.stoichiometry@ == stoichiometry@,
            r.wf(),
    {
        let positive_stoichiometry = filter_stoichiometry(&stoichiometry, true);
        let negative_stoichiometry = filter_stoichiometry(&stoichiometry, false);

        Reaction { inputs, stoichiometry, positive_stoichiometry, negative_stoichiometry }
    }

    /// Computes the `input_product` of the reaction, or the number of combinations of input molecules.
    pub fn input_product(&self, reactants: &Vec<i64>) -> (r: u64)
        requires
            forall|j: int| 0 <= j < self.inputs@.len() ==> (#[trigger] self.inputs@[j]).0
                < reactants@.len(),
            forall|j: int| 0 <= j < self.inputs@.len() ==> (#[trigger] self.inputs@[j]).1 <= 3,
            forall|j: int| 0 <= j < self.inputs@.len() ==> {
                let p = spec_pop(reactants@[(#[trigger] self.inputs@[j]).0 as int]);
                &&& (self.inputs@[j].1 == 2 ==> p * p <= u64::MAX)
                &&& (self.inputs@[j].1 == 3 ==> p * (p - 1) * (p - 2) <= u64::MAX)
            },
            forall|j: int| 0 <= j <= self.inputs@.len() ==> #[trigger] spec_input_product(
                self.inputs@.take(j),
                reactants@,
            ) <= u64::MAX,
        ensures
            r == spec_input_product(self.inputs@, reactants@),
    {
        input_product_of(&self.inputs, reactants)
    }

    /// Applies the reaction to the reactants `count` times.
    pub fn apply(&self, reactants: &mut Vec<i64>, count: i64)
        requires
            forall|j: int| 0 <= j < self.stoichiometry@.len() ==> (
            #[trigger] self.stoichiometry@[j]).0 < old(reactants)@.len(),
            forall|j: int| 0 <= j < self.stoichiometry@.len() ==> i64::MIN <= (
            #[trigger] self.stoichiometry@[j]).1 * count <= i64::MAX,
            forall|i: int, j: int| 0 <= i < old(reactants)@.len() && 0 <= j
                <= self.stoichiometry@.len() ==> i64::MIN <= old(reactants)@[i]
                + #[trigger] spec_delta(self.stoichiometry@.take(j), i) * count <= i64::MAX,
        ensures
            final(reactants)@.len() == old(reactants)@.len(),
            forall|i: int| 0 <= i < old(reactants)@.len() ==> final(reactants)@[i] == old(
                reactants,
            )@[i] + spec_delta(self.stoichiometry@, i) * count,
    {
        apply_stoichiometry(reactants, &self.stoichiometry, count)
    }

    /// Returns the indices of all species that the reaction touches.
    pub fn all_reactants(&self) -> (r: Vec<usize>)
        ensures
            r@ == self.inputs@.map_values(|p: (usize, u64)| p.0) + self.stoichiometry@.map_values(
                |p: (usize, i64)| p.0,
            ),
    {
        let mut r: Vec<usize> = Vec::new();
        let mut i: usize = 0;
        while i < self.inputs.len()
            invariant
                i <= self.inputs@.len(),
                r@ == self.inputs@.take(i as int).map_values(|p: (usize, u64)| p.0),
            decreases self.inputs@.len() - i,
        {
            r.push(self.inputs[i].0);
            proof {
                assert(self.inputs@.take(i + 1).drop_last() == self.inputs@.take(i as int));
                assert(self.inputs@.take(i + 1).map_values(|p: (usize, u64)| p.0) =~= self.inputs@
                    .take(i as int).map_values(|p: (usize, u64)| p.0).push(self.inputs@[i as int].0));
            }
            i = i + 1;
        }
        proof {
            assert(self.inputs@.take(self.inputs@.len() as int) == self.inputs@);
        }
        let mut j: usize = 0;
        while j < self.stoichiometry.len()
            invariant
                j <= self.stoichiometry@.len(),
                r@ == self.inputs@.map_values(|p: (usize, u64)| p.0) + self.stoichiometry@.take(
                    j as int,
                ).map_values(|p: (usize, i64)| p.0),
            decreases self.stoichiometry@.len() - j,
        {
            r.push(self.stoichiometry[j].0);
            proof {
                assert(self.stoichiometry@.take(j + 1).drop_last() == self.stoichiometry@.take(
                    j as int,
                ));
                assert(self.stoichiometry@.take(j + 1).map_values(|p: (usize, i64)| p.0)
                    =~= self.stoichiometry@.take(j as int).map_values(|p: (usize, i64)| p.0).push(
                    self.stoichiometry@[j as int].0,
                ));
                assert(r@ =~= self.inputs@.map_values(|p: (usize, u64)| p.0)
                    + self.stoichiometry@.take(j + 1).map_values(|p: (usize, i64)| p.0));
            }
            j = j + 1;
        }
        proof {
            assert(self.stoichiometry@.take(self.stoichiometry@.len() as int)
                == self.stoichiometry@);
        }
        r
    }
}

/// Keeps the entries with positive deltas when `positive` is set,
/// else those with negative deltas.
fn filter_stoichiometry(stoi: &Vec<(usize, i64)>, positive: bool) -> (r: Vec<(usize, i64)>)
    ensures
        positive ==> r@ == Reaction::spec_positive(stoi@),
        !positive ==> r@ == Reaction::spec_negative(stoi@),
{
    let mut r: Vec<(usize, i64)> = Vec::new();
    let mut i: usize = 0;
    while i < stoi.len()
        invariant
            i <= stoi@.len(),
            positive ==> r@ == stoi@.take(i as int).filter(|p: (usize, i64)| p.1 > 0),
            !positive ==> r@ == stoi@.take(i as int).filter(|p: (usize, i64)| p.1 < 0),
        decreases stoi@.len() - i,
    {
        let entry = stoi[i];
        if positive {
            if entry.1 > 0 {
                r.push(entry);
            }
        } else {
            if entry.1 < 0 {
                r.push(entry);
            }
        }
        proof {
            reveal(Seq::filter);
            assert(stoi@.take(i + 1).drop_last() == stoi@.take(i as int));
            assert(stoi@.take(i + 1).last() == stoi@[i as int]);
        }
        i = i + 1;
    }
    proof {
        assert(stoi@.take(stoi@.len() as int) == stoi@);
    }
    r
}

/// The product of the input binomials, over a raw population vector.
fn input_product_of(inputs: &Vec<(usize, u64)>, reactants: &Vec<i64>) -> (r: u64)
    requires
        forall|j: int| 0 <= j < inputs@.len() ==> (#[trigger] inputs@[j]).0 < reactants@.len(),
        forall|j: int| 0 <= j < inputs@.len() ==> (#[trigger] inputs@[j]).1 <= 3,
        forall|j: int| 0 <= j < inputs@.len() ==> {
            let p = spec_pop(reactants@[(#[trigger] inputs@[j]).0 as int]);
            &&& (inputs@[j].1 == 2 ==> p * p <= u64::MAX)
            &&& (inputs@[j].1 == 3 ==> p * (p - 1) * (p - 2) <= u64::MAX)
        },
        forall|j: int| 0 <= j <= inputs@.len() ==> #[trigger] spec_input_product(
            inputs@.take(j),
            reactants@,
        ) <= u64::MAX,
    ensures
        r == spec_input_product(inputs@, reactants@),
{
    let mut r: u64 = 1;
    let mut i: usize = 0;
    proof {
        assert(inputs@.take(0).len() == 0);
    }
    while i < inputs.len()
        invariant
            i <= inputs@.len(),
            r == spec_input_product(inputs@.take(i as int), reactants@),
            forall|j: int| 0 <= j < inputs@.len() ==> (#[trigger] inputs@[j]).0
                < reactants@.len(),
            forall|j: int| 0 <= j < inputs@.len() ==> (#[trigger] inputs@[j]).1 <= 3,
            forall|j: int| 0 <= j < inputs@.len() ==> {
                let p = spec_pop(reactants@[(#[trigger] inputs@[j]).0 as int]);
                &&& (inputs@[j].1 == 2 ==> p * p <= u64::MAX)
                &&& (inputs@[j].1 == 3 ==> p * (p - 1) * (p - 2) <= u64::MAX)
            },
            forall|j: int| 0 <= j <= inputs@.len() ==> #[trigger] spec_input_product(
                inputs@.take(j),
                reactants@,
            ) <= u64::MAX,
        decreases inputs@.len() - i,
    {
        let (species, count) = inputs[i];
        let raw = reactants[species];
        let pop: u64 = if raw > 0 {
            raw as u64
        } else {
            0
        };
        proof {
            assert(pop == spec_pop(reactants@[inputs@[i as int].0 as int]));
        }
        let b = binomial(pop, count);
        proof {
            assert(inputs@.take(i + 1).drop_last() == inputs@.take(i as int));
            assert(inputs@.take(i + 1).last() == inputs@[i as int]);
            assert(spec_input_product(inputs@.take(i + 1), reactants@) == spec_input_product(
                inputs@.take(i as int),
                reactants@,
            ) * spec_binomial(spec_pop(reactants@[inputs@[i as int].0 as int]),
                inputs@[i as int].1 as nat));
            assert(spec_input_product(inputs@.take(i + 1), reactants@) <= u64::MAX);
        }
        r = r * b;
        i = i + 1;
    }
    proof {
        assert(inputs@.take(inputs@.len() as int) == inputs@);
    }
    r
}

/// Adds `count` times the stoichiometry to the population vector.
fn apply_stoichiometry(reactants: &mut Vec<i64>, stoi: &Vec<(usize, i64)>, count: i64)
    requires
        forall|j: int| 0 <= j < stoi@.len() ==> (#[trigger] stoi@[j]).0 < old(reactants)@.len(),
        forall|j: int| 0 <= j < stoi@.len() ==> i64::MIN <= (#[trigger] stoi@[j]).1 * count
            <= i64::MAX,
        forall|i: int, j: int| 0 <= i < old(reactants)@.len() && 0 <= j <= stoi@.len()
            ==> i64::MIN <= old(reactants)@[i] + #[trigger] spec_delta(stoi@.take(j), i) * count
            <= i64::MAX,
    ensures
        final(reactants)@.len() == old(reactants)@.len(),
        forall|i: int| 0 <= i < old(reactants)@.len() ==> final(reactants)@[i] == old(reactants)@[i]
            + spec_delta(stoi@, i) * count,
{
    let mut j: usize = 0;
    while j < stoi.len()
        invariant
            j <= stoi@.len(),
            reactants@.len() == old(reactants)@.len(),
            forall|i: int| 0 <= i < old(reactants)@.len() ==> reactants@[i] == old(reactants)@[i]
                + spec_delta(stoi@.take(j as int), i) * count,
            forall|jj: int| 0 <= jj < stoi@.len() ==> (#[trigger] stoi@[jj]).0 < old(
                reactants,
            )@.len(),
            forall|jj: int| 0 <= jj < stoi@.len() ==> i64::MIN <= (#[trigger] stoi@[jj]).1 * count
                <= i64::MAX,
            forall|i: int, jj: int| 0 <= i < old(reactants)@.len() && 0 <= jj <= stoi@.len()
                ==> i64::MIN <= old(reactants)@[i] + #[trigger] spec_delta(stoi@.take(jj), i)
                * count <= i64::MAX,
        decreases stoi@.len() - j,
    {
        let (species, change) = stoi[j];
        proof {
            assert(stoi@.take(j + 1).drop_last() == stoi@.take(j as int));
            assert(stoi@.take(j + 1).last() == stoi@[j as int]);
            assert(forall|i: int| 0 <= i < old(reactants)@.len() && i != species as int
                ==> spec_delta(stoi@.take(j + 1), i) == spec_delta(stoi@.take(j as int), i));
            assert(spec_delta(stoi@.take(j + 1), species as int) == spec_delta(
                stoi@.take(j as int),
                species as int,
            ) + change);
            assert((spec_delta(stoi@.take(j as int), species as int) + change) * count
                == spec_delta(stoi@.take(j as int), species as int) * count + change * count)
                by (nonlinear_arith);
        }
        let updated = reactants[species] + change * count;
        reactants.set(species, updated);
        j = j + 1;
    }
    proof {
        assert(stoi@.take(stoi@.len() as int) == stoi@);
    }
}

/// Entries of the positive part of a stoichiometry are positive,
/// and those of the negative part negative.
pub proof fn lemma_filtered_signs(stoi: Seq<(usize, i64)>)
    ensures
        forall|j: int| 0 <= j < Reaction::spec_positive(stoi).len() ==> (
        #[trigger] Reaction::spec_positive(stoi)[j]).1 > 0,
        forall|j: int| 0 <= j < Reaction::spec_negative(stoi).len() ==> (
        #[trigger] Reaction::spec_negative(stoi)[j]).1 < 0,
{
    assert forall|j: int| 0 <= j < Reaction::spec_positive(stoi).len() implies (
    #[trigger] Reaction::spec_positive(stoi)[j]).1 > 0 by {
        stoi.lemma_filter_pred(|p: (usize, i64)| p.1 > 0, j);
    }
    assert forall|j: int| 0 <= j < Reaction::spec_negative(stoi).len() implies (
    #[trigger] Reaction::spec_negative(stoi)[j]).1 < 0 by {
        stoi.lemma_filter_pred(|p: (usize, i64)| p.1 < 0, j);
    }
}

} // verus!
