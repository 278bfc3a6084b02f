//! The textual network format.
//!
//! Each line of a network file either sets a species' initial amount
//! (`A = 5`) or declares a reaction (`2A + B -> 3C, 3.5e-9`).  The
//! grammar is parsed here over raw bytes; the rate constant, a real
//! number, is handed back as the text it was written as, for the
//! embedding driver to convert.

use vstd::prelude::*;
use crate::reaction::Reaction;

verus! {

/// An ASCII decimal digit.
pub open spec fn spec_is_digit(b: u8) -> bool {
    48 <= b <= 57
}

/// An ASCII letter or digit; species names are made of these.
pub open spec fn spec_is_alnum(b: u8) -> bool {
    spec_is_digit(b) || (65 <= b <= 90) || (97 <= b <= 122)
}

/// Blank space inside a line.
pub open spec fn spec_is_space(b: u8) -> bool {
    b == 32 || b == 9 || b == 13 || b == 10
}

/// The digit predicate, as a function value.
pub open spec fn digit_pred() -> spec_fn(u8) -> bool {
    |b: u8| spec_is_digit(b)
}

/// The name-byte predicate, as a function value.
pub open spec fn alnum_pred() -> spec_fn(u8) -> bool {
    |b: u8| spec_is_alnum(b)
}

/// The space predicate, as a function value.
pub open spec fn space_pred() -> spec_fn(u8) -> bool {
    |b: u8| spec_is_space(b)
}

/// The first position at or after `i` that does not satisfy `pred`.
pub open spec fn spec_run_end(s: Seq<u8>, i: int, pred: spec_fn(u8) -> bool) -> int
    decreases s.len() - i,
{
    if i < 0 || i >= s.len() {
        i
    } else if pred(s[i]) {
        spec_run_end(s, i + 1, pred)
    } else {
        i
    }
}

/// The numeric value of the digits `s[from..to]`.
pub open spec fn spec_digits_value(s: Seq<u8>, from: int, to: int) -> int
    decreases to - from,
{
    if to <= from {
        0
    } else {
        spec_digits_value(s, from, to - 1) * 10 + (s[to - 1] - 48)
    }
}

/// A run end never lies before its start and never passes the end.
pub proof fn lemma_run_end_bounds(s: Seq<u8>, i: int, pred: spec_fn(u8) -> bool)
    requires
        0 <= i <= s.len(),
    ensures
        i <= spec_run_end(s, i, pred) <= s.len(),
        forall|k: int| i <= k < spec_run_end(s, i, pred) ==> pred(s[k]),
        spec_run_end(s, i, pred) < s.len() ==> !pred(s[spec_run_end(s, i, pred)]),
    decreases s.len() - i,
{
    if i < s.len() && pred(s[i]) {
        lemma_run_end_bounds(s, i + 1, pred);
    }
}

/// A digit run's value is never negative.
proof fn lemma_digits_value_nonneg(s: Seq<u8>, from: int, a: int)
    requires
        forall|k: int| from <= k < a ==> 0 <= #[trigger] s[k] - 48,
    ensures
        spec_digits_value(s, from, a) >= 0,
    decreases a - from,
{
    if a > from {
        lemma_digits_value_nonneg(s, from, a - 1);
        assert(spec_digits_value(s, from, a - 1) * 10 >= 0) by (nonlinear_arith)
            requires spec_digits_value(s, from, a - 1) >= 0;
    }
}

/// Digit values only grow as a run is extended.
proof fn lemma_digits_value_monotone(s: Seq<u8>, from: int, a: int, b: int)
    requires
        from <= a <= b,
        forall|k: int| from <= k < b ==> 0 <= #[trigger] s[k] - 48,
    ensures
        spec_digits_value(s, from, a) <= spec_digits_value(s, from, b),
    decreases b - a,
{
    if a < b {
        lemma_digits_value_monotone(s, from, a, b - 1);
        lemma_digits_value_nonneg(s, from, b - 1);
        assert(spec_digits_value(s, from, b) == spec_digits_value(s, from, b - 1) * 10 + (s[b - 1]
            - 48));
        assert(spec_digits_value(s, from, b - 1) * 10 >= spec_digits_value(s, from, b - 1))
            by (nonlinear_arith)
            requires spec_digits_value(s, from, b - 1) >= 0;
    }
}

/// Skips blank space.
fn skip_spaces(line: &Vec<u8>, from: usize) -> (r: usize)
    requires
        from <= line@.len(),
    ensures
        r == spec_run_end(line@, from as int, space_pred()),
        from <= r <= line@.len(),
{
    let mut i = from;
    while i < line.len() && (line[i] == 32 || line[i] == 9 || line[i] == 13 || line[i] == 10)
        invariant
            from <= i <= line@.len(),
            spec_run_end(line@, from as int, space_pred()) == spec_run_end(
                line@,
                i as int,
                space_pred(),
            ),
        decreases line@.len() - i,
    {
        i = i + 1;
    }
    i
}

/// Scans to the end of a run of name bytes.
fn scan_alnum(line: &Vec<u8>, from: usize) -> (r: usize)
    requires
        from <= line@.len(),
    ensures
        r == spec_run_end(line@, from as int, alnum_pred()),
        from <= r <= line@.len(),
{
    let mut i = from;
    while i < line.len() && (
        (48 <= line[i] && line[i] <= 57)
        || (65 <= line[i] && line[i] <= 90)
        || (97 <= line[i] && line[i] <= 122)
    )
        invariant
            from <= i <= line@.len(),
            spec_run_end(line@, from as int, alnum_pred()) == spec_run_end(
                line@,
                i as int,
                alnum_pred(),
            ),
        decreases line@.len() - i,
    {
        i = i + 1;
    }
    i
}

/// Copies `line[from..to]` out.
fn copy_range(line: &Vec<u8>, from: usize, to: usize) -> (r: Vec<u8>)
    requires
        from <= to <= line@.len(),
    ensures
        r@ == line@.subrange(from as int, to as int),
{
    let mut r: Vec<u8> = Vec::new();
    let mut i = from;
    while i < to
        invariant
            from <= i <= to <= line@.len(),
            r@ == line@.subrange(from as int, i as int),
        decreases to - i,
    {
        r.push(line[i]);
        proof {
            assert(r@ =~= line@.subrange(from as int, i + 1));
        }
        i = i + 1;
    }
    r
}

/// What a decimal run at `from` denotes: its value and its end, or
/// nothing when there is no digit or the value does not fit in 64 bits.
pub open spec fn spec_decimal(s: Seq<u8>, from: int) -> Option<(u64, int)> {
    let end = spec_run_end(s, from, digit_pred());
    if end == from {
        None
    } else if spec_digits_value(s, from, end) > u64::MAX {
        None
    } else {
        Some((spec_digits_value(s, from, end) as u64, end))
    }
}

/// A parser for a nonnegative decimal number, returning its value and
/// the position just past it.
#[verifier::rlimit(50)]
pub fn decimal(line: &Vec<u8>, from: usize) -> (r: Option<(u64, usize)>)
    requires
        from <= line@.len(),
    ensures
        match r {
            None => spec_decimal(line@, from as int) is None,
            Some(p) => spec_decimal(line@, from as int) == Some((p.0, p.1 as int)),
        },
{
    let end = scan_digits(line, from);
    proof {
        lemma_run_end_bounds(line@, from as int, digit_pred());
    }
    if end == from {
        return None;
    }
    let mut value: u64 = 0;
    let mut i = from;
    while i < end
        invariant
            from <= i <= end <= line@.len(),
            end == spec_run_end(line@, from as int, digit_pred()),
            forall|k: int| from <= k < end ==> spec_is_digit(#[trigger] line@[k]),
            value == spec_digits_value(line@, from as int, i as int),
        decreases end - i,
    {
        let d = line[i] - 48;
        proof {
            assert(spec_is_digit(line@[i as int]));
        }
        if value > (u64::MAX - d as u64) / 10 {
            proof {
                assert(0 <= d <= 9);
                assert(forall|k: int| from <= k < end ==> 0 <= #[trigger] line@[k] - 48);
                let v1 = spec_digits_value(line@, from as int, i + 1);
                assert(v1 == value * 10 + d);
                assert(v1 > u64::MAX) by (nonlinear_arith)
                    requires
                        v1 == value * 10 + d,
                        value > (u64::MAX - d) / 10,
                        0 <= d <= 9,
                        value >= 0,
                ;
                lemma_digits_value_nonneg(line@, from as int, i as int);
                lemma_digits_value_monotone(line@, from as int, (i + 1) as int, end as int);
                assert(spec_digits_value(line@, from as int, end as int) > u64::MAX);
                assert(spec_decimal(line@, from as int) is None);
            }
            return None;
        }
        proof {
            assert(value * 10 + d <= u64::MAX) by (nonlinear_arith)
                requires
                    value <= (u64::MAX - d) / 10,
                    0 <= d <= 9,
                    value >= 0,
            ;
        }
        value = value * 10 + d as u64;
        i = i + 1;
    }
    Some((value, end))
}

/// Scans to the end of a digit run.
fn scan_digits(line: &Vec<u8>, from: usize) -> (r: usize)
    requires
        from <= line@.len(),
    ensures
        r == spec_run_end(line@, from as int, digit_pred()),
        from <= r <= line@.len(),
{
    let mut i = from;
    while i < line.len() && 48 <= line[i] && line[i] <= 57
        invariant
            from <= i <= line@.len(),
            spec_run_end(line@, from as int, digit_pred()) == spec_run_end(
                line@,
                i as int,
                digit_pred(),
            ),
        decreases line@.len() - i,
    {
        i = i + 1;
    }
    i
}

/// What a reaction term (`2A`, `B`) at `from` denotes: multiplicity,
/// name and end position.
pub open spec fn spec_parse_item(s: Seq<u8>, from: int) -> Option<(u64, Seq<u8>, int)> {
    let dend = spec_run_end(s, from, digit_pred());
    let count: int = if dend == from {
        1
    } else {
        spec_digits_value(s, from, dend)
    };
    let nend = spec_run_end(s, dend, alnum_pred());
    if count > u64::MAX {
        None
    } else if nend == dend {
        None
    } else {
        Some((count as u64, s.subrange(dend, nend), nend))
    }
}

/// Parses a term of the form `2A`: an optional multiplicity, then a name.
pub fn parse_reaction_item(line: &Vec<u8>, from: usize) -> (r: Option<(u64, Vec<u8>, usize)>)
    requires
        from <= line@.len(),
    ensures
        match r {
            None => spec_parse_item(line@, from as int) is None,
            Some(p) => spec_parse_item(line@, from as int) matches Some(q) && q.0 == p.0 && q.1
                == p.1@ && q.2 == p.2 as int,
        },
{
    let dend = scan_digits(line, from);
    let count: u64;
    if dend == from {
        count = 1;
    } else {
        match decimal(line, from) {
            None => {
                return None;
            },
            Some((v, _)) => {
                count = v;
            },
        }
    }
    let nend = scan_alnum(line, dend);
    if nend == dend {
        return None;
    }
    proof {
        lemma_run_end_bounds(line@, dend as int, alnum_pred());
    }
    let name = copy_range(line, dend, nend);
    Some((count, name, nend))
}

/// What one side of a reaction (`2A + B`) denotes: the list of terms
/// and the end position.  An empty side is a valid, empty list.
pub open spec fn spec_parse_half(s: Seq<u8>, from: int) -> (Seq<(Seq<u8>, u64)>, int)
    decreases s.len() - from + 1,
{
    match spec_parse_item(s, from) {
        None => (Seq::empty(), from),
        Some((count, name, after)) => {
            let k = spec_run_end(s, after, space_pred());
            if 0 <= from && after <= s.len() && from < after && k < s.len() && s[k] == 43 {
                let m = spec_run_end(s, k + 1, space_pred());
                if spec_parse_item(s, m) is Some && m <= s.len() && m > from {
                    let (rest, end) = spec_parse_half(s, m);
                    (seq![(name, count)] + rest, end)
                } else {
                    (seq![(name, count)], after)
                }
            } else {
                (seq![(name, count)], after)
            }
        },
    }
}

/// Parses one side of a reaction: terms separated by `+`.
pub fn parse_reaction_half(line: &Vec<u8>, from: usize) -> (r: (Vec<(Vec<u8>, u64)>, usize))
    requires
        from <= line@.len(),
    ensures
        ({
            let (terms, end) = spec_parse_half(line@, from as int);
            &&& r.1 as int == end
            &&& r.0@.len() == terms.len()
            &&& forall|j: int| 0 <= j < terms.len() ==> (#[trigger] r.0@[j]).0@ == terms[j].0
                && r.0@[j].1 == terms[j].1
            &&& from <= r.1 <= line@.len()
        }),
    decreases line@.len() - from,
{
    let item = parse_reaction_item(line, from);
    match item {
        None => (Vec::new(), from),
        Some((count, name, after)) => {
            proof {
                lemma_run_end_bounds(line@, from as int, digit_pred());
                lemma_run_end_bounds(
                    line@,
                    spec_run_end(line@, from as int, digit_pred()),
                    alnum_pred(),
                );
            }
            let k = skip_spaces(line, after);
            if k < line.len() && line[k] == 43 {
                let m = skip_spaces(line, k + 1);
                let probe = parse_reaction_item(line, m);
                match probe {
                    Some(_) => {
                        proof {
                            assert(from < after);
                            assert(after <= k);
                            assert(k + 1 <= m);
                        }
                        let (rest, end) = parse_reaction_half(line, m);
                        let mut terms: Vec<(Vec<u8>, u64)> = Vec::new();
                        terms.push((name, count));
                        let mut j: usize = 0;
                        let ghost spec_rest = spec_parse_half(line@, m as int).0;
                        let mut rest_vec = rest;
                        let mut out = terms;
                        while j < rest_vec.len()
                            invariant
                                j <= rest_vec@.len(),
                                out@.len() == 1 + j,
                                rest_vec@.len() == spec_rest.len(),
                                forall|t: int| 0 <= t < rest_vec@.len() ==> (
                                #[trigger] rest_vec@[t]).0@ == spec_rest[t].0 && rest_vec@[t].1
                                    == spec_rest[t].1,
                                out@[0].0@ == line@.subrange(
                                    spec_run_end(line@, from as int, digit_pred()),
                                    spec_run_end(
                                        line@,
                                        spec_run_end(line@, from as int, digit_pred()),
                                        alnum_pred(),
                                    ),
                                ) && out@[0].1 == spec_parse_item(line@, from as int)->Some_0.0,
                                forall|t: int| 1 <= t < out@.len() ==> (#[trigger] out@[t]).0@
                                    == spec_rest[t - 1].0 && out@[t].1 == spec_rest[t - 1].1,
                            decreases rest_vec@.len() - j,
                        {
                            let (nm, ct) = copy_term(&rest_vec, j);
                            out.push((nm, ct));
                            j = j + 1;
                        }
                        (out, end)
                    },
                    None => (singleton_term(name, count), after),
                }
            } else {
                (singleton_term(name, count), after)
            }
        },
    }
}

/// A list holding one term.
fn singleton_term(name: Vec<u8>, count: u64) -> (r: Vec<(Vec<u8>, u64)>)
    ensures
        r@.len() == 1,
        r@[0].0@ == name@,
        r@[0].1 == count,
{
    let mut v: Vec<(Vec<u8>, u64)> = Vec::new();
    v.push((name, count));
    v
}

/// Copies one term out of a list.
fn copy_term(terms: &Vec<(Vec<u8>, u64)>, j: usize) -> (r: (Vec<u8>, u64))
    requires
        j < terms@.len(),
    ensures
        r.0@ == terms@[j as int].0@,
        r.1 == terms@[j as int].1,
{
    let (name, count) = &terms[j];
    let mut nm: Vec<u8> = Vec::new();
    let mut i: usize = 0;
    while i < name.len()
        invariant
            i <= name@.len(),
            nm@ == name@.subrange(0, i as int),
            name@ == terms@[j as int].0@,
        decreases name@.len() - i,
    {
        nm.push(name[i]);
        proof {
            assert(nm@ =~= name@.subrange(0, i + 1));
        }
        i = i + 1;
    }
    proof {
        assert(name@.subrange(0, name@.len() as int) == name@);
    }
    (nm, *count)
}

/// The result of parsing a line defining a new reaction: the two sides
/// and the rate constant, kept as the text it was written as.
pub struct NamedReaction {
    pub inputs: Vec<(Vec<u8>, u64)>,
    pub outputs: Vec<(Vec<u8>, u64)>,
    pub rate: Vec<u8>,
}

/// The result of parsing a line setting the initial value of a reactant.
pub struct Reactant {
    pub name: Vec<u8>,
    pub amount: u64,
}

/// An enum storing the result of parsing a line.
pub enum Line {
    Reactant(Reactant),
    Reaction(NamedReaction),
}

/// What a declaration line (`A = 5`) denotes.
pub open spec fn spec_parse_reactant(s: Seq<u8>) -> Option<(Seq<u8>, u64)> {
    let ne = spec_run_end(s, 0, alnum_pred());
    if ne == 0 {
        None
    } else {
        let i = spec_run_end(s, ne, space_pred());
        if i >= s.len() || s[i] != 61 {
            None
        } else {
            let j = spec_run_end(s, i + 1, space_pred());
            match spec_decimal(s, j) {
                None => None,
                Some((v, _)) => Some((s.subrange(0, ne), v)),
            }
        }
    }
}

/// Parses a line of the form `A = 5` that sets the initial value of
/// the reactant `A` to 5.
pub fn parse_reactant(line: &Vec<u8>) -> (r: Option<(Vec<u8>, u64)>)
    ensures
        match r {
            None => spec_parse_reactant(line@) is None,
            Some(p) => spec_parse_reactant(line@) matches Some(q) && q.0 == p.0@ && q.1 == p.1,
        },
{
    let ne = scan_alnum(line, 0);
    if ne == 0 {
        return None;
    }
    let i = skip_spaces(line, ne);
    if i >= line.len() {
        return None;
    }
    if line[i] != 61 {
        return None;
    }
    let j = skip_spaces(line, i + 1);
    match decimal(line, j) {
        None => None,
        Some((v, _)) => {
            let name = copy_range(line, 0, ne);
            Some((name, v))
        },
    }
}

/// The end of a rate literal at `i`: an optional sign, digits, an
/// optional fraction, and an optional exponent, or nothing when no
/// digit leads the mantissa.
pub open spec fn spec_rate_end(s: Seq<u8>, i: int) -> Option<int> {
    let j0 = if i < s.len() && (s[i] == 43 || s[i] == 45) {
        i + 1
    } else {
        i
    };
    let j1 = spec_run_end(s, j0, digit_pred());
    if j1 == j0 {
        None
    } else {
        let j2 = if j1 < s.len() && s[j1] == 46 {
            spec_run_end(s, j1 + 1, digit_pred())
        } else {
            j1
        };
        if j2 < s.len() && (s[j2] == 101 || s[j2] == 69) {
            let j3 = if j2 + 1 < s.len() && (s[j2 + 1] == 43 || s[j2 + 1] == 45) {
                j2 + 2
            } else {
                j2 + 1
            };
            let j4 = spec_run_end(s, j3, digit_pred());
            if j4 == j3 {
                Some(j2)
            } else {
                Some(j4)
            }
        } else {
            Some(j2)
        }
    }
}

/// Scans a rate literal.
fn scan_rate(line: &Vec<u8>, i: usize) -> (r: Option<usize>)
    requires
        i <= line@.len(),
    ensures
        match r {
            None => spec_rate_end(line@, i as int) is None,
            Some(e) => spec_rate_end(line@, i as int) == Some(e as int) && i <= e
                <= line@.len(),
        },
{
    let j0: usize = if i < line.len() && (line[i] == 43 || line[i] == 45) {
        i + 1
    } else {
        i
    };
    let j1 = scan_digits(line, j0);
    if j1 == j0 {
        return None;
    }
    let j2: usize = if j1 < line.len() && line[j1] == 46 {
        scan_digits(line, j1 + 1)
    } else {
        j1
    };
    proof {
        lemma_run_end_bounds(line@, j0 as int, digit_pred());
        if j1 < line@.len() && line@[j1 as int] == 46 {
            lemma_run_end_bounds(line@, j1 + 1, digit_pred());
        }
    }
    if j2 < line.len() && (line[j2] == 101 || line[j2] == 69) {
        let j3: usize = if j2 + 1 < line.len() && (line[j2 + 1] == 43 || line[j2 + 1] == 45) {
            j2 + 2
        } else {
            j2 + 1
        };
        if j3 > line.len() {
            proof {
                lemma_run_end_bounds(line@, j3 as int, digit_pred());
            }
            return Some(j2);
        }
        let j4 = scan_digits(line, j3);
        proof {
            lemma_run_end_bounds(line@, j3 as int, digit_pred());
        }
        if j4 == j3 {
            Some(j2)
        } else {
            Some(j4)
        }
    } else {
        Some(j2)
    }
}

/// What a reaction line (`2A + B -> 3C, 3.5e-9`) denotes: inputs,
/// outputs and the rate text.
pub open spec fn spec_parse_reaction(s: Seq<u8>) -> Option<(Seq<(Seq<u8>, u64)>, Seq<(Seq<u8>,
    u64)>, Seq<u8>)> {
    let (lhs, i) = spec_parse_half(s, 0);
    let k = spec_run_end(s, i, space_pred());
    if !(k + 1 < s.len() && s[k] == 45 && s[k + 1] == 62) {
        None
    } else {
        let m = spec_run_end(s, k + 2, space_pred());
        let (rhs, j) = spec_parse_half(s, m);
        let c = spec_run_end(s, j, space_pred());
        if !(c < s.len() && s[c] == 44) {
            None
        } else {
            let rstart = spec_run_end(s, c + 1, space_pred());
            match spec_rate_end(s, rstart) {
                None => None,
                Some(rend) => Some((lhs, rhs, s.subrange(rstart, rend))),
            }
        }
    }
}

/// Parses a full reaction line.
pub fn parse_reaction(line: &Vec<u8>) -> (r: Option<NamedReaction>)
    ensures
        match r {
            None => spec_parse_reaction(line@) is None,
            Some(p) => spec_parse_reaction(line@) matches Some(q) && {
                &&& p.inputs@.len() == q.0.len()
                &&& forall|t: int| 0 <= t < q.0.len() ==> (#[trigger] p.inputs@[t]).0@
                    == q.0[t].0 && p.inputs@[t].1 == q.0[t].1
                &&& p.outputs@.len() == q.1.len()
                &&& forall|t: int| 0 <= t < q.1.len() ==> (#[trigger] p.outputs@[t]).0@
                    == q.1[t].0 && p.outputs@[t].1 == q.1[t].1
                &&& p.rate@ == q.2
            },
        },
{
    let (inputs, i) = parse_reaction_half(line, 0);
    let k = skip_spaces(line, i);
    if !(k < line.len() && k + 1 < line.len() && line[k] == 45 && line[k + 1] == 62) {
        return None;
    }
    let m = skip_spaces(line, k + 2);
    let (outputs, j) = parse_reaction_half(line, m);
    let c = skip_spaces(line, j);
    if !(c < line.len() && line[c] == 44) {
        return None;
    }
    let rstart = skip_spaces(line, c + 1);
    match scan_rate(line, rstart) {
        None => None,
        Some(rend) => {
            let rate = copy_range(line, rstart, rend);
            Some(NamedReaction { inputs, outputs, rate })
        },
    }
}

/// Parses one line: a reactant declaration, or else a reaction.
pub fn parse_line(line: &Vec<u8>) -> (r: Option<Line>)
    ensures
        spec_parse_reactant(line@) matches Some(d) ==> (r matches Some(l) && (l matches
            Line::Reactant(rd) && rd.name@ == d.0 && rd.amount == d.1)),
        spec_parse_reactant(line@) is None ==> (spec_parse_reaction(line@) matches Some(q) ==> (r
            matches Some(l) && (l matches Line::Reaction(p) && {
            &&& p.inputs@.len() == q.0.len()
            &&& forall|t: int| 0 <= t < q.0.len() ==> (#[trigger] p.inputs@[t]).0@ == q.0[t].0
                && p.inputs@[t].1 == q.0[t].1
            &&& p.outputs@.len() == q.1.len()
            &&& forall|t: int| 0 <= t < q.1.len() ==> (#[trigger] p.outputs@[t]).0@ == q.1[t].0
                && p.outputs@[t].1 == q.1[t].1
            &&& p.rate@ == q.2
        }))),
        spec_parse_reactant(line@) is None && spec_parse_reaction(line@) is None ==> r is None,
{
    match parse_reactant(line) {
        Some((name, amount)) => Some(Line::Reactant(Reactant { name, amount })),
        None => {
            match parse_reaction(line) {
                Some(named) => Some(Line::Reaction(named)),
                None => None,
            }
        },
    }
}

/// The first index in `names` holding `name`.
pub open spec fn spec_find(names: Seq<Seq<u8>>, name: Seq<u8>) -> Option<int>
    decreases names.len(),
{
    if names.len() == 0 {
        None
    } else if names.first() == name {
        Some(0int)
    } else {
        match spec_find(names.drop_first(), name) {
            None => None,
            Some(k) => Some(k + 1),
        }
    }
}

/// The total multiplicity that the named terms give species `i`.
pub open spec fn spec_count_of(terms: Seq<(Seq<u8>, u64)>, names: Seq<Seq<u8>>, i: int) -> int
    decreases terms.len(),
{
    if terms.len() == 0 {
        0
    } else {
        spec_count_of(terms.drop_last(), names, i) + if spec_find(names, terms.last().0) == Some(
            i,
        ) {
            terms.last().1 as int
        } else {
            0
        }
    }
}

/// The views of a list of names.
pub open spec fn spec_name_views(names: Seq<Vec<u8>>) -> Seq<Seq<u8>> {
    names.map_values(|v: Vec<u8>| v@)
}

/// The views of a list of named terms.
pub open spec fn spec_term_views(terms: Seq<(Vec<u8>, u64)>) -> Seq<(Seq<u8>, u64)> {
    terms.map_values(|p: (Vec<u8>, u64)| (p.0@, p.1))
}

/// The total multiplicity that index-resolved pairs give species `i`.
pub open spec fn spec_count_at(pairs: Seq<(usize, u64)>, i: int) -> int
    decreases pairs.len(),
{
    if pairs.len() == 0 {
        0
    } else {
        spec_count_at(pairs.drop_last(), i) + if pairs.last().0 == i {
            pairs.last().1 as int
        } else {
            0
        }
    }
}

/// The names of a list of declaration pairs.
pub open spec fn spec_pair_names(pairs: Seq<(Vec<u8>, u64)>) -> Seq<Seq<u8>> {
    pairs.map_values(|p: (Vec<u8>, u64)| p.0@)
}

/// Every term's name is a declared species.
pub open spec fn spec_resolvable(terms: Seq<(Seq<u8>, u64)>, names: Seq<Seq<u8>>) -> bool {
    forall|t: int| 0 <= t < terms.len() ==> spec_find(names, (#[trigger] terms[t]).0) is Some
}

/// Every species' total multiplicity on this side fits the signed
/// machine integers.
pub open spec fn spec_sums_fit(terms: Seq<(Seq<u8>, u64)>, names: Seq<Seq<u8>>) -> bool {
    forall|i: int| #[trigger] spec_count_of(terms, names, i) <= i64::MAX
}

/// A found index lies within the name list.
proof fn lemma_find_bound(names: Seq<Seq<u8>>, name: Seq<u8>)
    ensures
        spec_find(names, name) matches Some(k) ==> 0 <= k < names.len(),
    decreases names.len(),
{
    if names.len() > 0 && names.first() != name {
        lemma_find_bound(names.drop_first(), name);
    }
}

/// Species outside the declared range are never counted.
proof fn lemma_count_at_outside(pairs: Seq<(usize, u64)>, n: int, i: int)
    requires
        forall|t: int| 0 <= t < pairs.len() ==> ((#[trigger] pairs[t]).0 as int) < n,
        !(0 <= i < n),
    ensures
        spec_count_at(pairs, i) == 0,
    decreases pairs.len(),
{
    if pairs.len() > 0 {
        lemma_count_at_outside(pairs.drop_last(), n, i);
        assert(pairs.last() == pairs[pairs.len() - 1]);
    }
}

/// Compares two byte strings.
fn bytes_equal(a: &Vec<u8>, b: &Vec<u8>) -> (r: bool)
    ensures
        r == (a@ == b@),
{
    if a.len() != b.len() {
        proof {
            assert(a@ != b@);
        }
        return false;
    }
    let mut i: usize = 0;
    while i < a.len()
        invariant
            i <= a@.len(),
            a@.len() == b@.len(),
            forall|k: int| 0 <= k < i ==> a@[k] == b@[k],
        decreases a@.len() - i,
    {
        if a[i] != b[i] {
            proof {
                assert(a@ != b@);
            }
            return false;
        }
        i = i + 1;
    }
    proof {
        assert(a@ =~= b@);
    }
    true
}

/// Finds a name in the list.
fn find_name(names: &Vec<Vec<u8>>, name: &Vec<u8>) -> (r: Option<usize>)
    ensures
        match r {
            None => spec_find(spec_name_views(names@), name@) is None,
            Some(k) => spec_find(spec_name_views(names@), name@) == Some(k as int) && (k as int)
                < names@.len(),
        },
{
    let ghost nseq = spec_name_views(names@);
    proof {
        assert(nseq.skip(0) =~= nseq);
    }
    let mut i: usize = 0;
    while i < names.len()
        invariant
            i <= names@.len(),
            nseq == spec_name_views(names@),
            forall|k: int| 0 <= k < i ==> nseq[k] != name@,
            spec_find(nseq, name@) == match spec_find(nseq.skip(i as int), name@) {
                None => Option::<int>::None,
                Some(k) => Some(k + i),
            },
        decreases names@.len() - i,
    {
        if bytes_equal(&names[i], name) {
            proof {
                assert(nseq.skip(i as int).first() == nseq[i as int]);
            }
            return Some(i);
        }
        proof {
            assert(nseq.skip(i as int).first() == nseq[i as int]);
            assert(nseq.skip(i as int).drop_first() =~= nseq.skip(i + 1));
        }
        i = i + 1;
    }
    proof {
        assert(nseq.skip(names@.len() as int).len() == 0);
    }
    None
}

/// Resolves each term's name to its index, keeping the multiplicity.
fn map_terms(terms: &Vec<(Vec<u8>, u64)>, names: &Vec<Vec<u8>>) -> (r: Option<Vec<(usize,
    u64)>>)
    ensures
        match r {
            None => exists|t: int| 0 <= t < terms@.len() && spec_find(
                spec_name_views(names@),
                (#[trigger] terms@[t]).0@,
            ) is None,
            Some(pairs) => {
                &&& pairs@.len() == terms@.len()
                &&& forall|t: int| 0 <= t < terms@.len() ==> spec_find(
                    spec_name_views(names@),
                    (#[trigger] terms@[t]).0@,
                ) == Some((#[trigger] pairs@[t]).0 as int) && pairs@[t].1 == terms@[t].1
                &&& forall|t: int| 0 <= t < pairs@.len() ==> ((#[trigger] pairs@[t]).0 as int)
                    < names@.len()
            },
        },
{
    let mut pairs: Vec<(usize, u64)> = Vec::new();
    let mut t: usize = 0;
    while t < terms.len()
        invariant
            t <= terms@.len(),
            pairs@.len() == t,
            forall|k: int| 0 <= k < t ==> spec_find(
                spec_name_views(names@),
                (#[trigger] terms@[k]).0@,
            ) == Some((#[trigger] pairs@[k]).0 as int) && pairs@[k].1 == terms@[k].1,
            forall|k: int| 0 <= k < t ==> ((#[trigger] pairs@[k]).0 as int) < names@.len(),
        decreases terms@.len() - t,
    {
        let (name, count) = &terms[t];
        match find_name(names, name) {
            None => {
                return None;
            },
            Some(idx) => {
                pairs.push((idx, *count));
            },
        }
        t = t + 1;
    }
    Some(pairs)
}

/// Merges runs of adjacent equal indices, adding their multiplicities.
/// Refuses a species whose total multiplicity cannot fit the signed
/// machine integers.
fn merge_adjacent(pairs: &Vec<(usize, u64)>) -> (r: Option<Vec<(usize, u64)>>)
    ensures
        match r {
            None => exists|i: int| spec_count_at(pairs@, i) > i64::MAX,
            Some(merged) => {
                &&& forall|i: int| spec_count_at(merged@, i) == spec_count_at(pairs@, i)
                &&& forall|j: int| 0 <= j < merged@.len() - 1 ==> (#[trigger] merged@[j]).0
                    != merged@[j + 1].0
            },
        },
{
    let mut merged: Vec<(usize, u64)> = Vec::new();
    let mut t: usize = 0;
    while t < pairs.len()
        invariant
            t <= pairs@.len(),
            forall|i: int| spec_count_at(merged@, i) == spec_count_at(pairs@.take(t as int), i),
            forall|j: int| 0 <= j < merged@.len() - 1 ==> (#[trigger] merged@[j]).0 != merged@[j
                + 1].0,
            forall|j: int| 0 <= j < merged@.len() ==> (#[trigger] merged@[j]).1 <= i64::MAX,
        decreases pairs@.len() - t,
    {
        let (idx, count) = pairs[t];
        proof {
            assert(pairs@.take(t + 1).drop_last() == pairs@.take(t as int));
            assert(pairs@.take(t + 1).last() == pairs@[t as int]);
        }
        let n = merged.len();
        if n > 0 {
            let (last_idx, last_count) = merged[n - 1];
            if last_idx == idx {
                if count > (i64::MAX as u64) - last_count {
                    proof {
                        let before = merged@;
                        assert(spec_count_at(before, idx as int) >= last_count) by {
                            lemma_count_at_nonneg(before.drop_last(), idx as int);
                            assert(before.last() == (last_idx, last_count));
                        }
                        assert(spec_count_at(pairs@.take(t + 1), idx as int) > i64::MAX);
                        lemma_count_at_monotone(pairs@, t + 1, pairs@.len() as int, idx as int);
                        assert(pairs@.take(pairs@.len() as int) == pairs@);
                    }
                    return None;
                }
                let ghost before = merged@;
                merged.set(n - 1, (idx, last_count + count));
                proof {
                    assert forall|i: int| spec_count_at(merged@, i) == spec_count_at(
                        pairs@.take(t + 1),
                        i,
                    ) by {
                        assert(merged@.drop_last() =~= before.drop_last());
                        assert(merged@.last() == (idx, (last_count + count) as u64));
                        assert(before.last() == (idx, last_count));
                        assert(spec_count_at(before, i) == spec_count_at(before.drop_last(), i)
                            + if before.last().0 == i {
                            before.last().1 as int
                        } else {
                            0
                        });
                    }
                    assert forall|j: int| 0 <= j < merged@.len() - 1 implies (
                    #[trigger] merged@[j]).0 != merged@[j + 1].0 by {
                        if j + 1 < merged@.len() - 1 {
                            assert(merged@[j] == before[j]);
                            assert(merged@[j + 1] == before[j + 1]);
                        } else {
                            assert(merged@[j] == before[j]);
                            assert(merged@[j + 1].0 == idx);
                            assert(before[j + 1].0 == idx);
                        }
                    }
                }
                t = t + 1;
                continue ;
            }
        }
        if count > i64::MAX as u64 {
            proof {
                assert(spec_count_at(pairs@.take(t + 1), idx as int) > i64::MAX) by {
                    lemma_count_at_nonneg(pairs@.take(t as int), idx as int);
                }
                lemma_count_at_monotone(pairs@, t + 1, pairs@.len() as int, idx as int);
                assert(pairs@.take(pairs@.len() as int) == pairs@);
            }
            return None;
        }
        let ghost before = merged@;
        merged.push((idx, count));
        proof {
            assert(merged@.drop_last() =~= before);
            assert(merged@.last() == (idx, count));
            assert forall|i: int| spec_count_at(merged@, i) == spec_count_at(
                pairs@.take(t + 1),
                i,
            ) by {
                assert(spec_count_at(merged@, i) == spec_count_at(before, i) + if idx == i {
                    count as int
                } else {
                    0
                });
            }
            assert forall|j: int| 0 <= j < merged@.len() - 1 implies (#[trigger] merged@[j]).0
                != merged@[j + 1].0 by {
                if j < merged@.len() - 2 {
                    assert(merged@[j] == before[j]);
                    assert(merged@[j + 1] == before[j + 1]);
                }
            }
        }
        t = t + 1;
    }
    proof {
        assert(pairs@.take(pairs@.len() as int) == pairs@);
    }
    Some(merged)
}

/// Sums the multiplicities of species `i`, refusing sums beyond `i64`.
fn sum_at(pairs: &Vec<(usize, u64)>, i: usize) -> (r: Option<u64>)
    ensures
        match r {
            None => spec_count_at(pairs@, i as int) > i64::MAX,
            Some(v) => v == spec_count_at(pairs@, i as int) && v <= i64::MAX,
        },
{
    let mut acc: u64 = 0;
    let mut t: usize = 0;
    while t < pairs.len()
        invariant
            t <= pairs@.len(),
            acc == spec_count_at(pairs@.take(t as int), i as int),
            acc <= i64::MAX,
        decreases pairs@.len() - t,
    {
        let (idx, count) = pairs[t];
        proof {
            assert(pairs@.take(t + 1).drop_last() == pairs@.take(t as int));
            assert(pairs@.take(t + 1).last() == pairs@[t as int]);
        }
        if idx == i {
            if count > (i64::MAX as u64) - acc {
                proof {
                    lemma_count_at_monotone(pairs@, t + 1, pairs@.len() as int, i as int);
                    assert(pairs@.take(pairs@.len() as int) == pairs@);
                }
                return None;
            }
            acc = acc + count;
        }
        t = t + 1;
    }
    proof {
        assert(pairs@.take(pairs@.len() as int) == pairs@);
    }
    Some(acc)
}

/// A multiplicity sum is never negative, and it dominates the count of
/// the last pair when that pair is of the counted species.
proof fn lemma_count_at_nonneg(pairs: Seq<(usize, u64)>, i: int)
    ensures
        spec_count_at(pairs, i) >= 0,
    decreases pairs.len(),
{
    if pairs.len() > 0 {
        lemma_count_at_nonneg(pairs.drop_last(), i);
    }
}

/// Multiplicity sums only grow as more pairs are counted.
proof fn lemma_count_at_monotone(pairs: Seq<(usize, u64)>, a: int, b: int, i: int)
    requires
        0 <= a <= b <= pairs.len(),
    ensures
        spec_count_at(pairs.take(a), i) <= spec_count_at(pairs.take(b), i),
    decreases b - a,
{
    if a < b {
        lemma_count_at_monotone(pairs, a, b - 1, i);
        assert(pairs.take(b).drop_last() == pairs.take(b - 1));
        assert(pairs.take(b).last() == pairs[b - 1]);
    }
}

/// Builds the stoichiometry: for every species, the net change of one
/// firing, kept only where it is nonzero, in increasing species order.
fn build_stoichiometry(inputs: &Vec<(usize, u64)>, outputs: &Vec<(usize, u64)>, n: usize) -> (r:
    Option<Vec<(usize, i64)>>)
    ensures
        match r {
            None => exists|i: int| 0 <= i < n && (spec_count_at(inputs@, i) > i64::MAX
                || spec_count_at(outputs@, i) > i64::MAX),
            Some(stoi) => {
                &&& forall|i: int| 0 <= i < n ==> #[trigger] spec_count_at(inputs@, i)
                    <= i64::MAX && spec_count_at(outputs@, i) <= i64::MAX
                &&& forall|i: int| 0 <= i < n ==> #[trigger] crate::reaction::spec_delta(stoi@, i)
                    == spec_count_at(outputs@, i) - spec_count_at(inputs@, i)
                &&& forall|j: int| 0 <= j < stoi@.len() ==> (#[trigger] stoi@[j]).1 != 0 && (
                stoi@[j].0 as int) < n
                &&& forall|j1: int, j2: int| 0 <= j1 < j2 < stoi@.len() ==> (
                #[trigger] stoi@[j1]).0 < (#[trigger] stoi@[j2]).0
            },
        },
{
    let mut stoi: Vec<(usize, i64)> = Vec::new();
    let mut i: usize = 0;
    while i < n
        invariant
            i <= n,
            forall|k: int| 0 <= k < i ==> #[trigger] spec_count_at(inputs@, k) <= i64::MAX
                && spec_count_at(outputs@, k) <= i64::MAX,
            forall|k: int| 0 <= k < i ==> #[trigger] crate::reaction::spec_delta(stoi@, k)
                == spec_count_at(outputs@, k) - spec_count_at(inputs@, k),
            forall|k: int| i <= k ==> #[trigger] crate::reaction::spec_delta(stoi@, k) == 0,
            forall|j: int| 0 <= j < stoi@.len() ==> (#[trigger] stoi@[j]).1 != 0 && (stoi@[j].0
                as int) < i,
            forall|j1: int, j2: int| 0 <= j1 < j2 < stoi@.len() ==> (#[trigger] stoi@[j1]).0 < (
            #[trigger] stoi@[j2]).0,
        decreases n - i,
    {
        let ins = match sum_at(inputs, i) {
            None => {
                return None;
            },
            Some(v) => v,
        };
        let outs = match sum_at(outputs, i) {
            None => {
                return None;
            },
            Some(v) => v,
        };
        let d: i64 = outs as i64 - ins as i64;
        if d != 0 {
            let ghost before = stoi@;
            stoi.push((i, d));
            proof {
                assert(stoi@.drop_last() =~= before);
                assert forall|k: int| #[trigger] crate::reaction::spec_delta(stoi@, k)
                    == crate::reaction::spec_delta(before, k) + (if k == i as int {
                    d as int
                } else {
                    0
                }) by {
                }
            }
        }
        i = i + 1;
    }
    Some(stoi)
}

/// The parsed contents of the network files.
pub struct ParseState {
    pub initial_states: Vec<(Vec<u8>, u64)>,
    pub reactions: Vec<NamedReaction>,
}

/// A parsed network, ready for a simulation driver: initial amounts,
/// reaction records, the textual rate of each reaction, and the name
/// of each species.
pub struct Network {
    pub initial_state: Vec<i64>,
    pub reactions: Vec<Reaction>,
    pub rates: Vec<Vec<u8>>,
    pub reactant_names: Vec<Vec<u8>>,
}

impl ParseState {
    /// The declared names, in declaration order.
    pub open spec fn spec_decl_names(self) -> Seq<Seq<u8>> {
        spec_pair_names(self.initial_states@)
    }

    /// Whether the collected network can be built: every declared
    /// amount fits the signed machine integers, and in every reaction
    /// every term names a declared species and every species' total
    /// multiplicity fits as well.
    pub open spec fn spec_buildable(self) -> bool {
        &&& forall|k: int| 0 <= k < self.initial_states@.len() ==> (
        #[trigger] self.initial_states@[k]).1 <= i64::MAX
        &&& forall|k: int| 0 <= k < self.reactions@.len() ==> {
            let named = #[trigger] self.reactions@[k];
            &&& spec_resolvable(spec_term_views(named.inputs@), self.spec_decl_names())
            &&& spec_resolvable(spec_term_views(named.outputs@), self.spec_decl_names())
            &&& spec_sums_fit(spec_term_views(named.inputs@), self.spec_decl_names())
            &&& spec_sums_fit(spec_term_views(named.outputs@), self.spec_decl_names())
        }
    }

    pub fn new() -> (r: ParseState)
        ensures
            r.initial_states@.len() == 0,
            r.reactions@.len() == 0,
    {
        ParseState { initial_states: Vec::new(), reactions: Vec::new() }
    }

    /// Feeds one line of a data file to the parser.  Blank lines and
    /// lines whose first non-blank byte is `#` are skipped; a
    /// declaration upserts the species' amount; a reaction line is
    /// recorded; anything else is a parse error.
    pub fn parse_data_line(&mut self, line: &Vec<u8>) -> (ok: bool)
        ensures
            ({
                let i = spec_run_end(line@, 0, space_pred());
                i >= line@.len() || line@[i] == 35
            }) ==> ok && *final(self) == *old(self),
            !ok ==> *final(self) == *old(self),
            ({
                let i = spec_run_end(line@, 0, space_pred());
                i < line@.len() && line@[i] != 35
            }) ==> match spec_parse_reactant(line@) {
                Some((nm, amt)) => {
                    &&& ok
                    &&& final(self).reactions@ == old(self).reactions@
                    &&& match spec_find(old(self).spec_decl_names(), nm) {
                        Some(j) => {
                            &&& final(self).initial_states@.len() == old(
                                self,
                            ).initial_states@.len()
                            &&& forall|t: int| 0 <= t < old(self).initial_states@.len() && t != j
                                ==> #[trigger] final(self).initial_states@[t] == old(
                                self,
                            ).initial_states@[t]
                            &&& final(self).initial_states@[j].0@ == nm
                            &&& final(self).initial_states@[j].1 == amt
                        },
                        None => {
                            &&& final(self).initial_states@.len() == old(
                                self,
                            ).initial_states@.len() + 1
                            &&& forall|t: int| 0 <= t < old(self).initial_states@.len()
                                ==> #[trigger] final(self).initial_states@[t] == old(
                                self,
                            ).initial_states@[t]
                            &&& final(self).initial_states@.last().0@ == nm
                            &&& final(self).initial_states@.last().1 == amt
                        },
                    }
                },
                None => match spec_parse_reaction(line@) {
                    Some(q) => {
                        &&& ok
                        &&& final(self).initial_states@ == old(self).initial_states@
                        &&& final(self).reactions@.len() == old(self).reactions@.len() + 1
                        &&& forall|t: int| 0 <= t < old(self).reactions@.len()
                            ==> #[trigger] final(self).reactions@[t] == old(self).reactions@[t]
                        &&& spec_term_views(final(self).reactions@.last().inputs@) =~~= q.0
                        &&& spec_term_views(final(self).reactions@.last().outputs@) =~~= q.1
                        &&& final(self).reactions@.last().rate@ == q.2
                    },
                    None => !ok && *final(self) == *old(self),
                },
            },
    {
        let i = skip_spaces(line, 0);
        if i >= line.len() {
            return true;
        }
        if line[i] == 35 {
            return true;
        }
        match parse_line(line) {
            None => false,
            Some(Line::Reactant(reactant)) => {
                let found = find_name_in_pairs(&self.initial_states, &reactant.name);
                match found {
                    Some(k) => {
                        self.initial_states.set(k, (reactant.name, reactant.amount));
                    },
                    None => {
                        self.initial_states.push((reactant.name, reactant.amount));
                    },
                }
                true
            },
            Some(Line::Reaction(named)) => {
                let ghost gn = named;
                self.reactions.push(named);
                proof {
                    let q = spec_parse_reaction(line@)->Some_0;
                    assert(self.reactions@.last() == gn);
                    assert(spec_term_views(gn.inputs@) =~~= q.0) by {
                        assert(spec_term_views(gn.inputs@).len() == q.0.len());
                        assert forall|t: int| 0 <= t < q.0.len()
                            implies #[trigger] spec_term_views(gn.inputs@)[t] =~~= q.0[t] by {
                            assert((#[trigger] gn.inputs@[t]).0@ == q.0[t].0);
                            assert(spec_term_views(gn.inputs@)[t] == (gn.inputs@[t].0@,
                            gn.inputs@[t].1));
                        }
                    }
                    assert(spec_term_views(gn.outputs@) =~~= q.1) by {
                        assert(spec_term_views(gn.outputs@).len() == q.1.len());
                        assert forall|t: int| 0 <= t < q.1.len()
                            implies #[trigger] spec_term_views(gn.outputs@)[t] =~~= q.1[t] by {
                            assert((#[trigger] gn.outputs@[t]).0@ == q.1[t].0);
                            assert(spec_term_views(gn.outputs@)[t] == (gn.outputs@[t].0@,
                            gn.outputs@[t].1));
                        }
                    }
                }
                true
            },
        }
    }

    /// Gets the reaction network: the initial state, the reactions with
    /// their rates, and the name of each reactant.  Nothing is returned
    /// when a reaction mentions an undeclared species, or an amount or
    /// a multiplicity sum does not fit the machine integers.
    pub fn get_network(&self) -> (r: Option<Network>)
        ensures
            r is Some <==> self.spec_buildable(),
            r matches Some(net) ==> {
                let names = spec_name_views(net.reactant_names@);
                &&& net.reactant_names@.len() == self.initial_states@.len()
                &&& net.initial_state@.len() == self.initial_states@.len()
                &&& forall|k: int| 0 <= k < self.initial_states@.len() ==> (
                #[trigger] net.reactant_names@[k])@ == self.initial_states@[k].0@
                    && net.initial_state@[k] == self.initial_states@[k].1
                &&& net.reactions@.len() == self.reactions@.len()
                &&& net.rates@.len() == self.reactions@.len()
                &&& forall|k: int| 0 <= k < self.reactions@.len() ==> (#[trigger] net.rates@[k])@
                    == self.reactions@[k].rate@
                &&& forall|k: int| 0 <= k < self.reactions@.len() ==> (
                #[trigger] net.reactions@[k]).wf()
                &&& forall|k: int, i: int| 0 <= k < self.reactions@.len() && 0 <= i
                    < names.len() ==> #[trigger] crate::reaction::spec_delta(
                    net.reactions@[k].stoichiometry@,
                    i,
                ) == spec_count_of(spec_term_views(self.reactions@[k].outputs@), names, i) - spec_count_of(spec_term_views(self.reactions@[k].inputs@), names, i)
                &&& forall|k: int, i: int| 0 <= k < self.reactions@.len() && 0 <= i
                    < names.len() ==> #[trigger] spec_count_at(net.reactions@[k].inputs@, i)
                    == spec_count_of(spec_term_views(self.reactions@[k].inputs@), names, i)
            },
    {
        let mut reactant_names: Vec<Vec<u8>> = Vec::new();
        let mut initial_state: Vec<i64> = Vec::new();
        let mut k: usize = 0;
        while k < self.initial_states.len()
            invariant
                k <= self.initial_states@.len(),
                reactant_names@.len() == k,
                initial_state@.len() == k,
                forall|j: int| 0 <= j < k ==> (#[trigger] reactant_names@[j])@
                    == self.initial_states@[j].0@ && initial_state@[j]
                    == self.initial_states@[j].1,
                forall|j: int| 0 <= j < k ==> (#[trigger] self.initial_states@[j]).1
                    <= i64::MAX,
            decreases self.initial_states@.len() - k,
        {
            let (name, amount) = &self.initial_states[k];
            if *amount > i64::MAX as u64 {
                proof {
                    assert(!self.spec_buildable());
                }
                return None;
            }
            let mut copy: Vec<u8> = Vec::new();
            let mut b: usize = 0;
            while b < name.len()
                invariant
                    b <= name@.len(),
                    copy@ == name@.subrange(0, b as int),
                    name@ == self.initial_states@[k as int].0@,
                    k < self.initial_states@.len(),
                decreases name@.len() - b,
            {
                copy.push(name[b]);
                proof {
                    assert(copy@ =~= name@.subrange(0, b + 1));
                }
                b = b + 1;
            }
            proof {
                assert(name@.subrange(0, name@.len() as int) == name@);
            }
            reactant_names.push(copy);
            initial_state.push(*amount as i64);
            k = k + 1;
        }
        let n = reactant_names.len();
        let ghost names = spec_name_views(reactant_names@);
        proof {
            assert(names =~~= self.spec_decl_names()) by {
                assert(forall|j: int| 0 <= j < reactant_names@.len() ==> #[trigger] names[j]
                    == reactant_names@[j]@);
                assert(forall|j: int| 0 <= j < self.initial_states@.len()
                    ==> #[trigger] self.spec_decl_names()[j] == self.initial_states@[j].0@);
            }
            assert(names == self.spec_decl_names());
        }
        let mut reactions: Vec<Reaction> = Vec::new();
        let mut rates: Vec<Vec<u8>> = Vec::new();
        let mut k: usize = 0;
        while k < self.reactions.len()
            invariant
                k <= self.reactions@.len(),
                reactions@.len() == k,
                rates@.len() == k,
                n == reactant_names@.len(),
                names == spec_name_views(reactant_names@),
                forall|j: int| 0 <= j < k ==> (#[trigger] rates@[j])@
                    == self.reactions@[j].rate@,
                forall|j: int| 0 <= j < k ==> (#[trigger] reactions@[j]).wf(),
                forall|j: int, i: int| 0 <= j < k && 0 <= i < names.len()
                    ==> #[trigger] crate::reaction::spec_delta(reactions@[j].stoichiometry@, i)
                    == spec_count_of(spec_term_views(self.reactions@[j].outputs@), names, i) - spec_count_of(spec_term_views(self.reactions@[j].inputs@), names, i),
                forall|j: int, i: int| 0 <= j < k && 0 <= i < names.len()
                    ==> #[trigger] spec_count_at(reactions@[j].inputs@, i) == spec_count_of(
                    spec_term_views(self.reactions@[j].inputs@),
                    names,
                    i,
                ),
                forall|j: int| 0 <= j < k ==> {
                    let named = #[trigger] self.reactions@[j];
                    &&& spec_resolvable(spec_term_views(named.inputs@), names)
                    &&& spec_resolvable(spec_term_views(named.outputs@), names)
                    &&& spec_sums_fit(spec_term_views(named.inputs@), names)
                    &&& spec_sums_fit(spec_term_views(named.outputs@), names)
                },
                names == self.spec_decl_names(),
            decreases self.reactions@.len() - k,
        {
            let named = &self.reactions[k];
            match named_to_reaction(named, &reactant_names, n) {
                None => {
                    proof {
                        assert(!self.spec_buildable());
                    }
                    return None;
                },
                Some((reaction, rate)) => {
                    reactions.push(reaction);
                    rates.push(rate);
                },
            }
            k = k + 1;
        }
        proof {
            assert(self.spec_buildable());
        }
        Some(Network { initial_state, reactions, rates, reactant_names })
    }
}

/// Finds a name among declaration pairs.
fn find_name_in_pairs(pairs: &Vec<(Vec<u8>, u64)>, name: &Vec<u8>) -> (r: Option<usize>)
    ensures
        match r {
            None => spec_find(spec_pair_names(pairs@), name@) is None,
            Some(k) => spec_find(spec_pair_names(pairs@), name@) == Some(k as int) && (k as int)
                < pairs@.len() && pairs@[k as int].0@ == name@,
        },
{
    let ghost nseq = spec_pair_names(pairs@);
    proof {
        assert(nseq.skip(0) =~= nseq);
    }
    let mut i: usize = 0;
    while i < pairs.len()
        invariant
            i <= pairs@.len(),
            nseq == spec_pair_names(pairs@),
            forall|k: int| 0 <= k < i ==> nseq[k] != name@,
            spec_find(nseq, name@) == match spec_find(nseq.skip(i as int), name@) {
                None => Option::<int>::None,
                Some(k) => Some(k + i),
            },
        decreases pairs@.len() - i,
    {
        if bytes_equal(&pairs[i].0, name) {
            proof {
                assert(nseq.skip(i as int).first() == nseq[i as int]);
            }
            return Some(i);
        }
        proof {
            assert(nseq.skip(i as int).first() == nseq[i as int]);
            assert(nseq.skip(i as int).drop_first() =~= nseq.skip(i + 1));
        }
        i = i + 1;
    }
    proof {
        assert(nseq.skip(pairs@.len() as int).len() == 0);
    }
    None
}

/// Resolves a named reaction against the species list, merging repeated
/// adjacent inputs and netting the stoichiometry per species.
fn named_to_reaction(named: &NamedReaction, reactant_names: &Vec<Vec<u8>>, n: usize) -> (r:
    Option<(Reaction, Vec<u8>)>)
    requires
        n == reactant_names@.len(),
    ensures
        r is Some <==> ({
            let names = spec_name_views(reactant_names@);
            &&& spec_resolvable(spec_term_views(named.inputs@), names)
            &&& spec_resolvable(spec_term_views(named.outputs@), names)
            &&& spec_sums_fit(spec_term_views(named.inputs@), names)
            &&& spec_sums_fit(spec_term_views(named.outputs@), names)
        }),
        r matches Some(out) ==> {
            let names = spec_name_views(reactant_names@);
            &&& out.0.wf()
            &&& out.1@ == named.rate@
            &&& forall|i: int| 0 <= i < names.len() ==> #[trigger] crate::reaction::spec_delta(
                out.0.stoichiometry@,
                i,
            ) == spec_count_of(spec_term_views(named.outputs@), names, i) - spec_count_of(
                spec_term_views(named.inputs@),
                names,
                i,
            )
            &&& forall|i: int| 0 <= i < names.len() ==> #[trigger] spec_count_at(out.0.inputs@, i)
                == spec_count_of(spec_term_views(named.inputs@), names, i)
        },
{
    let ghost names = spec_name_views(reactant_names@);
    let inputs_mapped = match map_terms(&named.inputs, reactant_names) {
        None => {
            proof {
                let t = choose|t: int| 0 <= t < named.inputs@.len() && spec_find(
                    names,
                    (#[trigger] named.inputs@[t]).0@,
                ) is None;
                assert(spec_term_views(named.inputs@)[t].0 == named.inputs@[t].0@);
                assert(!spec_resolvable(spec_term_views(named.inputs@), names));
            }
            return None;
        },
        Some(p) => p,
    };
    let outputs_mapped = match map_terms(&named.outputs, reactant_names) {
        None => {
            proof {
                let t = choose|t: int| 0 <= t < named.outputs@.len() && spec_find(
                    names,
                    (#[trigger] named.outputs@[t]).0@,
                ) is None;
                assert(spec_term_views(named.outputs@)[t].0 == named.outputs@[t].0@);
                assert(!spec_resolvable(spec_term_views(named.outputs@), names));
            }
            return None;
        },
        Some(p) => p,
    };
    proof {
        lemma_count_mapping(named.inputs@, inputs_mapped@, names);
        lemma_count_mapping(named.outputs@, outputs_mapped@, names);
        assert forall|t: int| 0 <= t < spec_term_views(named.inputs@).len() implies spec_find(
            names,
            (#[trigger] spec_term_views(named.inputs@)[t]).0,
        ) is Some by {
            assert(spec_term_views(named.inputs@)[t].0 == named.inputs@[t].0@);
            assert(inputs_mapped@[t] == inputs_mapped@[t]);
            assert(spec_find(names, named.inputs@[t].0@) == Some(
                (inputs_mapped@[t]).0 as int,
            ));
        }
        assert forall|t: int| 0 <= t < spec_term_views(named.outputs@).len() implies spec_find(
            names,
            (#[trigger] spec_term_views(named.outputs@)[t]).0,
        ) is Some by {
            assert(spec_term_views(named.outputs@)[t].0 == named.outputs@[t].0@);
            assert(outputs_mapped@[t] == outputs_mapped@[t]);
            assert(spec_find(names, named.outputs@[t].0@) == Some(
                (outputs_mapped@[t]).0 as int,
            ));
        }
        assert(spec_resolvable(spec_term_views(named.inputs@), names));
        assert(spec_resolvable(spec_term_views(named.outputs@), names));
    }
    let inputs = match merge_adjacent(&inputs_mapped) {
        None => {
            proof {
                let i = choose|i: int| spec_count_at(inputs_mapped@, i) > i64::MAX;
                assert(spec_count_of(spec_term_views(named.inputs@), names, i) > i64::MAX);
            }
            return None;
        },
        Some(m) => m,
    };
    let stoi = match build_stoichiometry(&inputs_mapped, &outputs_mapped, n) {
        None => {
            proof {
                let i = choose|i: int| 0 <= i < n && (spec_count_at(inputs_mapped@, i)
                    > i64::MAX || spec_count_at(outputs_mapped@, i) > i64::MAX);
                assert(spec_count_of(spec_term_views(named.inputs@), names, i) > i64::MAX
                    || spec_count_of(spec_term_views(named.outputs@), names, i) > i64::MAX);
            }
            return None;
        },
        Some(st) => st,
    };
    proof {
        assert forall|i: int| #[trigger] spec_count_of(spec_term_views(named.inputs@), names, i)
            <= i64::MAX by {
            if 0 <= i < n {
                assert(spec_count_at(inputs_mapped@, i) <= i64::MAX);
            } else {
                lemma_count_at_outside(inputs_mapped@, n as int, i);
            }
        }
        assert forall|i: int| #[trigger] spec_count_of(spec_term_views(named.outputs@), names, i)
            <= i64::MAX by {
            if 0 <= i < n {
                assert(spec_count_at(inputs_mapped@, i) <= i64::MAX);
                assert(spec_count_at(outputs_mapped@, i) <= i64::MAX);
            } else {
                lemma_count_at_outside(outputs_mapped@, n as int, i);
            }
        }
    }
    let reaction = Reaction::new(inputs, stoi);
    let mut rate: Vec<u8> = Vec::new();
    let mut b: usize = 0;
    while b < named.rate.len()
        invariant
            b <= named.rate@.len(),
            rate@ == named.rate@.subrange(0, b as int),
        decreases named.rate@.len() - b,
    {
        rate.push(named.rate[b]);
        proof {
            assert(rate@ =~= named.rate@.subrange(0, b + 1));
        }
        b = b + 1;
    }
    proof {
        assert(named.rate@.subrange(0, named.rate@.len() as int) == named.rate@);
    }
    Some((reaction, rate))
}

/// Resolving names and then counting by index counts the same.
proof fn lemma_count_mapping(terms: Seq<(Vec<u8>, u64)>, pairs: Seq<(usize, u64)>,
    names: Seq<Seq<u8>>)
    requires
        pairs.len() == terms.len(),
        forall|t: int| 0 <= t < terms.len() ==> spec_find(names, (#[trigger] terms[t]).0@)
            == Some((#[trigger] pairs[t]).0 as int) && pairs[t].1 == terms[t].1,
    ensures
        forall|i: int| #[trigger] spec_count_at(pairs, i) == spec_count_of(
            spec_term_views(terms),
            names,
            i,
        ),
    decreases terms.len(),
{
    if terms.len() > 0 {
        lemma_count_mapping(terms.drop_last(), pairs.drop_last(), names);
        assert(forall|t: int| 0 <= t < terms.len() - 1 ==> (#[trigger] terms.drop_last()[t])
            == terms[t]);
        assert(forall|t: int| 0 <= t < pairs.len() - 1 ==> (#[trigger] pairs.drop_last()[t])
            == pairs[t]);
        assert forall|i: int| #[trigger] spec_count_at(pairs, i) == spec_count_of(
            spec_term_views(terms),
            names,
            i,
        ) by {
            let m = spec_term_views(terms);
            assert(m.drop_last() =~= spec_term_views(terms.drop_last()));
            assert(m.last() == (terms.last().0@, terms.last().1));
            assert(terms.last() == terms[terms.len() - 1]);
            assert(spec_find(names, (terms[terms.len() - 1]).0@) == Some(
                (pairs[pairs.len() - 1]).0 as int,
            ));
            assert(pairs.last() == pairs[pairs.len() - 1]);
            assert(spec_count_at(pairs.drop_last(), i) == spec_count_of(
                spec_term_views(terms.drop_last()),
                names,
                i,
            ));
            assert(spec_count_at(pairs, i) == spec_count_at(pairs.drop_last(), i) + if pairs.last().0
                == i {
                pairs.last().1 as int
            } else {
                0
            });
            assert(spec_count_of(m, names, i) == spec_count_of(m.drop_last(), names, i)
                + if spec_find(names, m.last().0) == Some(i) {
                m.last().1 as int
            } else {
                0
            });
        }
    } else {
        assert forall|i: int| #[trigger] spec_count_at(pairs, i) == spec_count_of(
            spec_term_views(terms),
            names,
            i,
        ) by {
            assert(spec_term_views(terms).len() == 0);
        }
    }
}

} // verus!
