//! Exact stochastic simulation of chemical reaction networks.
//!
//! The crate holds the discrete core of an adaptive tau-splitting
//! simulator: reaction records and their combinatorial input products,
//! the per-species population tracks with lower and upper bounds, the
//! dependents tracker, the listener heaps, and the bookkeeping of the
//! bisection tree.  Everything that manipulates populations and event
//! counts is specified and verified here; the real-valued propensity
//! brackets and the random draws that feed them live with the driver
//! that embeds this crate.

pub mod f_reaction;
pub mod indexed_vec;
pub mod listener;
pub mod parsers;
pub mod prod_events;
pub mod reaction;
pub mod reaction_data;
pub mod reaction_graph;
pub mod recursion;
pub mod state_data;
pub mod unstable_dependents;

use vstd::prelude::*;

verus! {

/// The algorithms available in the package.
pub enum Algorithm {
    /// The Gillespie algorithm.
    Gillespie,
    /// The optimized Tau-Splitting algorithm.
    TauSplit,
    /// The tree variant that keeps no listener heaps.
    TauSplit6,
}

/// A default seed for seeded RNGs.
pub const DEFAULT_SEED: u64 = 0x123456789abcdef;

} // verus!
