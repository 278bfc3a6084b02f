//! A sampled point of the event-count curve: at input product `product`,
//! `events` firings have been counted.

use vstd::prelude::*;

verus! {

#[derive(Clone, Copy, Default, PartialEq, Eq, Structural, PartialOrd, Ord, Debug)]
pub struct ProdEvents {
    pub product: u64,
    pub events: u64,
}

impl ProdEvents {
    pub fn new(product: u64, events: u64) -> (r: ProdEvents)
        ensures
            r == (ProdEvents { product, events }),
    {
        ProdEvents { product, events }
    }

    pub fn zero() -> (r: ProdEvents)
        ensures
            r == (ProdEvents { product: 0u64, events: 0u64 }),
    {
        ProdEvents::new(0, 0)
    }
}

} // verus!
