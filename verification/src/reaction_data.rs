//! Per-reaction, per-segment event counts.
//!
//! Over one time segment each reaction carries an event count together
//! with a propensity bracket `[low, high)`.  The bracket endpoints are
//! real numbers sampled by the embedding driver; the records here hold
//! the discrete side: the count itself and, for stable records, which
//! of the two endpoints has been materialized so far.

use vstd::prelude::*;

verus! {

/// Data on the number of events in a reaction spanning some period of time.
#[derive(Clone, Copy, PartialEq, Eq, Structural, Debug)]
pub struct ReactionData {
    /// The index of the reaction covered by the reaction data.
    pub reaction: usize,
    /// The number of events occurring in the timespan.
    pub events: u64,
}

/// The capability set shared by active and stable reaction records.
pub trait TauData {
    /// The stored event count.
    spec fn spec_events(&self) -> u64;

    /// The stored reaction index.
    spec fn spec_index(&self) -> usize;

    /// Returns the number of events in the given reaction in the spanned time period.
    fn event_count(&self) -> (r: u64)
        ensures
            r == self.spec_events(),
    ;

    /// Returns the index of the reaction.
    fn index(&self) -> (r: usize)
        ensures
            r == self.spec_index(),
    ;

    /// Whether any event occurs at all in the spanned time period.
    fn has_events(&self) -> (r: bool)
        ensures
            r == (self.spec_events() != 0),
    ;
}

impl ReactionData {
    pub fn new(reaction: usize, events: u64) -> (r: ReactionData)
        ensures
            r.reaction == reaction,
            r.events == events,
    {
        ReactionData { reaction, events }
    }

    /// Splits the record across the two halves of its time segment.
    ///
    /// The caller draws `right_events`, the number of the events falling
    /// into the second half; the record keeps the rest.  The two halves
    /// together carry exactly the events of the whole segment.
    pub fn split(&mut self, right_events: u64) -> (r: ReactionData)
        requires
            right_events <= old(self).events,
        ensures
            final(self).reaction == old(self).reaction,
            r.reaction == old(self).reaction,
            r.events == right_events,
            final(self).events + r.events == old(self).events,
    {
        let right = ReactionData { reaction: self.reaction, events: right_events };
        self.events = self.events - right_events;
        right
    }

    /// Creates a StableReactionData from the normal ReactionData.
    ///
    /// An active record always carries both bracket endpoints, so the
    /// stable record starts with both present.
    pub fn stabilize(self) -> (r: StableReactionData)
        ensures
            r.reaction == self.reaction,
            r.events == self.events,
            r.has_low,
            r.has_high,
    {
        StableReactionData { reaction: self.reaction, events: self.events, has_low: true, has_high: true }
    }
}

impl TauData for ReactionData {
    open spec fn spec_events(&self) -> u64 {
        self.events
    }

    open spec fn spec_index(&self) -> usize {
        self.reaction
    }

    fn event_count(&self) -> (r: u64) {
        self.events
    }

    fn index(&self) -> (r: usize) {
        self.reaction
    }

    fn has_events(&self) -> (r: bool) {
        self.events != 0
    }
}

/// A stable reaction record: its bracket endpoints may be lazily absent,
/// to be materialized by the driver only when they are first needed.
#[derive(Clone, Copy, PartialEq, Eq, Structural, Debug)]
pub struct StableReactionData {
    /// The index of the reaction covered by the reaction data.
    pub reaction: usize,
    /// The number of events occurring in the timespan.
    pub events: u64,
    /// Whether the low endpoint is assigned to this stable data.
    pub has_low: bool,
    /// Whether the high endpoint is assigned to this stable data.
    pub has_high: bool,
}

impl StableReactionData {
    pub fn new(reaction: usize, events: u64, has_low: bool, has_high: bool) -> (r:
        StableReactionData)
        ensures
            r == (StableReactionData { reaction, events, has_low, has_high }),
    {
        StableReactionData { reaction, events, has_low, has_high }
    }

    /// Marks the low endpoint as materialized.
    pub fn sample_low(&mut self)
        ensures
            *final(self) == (StableReactionData { has_low: true, ..*old(self) }),
    {
        self.has_low = true;
    }

    /// Marks the high endpoint as materialized.
    pub fn sample_high(&mut self)
        ensures
            *final(self) == (StableReactionData { has_high: true, ..*old(self) }),
    {
        self.has_high = true;
    }

    /// Reactivates the record; the driver materializes whatever endpoint
    /// was still absent, so the active record carries both.
    pub fn destabilize(self) -> (r: ReactionData)
        ensures
            r.reaction == self.reaction,
            r.events == self.events,
    {
        ReactionData { reaction: self.reaction, events: self.events }
    }

    /// Splits the record across the two halves of its time segment.
    ///
    /// The caller draws `right_events` as for an active record, and one
    /// fair coin per endpoint held: a held endpoint goes to exactly one
    /// of the two halves, so no endpoint is ever duplicated.
    pub fn split(&mut self, right_events: u64, low_to_right: bool, high_to_right: bool) -> (r:
        StableReactionData)
        requires
            right_events <= old(self).events,
        ensures
            final(self).reaction == old(self).reaction,
            r.reaction == old(self).reaction,
            r.events == right_events,
            final(self).events + r.events == old(self).events,
            old(self).events > 0 && old(self).has_low ==> !(final(self).has_low && r.has_low),
            old(self).events > 0 && old(self).has_low ==> (final(self).has_low || r.has_low),
            !old(self).has_low ==> !final(self).has_low && !r.has_low,
            old(self).has_high ==> !(final(self).has_high && r.has_high),
            old(self).has_high ==> (final(self).has_high || r.has_high),
            !old(self).has_high ==> !final(self).has_high && !r.has_high,
    {
        let mut right = StableReactionData {
            reaction: self.reaction,
            events: right_events,
            has_low: self.has_low,
            has_high: self.has_high,
        };
        self.events = self.events - right_events;

        if self.events + right.events > 0 && self.has_low {
            if low_to_right {
                self.has_low = false;
            } else {
                right.has_low = false;
            }
        }
        if self.has_high {
            if high_to_right {
                self.has_high = false;
            } else {
                right.has_high = false;
            }
        }
        right
    }
}

impl TauData for StableReactionData {
    open spec fn spec_events(&self) -> u64 {
        self.events
    }

    open spec fn spec_index(&self) -> usize {
        self.reaction
    }

    fn event_count(&self) -> (r: u64) {
        self.events
    }

    fn index(&self) -> (r: usize) {
        self.reaction
    }

    fn has_events(&self) -> (r: bool) {
        self.events != 0
    }
}

} // verus!
