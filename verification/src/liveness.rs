//! Liveness: how often the backdrop behind a surface must be refreshed.

use vstd::prelude::*;

verus! {

/// A span of time in whole nanoseconds.
#[derive(Clone, Copy, Debug, PartialEq, Eq, Structural)]
pub struct Interval {
    /// The span.
    pub nanos: u128,
}

impl Interval {
    /// A span of so many milliseconds.
    pub fn from_millis(millis: u64) -> (r: Interval)
        ensures
            r.nanos == millis * 1_000_000,
    {
        Interval { nanos: millis as u128 * 1_000_000 }
    }

    /// The shorter of two spans.
    pub fn min(self, other: Interval) -> (r: Interval)
        ensures
            r.nanos == if self.nanos <= other.nanos { self.nanos } else { other.nanos },
    {
        if self.nanos <= other.nanos {
            self
        } else {
            other
        }
    }
}

/// How often the backdrop of a surface must be refreshed.
#[derive(Clone, Copy, Debug, PartialEq, Eq, Structural)]
pub enum RepaintPolicy {
    /// Over still content: nothing to ask of the host.
    Static,
    /// Over animating content: every frame.
    Live,
    /// Periodically, at least once in the interval.
    Bounded(Interval),
}

/// What to ask of the host's event loop.
#[derive(Clone, Copy, Debug, PartialEq, Eq, Structural)]
pub enum RepaintRequest {
    /// Nothing.
    Nothing,
    /// A repaint now.
    Now,
    /// A repaint after the interval.
    After(Interval),
}

impl RepaintPolicy {
    /// The longest the policy lets the backdrop go stale; no bound for a static one.
    pub open spec fn bound(self) -> Option<int> {
        match self {
            RepaintPolicy::Static => None,
            RepaintPolicy::Live => Some(-1),
            RepaintPolicy::Bounded(i) => Some(i.nanos as int),
        }
    }

    /// Whether this policy asks at least as much as `other`.
    pub open spec fn covers(self, other: RepaintPolicy) -> bool {
        match (self.bound(), other.bound()) {
            (_, None) => true,
            (None, Some(_)) => false,
            (Some(a), Some(b)) => a <= b,
        }
    }

    /// The stronger of two obligations: live, then the shorter interval, then static.
    pub fn stronger(self, other: RepaintPolicy) -> (r: RepaintPolicy)
        ensures
            r == self || r == other,
            r.covers(self),
            r.covers(other),
    {
        match (self, other) {
            (RepaintPolicy::Live, _) => RepaintPolicy::Live,
            (_, RepaintPolicy::Live) => RepaintPolicy::Live,
            (RepaintPolicy::Bounded(a), RepaintPolicy::Bounded(b)) => RepaintPolicy::Bounded(a.min(b)),
            (RepaintPolicy::Bounded(d), RepaintPolicy::Static) => RepaintPolicy::Bounded(d),
            (RepaintPolicy::Static, RepaintPolicy::Bounded(d)) => RepaintPolicy::Bounded(d),
            (RepaintPolicy::Static, RepaintPolicy::Static) => RepaintPolicy::Static,
        }
    }

    /// What the policy asks of the host.
    pub fn request(self) -> (r: RepaintRequest)
        ensures
            r == (match self {
                RepaintPolicy::Static => RepaintRequest::Nothing,
                RepaintPolicy::Live => RepaintRequest::Now,
                RepaintPolicy::Bounded(after) => RepaintRequest::After(after),
            }),
    {
        match self {
            RepaintPolicy::Static => RepaintRequest::Nothing,
            RepaintPolicy::Live => RepaintRequest::Now,
            RepaintPolicy::Bounded(after) => RepaintRequest::After(after),
        }
    }
}

/// Policies that ask at least as much as each other are the same policy, so the strongest of a
/// set is unique.
pub proof fn lemma_covers_antisymmetric(a: RepaintPolicy, b: RepaintPolicy)
    requires
        a.covers(b),
        b.covers(a),
    ensures
        a == b,
{
}

/// A live surface asks the most and a static one the least; of two bounded ones, that with the
/// shorter interval asks more.
pub proof fn lemma_policies_are_ordered(p: RepaintPolicy, a: Interval, b: Interval)
    ensures
        RepaintPolicy::Live.covers(p),
        p.covers(RepaintPolicy::Static),
        p.covers(RepaintPolicy::Live) ==> p == RepaintPolicy::Live,
        RepaintPolicy::Static.covers(p) ==> p == RepaintPolicy::Static,
        RepaintPolicy::Bounded(a).covers(RepaintPolicy::Bounded(b)) <==> a.nanos <= b.nanos,
{
}

} // verus!
