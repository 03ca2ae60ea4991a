//! Multiplicity constraints attached to the typed slots of a schema.

use vstd::prelude::*;

verus! {

/// Upper end of a multiplicity range.
#[derive(Clone, Copy, Debug, PartialEq, Eq, Hash, Structural)]
pub enum Bound {
    /// At most this many occurrences.
    Limit(u32),
    /// Any number of occurrences.
    Unbounded,
}

impl Bound {
    /// Whether a count of `n` stays under this bound.
    pub open spec fn admits(self, n: nat) -> bool {
        match self {
            Bound::Limit(m) => n <= m,
            Bound::Unbounded => true,
        }
    }

    /// Whether every count admitted by `self` is admitted by `other`.
    pub open spec fn at_most(self, other: Bound) -> bool {
        match (self, other) {
            (_, Bound::Unbounded) => true,
            (Bound::Unbounded, Bound::Limit(_)) => false,
            (Bound::Limit(a), Bound::Limit(b)) => a <= b,
        }
    }

    /// Decides [`Bound::at_most`].
    pub fn is_at_most(&self, other: &Bound) -> (r: bool)
        ensures
            r == self.at_most(*other),
    {
        match (*self, *other) {
            (_, Bound::Unbounded) => true,
            (Bound::Unbounded, Bound::Limit(_)) => false,
            (Bound::Limit(a), Bound::Limit(b)) => a <= b,
        }
    }
}

/// How many times a typed slot may occur: at least `min` times and no more
/// often than `max` allows.
#[derive(Clone, Copy, Debug, PartialEq, Eq, Hash, Structural)]
pub struct Occurrences {
    pub min: u32,
    pub max: Bound,
}

/// A count that fell outside the range it was checked against.
#[derive(Clone, Copy, Debug, PartialEq, Eq, Hash, Structural)]
pub struct OccurrencesError {
    pub min: u32,
    pub max: Bound,
    pub found: u64,
}

impl Occurrences {
    /// The range is not empty: its lower end does not exceed its upper end.
    pub open spec fn wf(self) -> bool {
        self.max.admits(self.min as nat)
    }

    /// Whether `count` occurrences satisfy the constraint.
    pub open spec fn admits(self, count: nat) -> bool {
        self.min <= count && self.max.admits(count)
    }

    /// Whether the range lies inside `outer`: nothing that `self` admits is
    /// refused by `outer`, given that `self` is not empty.
    pub open spec fn within(self, outer: Occurrences) -> bool {
        outer.min <= self.min && self.max.at_most(outer.max)
    }

    /// The constraint of a slot that the schema does not declare.
    pub open spec fn forbidden() -> Occurrences {
        Occurrences { min: 0, max: Bound::Limit(0) }
    }

    /// Exactly one occurrence.
    pub open spec fn spec_once() -> Occurrences {
        Occurrences { min: 1, max: Bound::Limit(1) }
    }

    /// No occurrence or one.
    pub open spec fn spec_none_or_once() -> Occurrences {
        Occurrences { min: 0, max: Bound::Limit(1) }
    }

    /// Any number of occurrences.
    pub open spec fn spec_none_or_more() -> Occurrences {
        Occurrences { min: 0, max: Bound::Unbounded }
    }

    /// At least one occurrence.
    pub open spec fn spec_once_or_more() -> Occurrences {
        Occurrences { min: 1, max: Bound::Unbounded }
    }

    /// Exactly one occurrence.
    #[verifier::when_used_as_spec(spec_once)]
    pub fn once() -> (r: Occurrences)
        ensures
            r == Self::spec_once(),
            r.wf(),
    {
        Occurrences { min: 1, max: Bound::Limit(1) }
    }

    /// No occurrence or one.
    #[verifier::when_used_as_spec(spec_none_or_once)]
    pub fn none_or_once() -> (r: Occurrences)
        ensures
            r == Self::spec_none_or_once(),
            r.wf(),
    {
        Occurrences { min: 0, max: Bound::Limit(1) }
    }

    /// Any number of occurrences.
    #[verifier::when_used_as_spec(spec_none_or_more)]
    pub fn none_or_more() -> (r: Occurrences)
        ensures
            r == Self::spec_none_or_more(),
            r.wf(),
    {
        Occurrences { min: 0, max: Bound::Unbounded }
    }

    /// At least one occurrence.
    #[verifier::when_used_as_spec(spec_once_or_more)]
    pub fn once_or_more() -> (r: Occurrences)
        ensures
            r == Self::spec_once_or_more(),
            r.wf(),
    {
        Occurrences { min: 1, max: Bound::Unbounded }
    }

    /// The range from `min` to `max`, or `None` where that range is empty.
    pub fn new(min: u32, max: Bound) -> (r: Option<Occurrences>)
        ensures
            r is Some <==> max.admits(min as nat),
            r matches Some(o) ==> o == (Occurrences { min, max }) && o.wf(),
    {
        let fits = match max {
            Bound::Limit(m) => min <= m,
            Bound::Unbounded => true,
        };
        if fits {
            Some(Occurrences { min, max })
        } else {
            None
        }
    }

    /// Least admitted count.
    pub fn min_value(&self) -> (r: u32)
        ensures
            r == self.min,
    {
        self.min
    }

    /// Upper end of the admitted counts.
    pub fn max_value(&self) -> (r: Bound)
        ensures
            r == self.max,
    {
        self.max
    }

    /// Decides [`Occurrences::wf`].
    pub fn is_wf(&self) -> (r: bool)
        ensures
            r == self.wf(),
    {
        match self.max {
            Bound::Limit(m) => self.min <= m,
            Bound::Unbounded => true,
        }
    }

    /// Checks `count` against the constraint and reports the range together
    /// with the count when it falls outside.
    pub fn check(&self, count: usize) -> (r: Result<(), OccurrencesError>)
        ensures
            r is Ok <==> self.admits(count as nat),
            r matches Err(e) ==> e == (OccurrencesError {
                min: self.min,
                max: self.max,
                found: count as u64,
            }),
    {
        let found: u64 = count as u64;
        let under = match self.max {
            Bound::Limit(m) => found <= m as u64,
            Bound::Unbounded => true,
        };
        if self.min as u64 <= found && under {
            Ok(())
        } else {
            Err(OccurrencesError { min: self.min, max: self.max, found })
        }
    }

    /// Decides [`Occurrences::within`].
    pub fn is_within(&self, outer: &Occurrences) -> (r: bool)
        ensures
            r == self.within(*outer),
    {
        outer.min <= self.min && self.max.is_at_most(&outer.max)
    }
}

} // verus!
