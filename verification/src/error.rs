//! The failures that the library reports.

use crate::occurrences::Bound;
use vstd::prelude::*;

verus! {

/// The part of a schema or of a contract node that a failure concerns.
#[derive(Clone, Copy, Debug, PartialEq, Eq, Hash, Structural)]
pub enum Slot {
    /// Metadata fields.
    Metadata,
    /// Prior allocations that a transition closes.
    Closes,
    /// Owned rights.
    OwnedRights,
    /// Public rights.
    PublicRights,
    /// The data types of the metadata fields.
    FieldTypes,
    /// The state formats of the owned rights.
    OwnedRightTypes,
    /// The declared public rights.
    PublicRightTypes,
    /// The types of state transition.
    Transitions,
}

/// The node of a schema that a failure concerns.
#[derive(Clone, Copy, Debug, PartialEq, Eq, Hash, Structural)]
pub enum NodeKind {
    /// The schema's own catalogue of types.
    Catalogue,
    /// The genesis.
    Genesis,
    /// The state transition of the given type.
    Transition(u16),
}

/// How a subschema departs from its root.
#[derive(Clone, Copy, Debug, PartialEq, Eq, Hash, Structural)]
pub enum Mismatch {
    /// The subschema uses a type code that the root does not declare.
    Undeclared,
    /// The subschema admits counts that the root refuses.
    Widened,
    /// The subschema gives the type code another data type or state format.
    Redefined,
}

/// Errors generated while schemata are checked and contracts are built.
#[derive(Clone, Debug, PartialEq, Eq, Hash)]
pub enum Error {
    /// The provided file attachment is invalid.
    InvalidFileAttachment(String),
    /// A type code appears in the data but not in the schema.
    UnknownType { slot: Slot, code: u16 },
    /// The number of occurrences of a type is outside the declared range.
    OccurrenceOutOfBounds {
        slot: Slot,
        code: u16,
        actual: u64,
        expected_min: u32,
        expected_max: Bound,
    },
    /// A subschema departs from its root beyond restriction.
    SchemaMismatch { node: NodeKind, slot: Slot, code: u16, reason: Mismatch },
    /// A sum of values exceeds the range of the value type.
    ArithmeticOverflow,
    /// The values that a transition closes and the values that it assigns
    /// differ.
    UnbalancedTransition { right_type: u16, total_in: u64, total_out: u64 },
    /// The number of allocations that a transition closes is not what the
    /// schema asks for.
    NothingToClose { right_type: u16 },
    /// The amounts could not be blinded: an allocation to be closed carries
    /// no valid blinding factor, or the allocations that came back from
    /// the blinding are not the ones that were asked for.
    BlindingFailure,
}

/// The outcome of a check, in short.
#[derive(Clone, Copy, Debug, PartialEq, Eq, Hash, Structural)]
pub enum Validity {
    Valid,
    Invalid,
}

/// The outcome of a check: the first failure found, if any.
#[derive(Clone, Debug, PartialEq, Eq)]
pub struct Status {
    pub failure: Option<Error>,
}

impl Status {
    /// The status of a check that found nothing wrong.
    pub fn new() -> (r: Status)
        ensures
            r.failure is None,
    {
        Status { failure: None }
    }

    /// The status of a check that failed with `failure`.
    pub fn with_failure(failure: Error) -> (r: Status)
        ensures
            r.failure == Some(failure),
    {
        Status { failure: Some(failure) }
    }

    /// Whether the check found nothing wrong.
    pub open spec fn is_valid(&self) -> bool {
        self.failure is None
    }

    /// `Valid` where the check found nothing wrong, `Invalid` elsewhere.
    pub fn validity(&self) -> (r: Validity)
        ensures
            r == Validity::Valid <==> self.is_valid(),
            r == Validity::Invalid <==> !self.is_valid(),
    {
        match self.failure {
            None => Validity::Valid,
            Some(_) => Validity::Invalid,
        }
    }
}

} // verus!
