//! Contract nodes: the genesis of an asset and the state transitions that
//! follow it.

use crate::schema::{codes_increase, codes_increasing, SchemaId};
use crate::text::AsciiString;
use crate::typemap::{as_map, entries_increase, increasing, TypeMap};
use vstd::prelude::*;

verus! {

/// The chain that a contract is issued on.
#[verifier::external_type_specification]
#[verifier::external_body]
pub struct ExChain(lnpbp::chain::Chain);

/// A transaction output.
#[derive(Clone, Copy, Debug, PartialEq, Eq, Hash)]
pub struct OutPoint {
    pub txid: [u8; 32],
    pub vout: u32,
}

/// How a seal is closed.
#[derive(Clone, Copy, Debug, PartialEq, Eq, Hash, Structural)]
pub enum CloseMethod {
    OpretFirst,
    TapretFirst,
}

/// The place that a right is assigned to. Only who can spend the transaction
/// output behind the seal can pass the right on.
#[derive(Clone, Copy, Debug, PartialEq, Eq, Hash)]
pub enum Seal {
    /// A transaction output, given openly. Without a transaction identifier
    /// it is an output of the transaction that closes the parent seals.
    Revealed { method: CloseMethod, txid: Option<[u8; 32]>, vout: u32, blinding: u64 },
    /// The commitment to a transaction output that only its owner knows.
    Concealed([u8; 32]),
}

impl Seal {
    /// Whether the seal is given openly and sits on the transaction output
    /// `outpoint`, to be closed by a Taproot commitment.
    pub open spec fn is_on(self, outpoint: OutPoint) -> bool {
        match self {
            Seal::Revealed { method, txid, vout, blinding } => method == CloseMethod::TapretFirst
                && txid == Some(outpoint.txid) && vout == outpoint.vout,
            Seal::Concealed(_) => false,
        }
    }
}

/// An amount together with the blinding factor of its commitment.
#[derive(Clone, Copy, Debug, PartialEq, Eq, Hash)]
pub struct RevealedValue {
    pub value: u64,
    pub blinding: [u8; 32],
}

/// An allocation: an amount of the asset assigned to a seal.
#[derive(Clone, Copy, Debug, PartialEq, Eq, Hash)]
pub struct Allocation {
    pub seal: Seal,
    pub state: RevealedValue,
}

/// An attachment assigned to a seal.
#[derive(Debug, PartialEq, Eq, Hash)]
pub struct Attachment {
    pub seal: Seal,
    /// Commitment to the attached data.
    pub id: [u8; 32],
    /// Media type of the attached data.
    pub mime: AsciiString,
    pub salt: u64,
}

/// The rights of one type that a node assigns.
#[derive(Debug, PartialEq, Eq)]
pub enum Assignments {
    /// Amounts of the asset.
    Value(Vec<Allocation>),
    /// Attached data.
    Attachment(Vec<Attachment>),
}

/// A value of a metadata field.
#[derive(Debug, PartialEq, Eq)]
pub enum Value {
    U8(u8),
    U16(u16),
    U64(u64),
    I64(i64),
    AsciiString(AsciiString),
    Bytes(Vec<u8>),
}

/// The model of a [`Value`].
pub enum ValueView {
    U8(u8),
    U16(u16),
    U64(u64),
    I64(i64),
    AsciiString(Seq<char>),
    Bytes(Seq<u8>),
}

impl View for Value {
    type V = ValueView;

    open spec fn view(&self) -> ValueView {
        match self {
            Value::U8(v) => ValueView::U8(*v),
            Value::U16(v) => ValueView::U16(*v),
            Value::U64(v) => ValueView::U64(*v),
            Value::I64(v) => ValueView::I64(*v),
            Value::AsciiString(s) => ValueView::AsciiString(s@),
            Value::Bytes(b) => ValueView::Bytes(b@),
        }
    }
}

/// A reference to an allocation made by an earlier node.
#[derive(Clone, Copy, Debug, PartialEq, Eq, Hash)]
pub struct PriorAllocation {
    /// Identifier of the node that made the allocation.
    pub node_id: [u8; 32],
    /// Position of the allocation among those of its type in that node.
    pub index: u16,
}

/// What can be counted against an occurrence range.
pub trait Countable {
    /// The number of items held.
    spec fn spec_count(&self) -> nat;

    /// The number of items held.
    fn count(&self) -> (r: usize)
        ensures
            r == self.spec_count(),
    ;
}

impl Countable for Vec<Value> {
    open spec fn spec_count(&self) -> nat {
        self@.len()
    }

    fn count(&self) -> (r: usize) {
        self.len()
    }
}

impl Countable for Vec<PriorAllocation> {
    open spec fn spec_count(&self) -> nat {
        self@.len()
    }

    fn count(&self) -> (r: usize) {
        self.len()
    }
}

impl Countable for Assignments {
    open spec fn spec_count(&self) -> nat {
        match self {
            Assignments::Value(v) => v@.len(),
            Assignments::Attachment(v) => v@.len(),
        }
    }

    fn count(&self) -> (r: usize) {
        match self {
            Assignments::Value(v) => v.len(),
            Assignments::Attachment(v) => v.len(),
        }
    }
}

impl Assignments {
    /// The amounts assigned, in order; none where the rights carry no amount.
    pub open spec fn amounts(&self) -> Seq<u64> {
        match self {
            Assignments::Value(v) => v@.map_values(|a: Allocation| a.state.value),
            Assignments::Attachment(_) => Seq::empty(),
        }
    }
}

/// How often the type `code` occurs among `items`: the number of items held
/// under the code, and zero where the code is absent.
pub open spec fn count_of<V: Countable>(items: Seq<(u16, V)>, code: u16) -> nat {
    if as_map(items).contains_key(code) {
        as_map(items)[code].spec_count()
    } else {
        0
    }
}

/// The genesis of a contract.
#[derive(Debug)]
pub struct Genesis {
    pub schema_id: SchemaId,
    pub chain: lnpbp::chain::Chain,
    pub metadata: TypeMap<Vec<Value>>,
    pub owned_rights: TypeMap<Assignments>,
    pub public_rights: Vec<u16>,
}

impl Genesis {
    /// The tables of the node are in increasing order of code.
    pub open spec fn wf(&self) -> bool {
        &&& increasing(self.metadata.entries@)
        &&& increasing(self.owned_rights.entries@)
        &&& codes_increasing(self.public_rights@)
    }

    /// Decides [`Genesis::wf`].
    pub fn is_wf(&self) -> (r: bool)
        ensures
            r == self.wf(),
    {
        entries_increase(&self.metadata.entries) && entries_increase(&self.owned_rights.entries)
            && codes_increase(&self.public_rights)
    }
}

/// A state transition.
#[derive(Debug, PartialEq, Eq)]
pub struct Transition {
    pub transition_type: u16,
    pub metadata: TypeMap<Vec<Value>>,
    /// The prior allocations that the transition closes, by right type.
    pub closes: TypeMap<Vec<PriorAllocation>>,
    pub owned_rights: TypeMap<Assignments>,
    pub public_rights: Vec<u16>,
}

impl Transition {
    /// The tables of the node are in increasing order of code.
    pub open spec fn wf(&self) -> bool {
        &&& increasing(self.metadata.entries@)
        &&& increasing(self.closes.entries@)
        &&& increasing(self.owned_rights.entries@)
        &&& codes_increasing(self.public_rights@)
    }

    /// Decides [`Transition::wf`].
    pub fn is_wf(&self) -> (r: bool)
        ensures
            r == self.wf(),
    {
        entries_increase(&self.metadata.entries) && entries_increase(&self.closes.entries)
            && entries_increase(&self.owned_rights.entries) && codes_increase(&self.public_rights)
    }
}

} // verus!
