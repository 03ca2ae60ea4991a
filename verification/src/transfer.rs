//! State transitions that move amounts of an asset from prior allocations
//! to new ones.
//!
//! A transfer closes allocations of one right type and assigns the same
//! total to new seals: what is not paid to a beneficiary is assigned back as
//! change. Nothing is left over and nothing is created.

use crate::amount::{checked_total, HasAmount, total};
use crate::codes::{OwnedRightType, TransitionType};
use crate::contract::{
    Allocation, Assignments, CloseMethod, count_of, Countable, PriorAllocation, RevealedValue,
    Transition, Value,
};
use crate::error::{Error, Slot};
use crate::occurrences::Occurrences;
use crate::request::{
    asked, does_serve_transfer, law_served_transfer_balances, on_distinct_seals, serves_transfer,
};
use crate::schema::{Schema, SchemaView, TransitionSchemaView};
use crate::trusted::{
    blind_transfer, blinding_factors_add_up, have_blinding_sum, is_blinding_factor, is_secret_key,
    opened,
};
use crate::typemap::{as_map, has_code, increasing, lemma_as_map_entry, position, TypeMap};
use crate::validation::{
    check_node, check_slots, or_else, out_of_bounds_from, range_of, slots_failure,
    transition_conforms, unknown_from,
};
use vstd::prelude::*;

verus! {

/// An allocation that a transition closes: where it was made, and the
/// amount that it holds.
#[derive(Clone, Copy, Debug, PartialEq, Eq, Hash)]
pub struct ClosedAllocation {
    pub prior: PriorAllocation,
    pub state: RevealedValue,
}

impl HasAmount for ClosedAllocation {
    open spec fn spec_amount(&self) -> u64 {
        self.state.value
    }

    fn amount(&self) -> (r: u64) {
        self.state.value
    }
}

/// A payment: an amount for the owner of a concealed seal.
#[derive(Clone, Copy, Debug, PartialEq, Eq, Hash)]
pub struct Beneficiary {
    pub value: u64,
    /// The commitment to the beneficiary's transaction output.
    pub seal: [u8; 32],
}

impl HasAmount for Beneficiary {
    open spec fn spec_amount(&self) -> u64 {
        self.value
    }

    fn amount(&self) -> (r: u64) {
        self.value
    }
}

/// Change: an amount that goes back to an output of the payer. Without a
/// transaction identifier the output is one of the transaction that closes
/// the spent seals.
#[derive(Clone, Copy, Debug, PartialEq, Eq, Hash)]
pub struct Change {
    pub value: u64,
    pub method: CloseMethod,
    pub txid: Option<[u8; 32]>,
    pub vout: u32,
}

impl HasAmount for Change {
    open spec fn spec_amount(&self) -> u64 {
        self.value
    }

    fn amount(&self) -> (r: u64) {
        self.value
    }
}

impl Countable for usize {
    open spec fn spec_count(&self) -> nat {
        *self as nat
    }

    fn count(&self) -> (r: usize) {
        *self
    }
}

/// The items of a node that holds `count` items under `code` and nothing
/// else; a node that holds none has no entry for the code.
pub open spec fn held(code: u16, count: nat) -> Seq<(u16, usize)> {
    if count == 0 {
        Seq::empty()
    } else {
        seq![(code, count as usize)]
    }
}

/// The first failure of a transition without metadata that closes `closed`
/// allocations of the right type `right_type` and assigns `assigned` new
/// ones, against the schema of its type.
pub open spec fn shape_failure(
    schema: TransitionSchemaView,
    right_type: u16,
    closed: nat,
    assigned: nat,
) -> Option<Error> {
    or_else(
        slots_failure(schema.metadata, Seq::<(u16, usize)>::empty(), Slot::Metadata),
        or_else(
            slots_failure(schema.closes, held(right_type, closed), Slot::Closes),
            slots_failure(schema.owned_rights, held(right_type, assigned), Slot::OwnedRights),
        ),
    )
}

/// Why no transition of the type `transition_type` can close the
/// allocations `closed` of the right type `right_type` and assign
/// `allocations` in their place, or `None` where it can. The reasons are
/// tried in this order: the schema lacks the transition type; it does not
/// admit that number of closed allocations; a sum exceeds 64 bits; the sums
/// differ; the transition would not conform to the schema.
pub open spec fn transfer_failure(
    schema: SchemaView,
    transition_type: u16,
    right_type: u16,
    closed: Seq<ClosedAllocation>,
    allocations: Seq<Allocation>,
) -> Option<Error> {
    plan_failure(
        schema,
        transition_type,
        right_type,
        closed,
        total(allocations),
        allocations.len(),
    )
}

/// Why no transition of the type `transition_type` can close the
/// allocations `closed` of the right type `right_type` and assign
/// `assigned` new allocations that add up to `total_out`, or `None` where
/// it can.
pub open spec fn plan_failure(
    schema: SchemaView,
    transition_type: u16,
    right_type: u16,
    closed: Seq<ClosedAllocation>,
    total_out: nat,
    assigned: nat,
) -> Option<Error> {
    if !has_code(schema.transitions, transition_type) {
        Some(Error::UnknownType { slot: Slot::Transitions, code: transition_type })
    } else {
        let node = as_map(schema.transitions)[transition_type];
        if !range_of(node.closes, right_type).admits(closed.len()) {
            Some(Error::NothingToClose { right_type })
        } else if total(closed) > u64::MAX || total_out > u64::MAX {
            Some(Error::ArithmeticOverflow)
        } else if total(closed) != total_out {
            Some(
                Error::UnbalancedTransition {
                    right_type,
                    total_in: total(closed) as u64,
                    total_out: total_out as u64,
                },
            )
        } else {
            shape_failure(node, right_type, closed.len(), assigned)
        }
    }
}

/// The transition is the transfer that closes `closed` and assigns
/// `allocations`, both of the right type `right_type`.
pub open spec fn is_transfer_of(
    transition: Transition,
    transition_type: u16,
    right_type: u16,
    closed: Seq<ClosedAllocation>,
    allocations: Seq<Allocation>,
) -> bool {
    &&& transition.transition_type == transition_type
    &&& transition.metadata.entries@.len() == 0
    &&& transition.public_rights@.len() == 0
    &&& if closed.len() == 0 {
        transition.closes.entries@.len() == 0
    } else {
        &&& transition.closes.entries@.len() == 1
        &&& transition.closes.entries@[0].0 == right_type
        &&& transition.closes.entries@[0].1@ == closed.map_values(|c: ClosedAllocation| c.prior)
    }
    &&& if allocations.len() == 0 {
        transition.owned_rights.entries@.len() == 0
    } else {
        &&& transition.owned_rights.entries@.len() == 1
        &&& transition.owned_rights.entries@[0].0 == right_type
        &&& transition.owned_rights.entries@[0].1 matches Assignments::Value(v)
        &&& v@ == allocations
    }
}

/// Items with the same codes and the same counts fare alike against a
/// table.
pub proof fn lemma_failure_by_counts<A: Countable, B: Countable>(
    table: Seq<(u16, Occurrences)>,
    a: Seq<(u16, A)>,
    b: Seq<(u16, B)>,
    slot: Slot,
)
    requires
        increasing(a),
        a.len() == b.len(),
        forall|i: int|
            0 <= i < a.len() ==> (#[trigger] a[i]).0 == b[i].0 && a[i].1.spec_count()
                == b[i].1.spec_count(),
    ensures
        slots_failure(table, a, slot) == slots_failure(table, b, slot),
{
    assert(increasing(b)) by {
        assert forall|i: int, j: int| 0 <= i < j < b.len() implies (#[trigger] b[i]).0 < (
        #[trigger] b[j]).0 by {
            assert(a[i].0 < a[j].0);
        }
    }
    assert forall|code: u16| count_of(a, code) == count_of(b, code) by {
        if has_code(a, code) {
            let i = position(a, code);
            assert(b[i].0 == code);
            lemma_as_map_entry(a, i);
            lemma_as_map_entry(b, i);
        }
        if has_code(b, code) {
            let i = position(b, code);
            assert(a[i].0 == code);
            lemma_as_map_entry(a, i);
            lemma_as_map_entry(b, i);
        }
    }
    lemma_unknown_by_codes(table, a, b, slot, 0);
    lemma_out_of_bounds_by_counts(table, a, b, slot, 0);
}

/// Items with the same codes hold the same first undeclared code.
pub proof fn lemma_unknown_by_codes<A, B>(
    table: Seq<(u16, Occurrences)>,
    a: Seq<(u16, A)>,
    b: Seq<(u16, B)>,
    slot: Slot,
    from: int,
)
    requires
        0 <= from <= a.len(),
        a.len() == b.len(),
        forall|i: int| 0 <= i < a.len() ==> (#[trigger] a[i]).0 == b[i].0,
    ensures
        unknown_from(table, a, slot, from) == unknown_from(table, b, slot, from),
    decreases a.len() - from,
{
    if from < a.len() {
        assert(a[from].0 == b[from].0);
        lemma_unknown_by_codes(table, a, b, slot, from + 1);
    }
}

/// Items with the same counts are out of range at the same entry.
pub proof fn lemma_out_of_bounds_by_counts<A: Countable, B: Countable>(
    table: Seq<(u16, Occurrences)>,
    a: Seq<(u16, A)>,
    b: Seq<(u16, B)>,
    slot: Slot,
    from: int,
)
    requires
        0 <= from <= table.len(),
        forall|code: u16| count_of(a, code) == count_of(b, code),
    ensures
        out_of_bounds_from(table, a, slot, from) == out_of_bounds_from(table, b, slot, from),
    decreases table.len() - from,
{
    if from < table.len() {
        assert(count_of(a, table[from].0) == count_of(b, table[from].0));
        lemma_out_of_bounds_by_counts(table, a, b, slot, from + 1);
    }
}

/// The references to the allocations that are closed.
fn priors_of(closed: &Vec<ClosedAllocation>) -> (r: Vec<PriorAllocation>)
    ensures
        r@ == closed@.map_values(|c: ClosedAllocation| c.prior),
{
    let mut r: Vec<PriorAllocation> = Vec::new();
    let mut i: usize = 0;
    while i < closed.len()
        invariant
            i <= closed@.len(),
            r@ == closed@.subrange(0, i as int).map_values(|c: ClosedAllocation| c.prior),
        decreases closed@.len() - i,
    {
        r.push(closed[i].prior);
        assert(r@ =~= closed@.subrange(0, i + 1).map_values(|c: ClosedAllocation| c.prior));
        i = i + 1;
    }
    assert(closed@.subrange(0, i as int) =~= closed@);
    r
}

/// Builds the transition of the type `transition_type` that closes the
/// allocations `closed` and assigns `allocations`, both of the right type
/// `right_type`, under `schema`.
///
/// The amounts closed and the amounts assigned must be equal: a transfer
/// pays no fee and leaves nothing unassigned. The transition that comes
/// back conforms to the schema.
pub fn build_transfer(
    schema: &Schema,
    transition_type: u16,
    right_type: u16,
    closed: Vec<ClosedAllocation>,
    allocations: Vec<Allocation>,
) -> (r: Result<Transition, Error>)
    requires
        schema.wf(),
    ensures
        r is Ok <==> transfer_failure(schema@, transition_type, right_type, closed@, allocations@)
            is None,
        r matches Err(e) ==> Some(e) == transfer_failure(
            schema@,
            transition_type,
            right_type,
            closed@,
            allocations@,
        ),
        r matches Ok(t) ==> is_transfer_of(t, transition_type, right_type, closed@, allocations@)
            && t.wf() && transition_conforms(schema@, t),
{
    proof {
        schema.lemma_transitions_view(transition_type);
    }
    let node = match schema.transitions.get(transition_type) {
        None => {
            return Err(Error::UnknownType { slot: Slot::Transitions, code: transition_type });
        },
        Some(node) => node,
    };
    let admitted = match node.closes.get(right_type) {
        Some(range) => range.check(closed.len()).is_ok(),
        None => closed.len() == 0,
    };
    if !admitted {
        return Err(Error::NothingToClose { right_type });
    }
    let total_in = match checked_total(&closed) {
        Some(t) => t,
        None => {
            return Err(Error::ArithmeticOverflow);
        },
    };
    let total_out = match checked_total(&allocations) {
        Some(t) => t,
        None => {
            return Err(Error::ArithmeticOverflow);
        },
    };
    if total_in != total_out {
        return Err(Error::UnbalancedTransition { right_type, total_in, total_out });
    }
    let ghost closed_seq = closed@;
    let ghost assigned_seq = allocations@;
    let mut closes: TypeMap<Vec<PriorAllocation>> = TypeMap::new();
    if closed.len() > 0 {
        closes.entries.push((right_type, priors_of(&closed)));
    }
    let mut owned_rights: TypeMap<Assignments> = TypeMap::new();
    if allocations.len() > 0 {
        owned_rights.entries.push((right_type, Assignments::Value(allocations)));
    }
    let metadata: TypeMap<Vec<Value>> = TypeMap::new();
    let transition = Transition {
        transition_type,
        metadata,
        closes,
        owned_rights,
        public_rights: Vec::new(),
    };
    proof {
        assert(is_transfer_of(transition, transition_type, right_type, closed_seq, assigned_seq));
        lemma_failure_by_counts(
            node@.metadata,
            transition.metadata.entries@,
            Seq::<(u16, usize)>::empty(),
            Slot::Metadata,
        );
        lemma_failure_by_counts(
            node@.closes,
            transition.closes.entries@,
            held(right_type, closed_seq.len()),
            Slot::Closes,
        );
        lemma_failure_by_counts(
            node@.owned_rights,
            transition.owned_rights.entries@,
            held(right_type, assigned_seq.len()),
            Slot::OwnedRights,
        );
    }
    match check_node(node, &transition) {
        Some(e) => Err(e),
        None => Ok(transition),
    }
}

/// The amounts that the closed allocations hold, with their blinding
/// factors.
fn states_of(closed: &Vec<ClosedAllocation>) -> (r: Vec<RevealedValue>)
    ensures
        r@ == closed@.map_values(|c: ClosedAllocation| c.state),
{
    let mut r: Vec<RevealedValue> = Vec::new();
    let mut i: usize = 0;
    while i < closed.len()
        invariant
            i <= closed@.len(),
            r@ == closed@.subrange(0, i as int).map_values(|c: ClosedAllocation| c.state),
        decreases closed@.len() - i,
    {
        r.push(closed[i].state);
        assert(r@ =~= closed@.subrange(0, i + 1).map_values(|c: ClosedAllocation| c.state));
        i = i + 1;
    }
    assert(closed@.subrange(0, i as int) =~= closed@);
    r
}

/// Decides whether a transition of the type `transition_type` can close
/// the allocations `closed` of the right type `right_type` and assign
/// `assigned` new ones that add up to `total_out`; `None` for `total_out`
/// stands for a sum beyond 64 bits.
pub fn check_plan(
    schema: &Schema,
    transition_type: u16,
    right_type: u16,
    closed: &Vec<ClosedAllocation>,
    total_out: Option<u64>,
    assigned: usize,
) -> (r: Option<Error>)
    requires
        schema.wf(),
    ensures
        forall|out: nat|
            (match total_out {
                Some(t) => out == t,
                None => out > u64::MAX,
            }) ==> r == #[trigger] plan_failure(
                schema@,
                transition_type,
                right_type,
                closed@,
                out,
                assigned as nat,
            ),
{
    proof {
        schema.lemma_transitions_view(transition_type);
    }
    let node = match schema.transitions.get(transition_type) {
        None => {
            return Some(Error::UnknownType { slot: Slot::Transitions, code: transition_type });
        },
        Some(node) => node,
    };
    let admitted = match node.closes.get(right_type) {
        Some(range) => range.check(closed.len()).is_ok(),
        None => closed.len() == 0,
    };
    if !admitted {
        return Some(Error::NothingToClose { right_type });
    }
    let total_in = match checked_total(closed) {
        Some(t) => t,
        None => {
            return Some(Error::ArithmeticOverflow);
        },
    };
    let total_out = match total_out {
        Some(t) => t,
        None => {
            return Some(Error::ArithmeticOverflow);
        },
    };
    if total_in != total_out {
        return Some(Error::UnbalancedTransition { right_type, total_in, total_out });
    }
    let mut closes: TypeMap<usize> = TypeMap::new();
    if closed.len() > 0 {
        closes.entries.push((right_type, closed.len()));
    }
    let mut owned: TypeMap<usize> = TypeMap::new();
    if assigned > 0 {
        owned.entries.push((right_type, assigned));
    }
    let none: TypeMap<usize> = TypeMap::new();
    assert(closes.entries@ =~= held(right_type, closed@.len()));
    assert(owned.entries@ =~= held(right_type, assigned as nat));
    assert(none.entries@ =~= Seq::<(u16, usize)>::empty());
    let metadata = check_slots(&node.metadata, &none, Slot::Metadata);
    if metadata.is_some() {
        return metadata;
    }
    let shut = check_slots(&node.closes, &closes, Slot::Closes);
    if shut.is_some() {
        return shut;
    }
    check_slots(&node.owned_rights, &owned, Slot::OwnedRights)
}

/// Whether the amounts can be blinded against the given inputs: every
/// input carries a blinding factor, and the blinding factors add up to one.
pub open spec fn blindable(inputs: Seq<RevealedValue>) -> bool {
    &&& forall|i: int| 0 <= i < inputs.len() ==> is_blinding_factor((#[trigger] inputs[i]).blinding@)
    &&& inputs.len() > 0 ==> blinding_factors_add_up(
        inputs.map_values(|i: RevealedValue| i.blinding@),
    )
}

/// Decides [`blindable`].
fn is_blindable(inputs: &Vec<RevealedValue>) -> (r: bool)
    ensures
        r == blindable(inputs@),
{
    let mut i: usize = 0;
    while i < inputs.len()
        invariant
            i <= inputs@.len(),
            forall|j: int| 0 <= j < i ==> is_blinding_factor((#[trigger] inputs@[j]).blinding@),
        decreases inputs@.len() - i,
    {
        if !is_secret_key(&inputs[i].blinding) {
            return false;
        }
        i = i + 1;
    }
    inputs.len() == 0 || have_blinding_sum(inputs)
}

/// The sum of two amounts, or `None` where one of them is missing or the
/// sum exceeds 64 bits.
fn add_totals(a: Option<u64>, b: Option<u64>) -> (r: Option<u64>)
    ensures
        r is Some <==> a is Some && b is Some && a->0 + b->0 <= u64::MAX,
        r matches Some(t) ==> t == a->0 + b->0,
{
    match (a, b) {
        (Some(x), Some(y)) => x.checked_add(y),
        _ => None,
    }
}

/// Why the request to pay `beneficiaries` and to keep `change` out of the
/// allocations `closed` cannot be met, before any amount is blinded, or
/// `None` where it can.
pub open spec fn request_failure(
    schema: SchemaView,
    closed: Seq<ClosedAllocation>,
    beneficiaries: Seq<Beneficiary>,
    change: Seq<Change>,
) -> Option<Error> {
    plan_failure(
        schema,
        TransitionType::Transfer.spec_code(),
        OwnedRightType::Assets.spec_code(),
        closed,
        total(beneficiaries) + total(change),
        beneficiaries.len() + change.len(),
    )
}

/// Allocations that are what the transfer asked for make the transition
/// succeed or fail as the request does: they are as many as were asked for
/// and add up to the same amount.
pub proof fn law_served_transfer_is_the_request(
    schema: SchemaView,
    closed: Seq<ClosedAllocation>,
    beneficiaries: Seq<Beneficiary>,
    change: Seq<Change>,
    allocations: Seq<Allocation>,
)
    requires
        serves_transfer(allocations, beneficiaries, change),
    ensures
        transfer_failure(
            schema,
            TransitionType::Transfer.spec_code(),
            OwnedRightType::Assets.spec_code(),
            closed,
            allocations,
        ) == request_failure(schema, closed, beneficiaries, change),
{
    law_served_transfer_balances(allocations, beneficiaries, change);
}

/// Builds the state transition that transfers assets from what the
/// blinding of the amounts handed back: `blinded` holds the allocations
/// that came back, or `None` where some amount came back concealed.
///
/// The blinding has failed where nothing usable came back, or where the
/// allocations are not the payments and the change that were asked for,
/// each as often as it was asked for. Else the transition closes `closed`
/// and assigns the allocations, where they balance what is closed and the
/// schema provides for the transfer.
pub fn transfer_of_blinded(
    schema: &Schema,
    closed: Vec<ClosedAllocation>,
    beneficiaries: &Vec<Beneficiary>,
    change: &Vec<Change>,
    blinded: Option<Vec<Allocation>>,
) -> (r: Result<Transition, Error>)
    requires
        schema.wf(),
        beneficiaries@.len() + change@.len() <= usize::MAX,
    ensures
        blinded is None ==> r == Err::<Transition, Error>(Error::BlindingFailure),
        blinded is Some && !serves_transfer(blinded->0@, beneficiaries@, change@) ==> r == Err::<
            Transition,
            Error,
        >(Error::BlindingFailure),
        blinded is Some && serves_transfer(blinded->0@, beneficiaries@, change@) ==> (r is Ok
            <==> transfer_failure(
            schema@,
            TransitionType::Transfer.spec_code(),
            OwnedRightType::Assets.spec_code(),
            closed@,
            blinded->0@,
        ) is None),
        blinded is Some && serves_transfer(blinded->0@, beneficiaries@, change@) ==> (r matches Err(
            e,
        ) ==> Some(e) == transfer_failure(
            schema@,
            TransitionType::Transfer.spec_code(),
            OwnedRightType::Assets.spec_code(),
            closed@,
            blinded->0@,
        )),
        r matches Ok(t) ==> blinded is Some && is_transfer_of(
            t,
            TransitionType::Transfer.spec_code(),
            OwnedRightType::Assets.spec_code(),
            closed@,
            blinded->0@,
        ) && t.wf() && transition_conforms(schema@, t),
{
    let allocations = match blinded {
        Some(allocations) => allocations,
        None => {
            return Err(Error::BlindingFailure);
        },
    };
    if !does_serve_transfer(&allocations, beneficiaries, change) {
        return Err(Error::BlindingFailure);
    }
    build_transfer(
        schema,
        TransitionType::Transfer.code(),
        OwnedRightType::Assets.code(),
        closed,
        allocations,
    )
}

/// Prepares the state transition that transfers assets: it closes the
/// allocations `closed`, pays the `beneficiaries` and assigns the `change`
/// back.
///
/// The request is checked first: the schema must provide for the transfer,
/// and payments and change must add up to what is closed. The allocations
/// to be closed must carry blinding factors that add up to one. The amounts
/// are then blinded at random, and [`transfer_of_blinded`] builds the
/// transition from what the blinding hands back. A request that passes the
/// two checks fails only where the blinding does, and succeeds where no two
/// of the outputs go to one seal.
pub fn transfer(
    schema: &Schema,
    closed: Vec<ClosedAllocation>,
    beneficiaries: Vec<Beneficiary>,
    change: Vec<Change>,
) -> (r: Result<Transition, Error>)
    requires
        schema.wf(),
        beneficiaries@.len() + change@.len() <= usize::MAX,
    ensures
        request_failure(schema@, closed@, beneficiaries@, change@) matches Some(e) ==> r == Err::<
            Transition,
            Error,
        >(e),
        request_failure(schema@, closed@, beneficiaries@, change@) is None && !blindable(
            closed@.map_values(|c: ClosedAllocation| c.state),
        ) ==> r == Err::<Transition, Error>(Error::BlindingFailure),
        request_failure(schema@, closed@, beneficiaries@, change@) is None ==> r is Ok || r
            == Err::<Transition, Error>(Error::BlindingFailure),
        request_failure(schema@, closed@, beneficiaries@, change@) is None && blindable(
            closed@.map_values(|c: ClosedAllocation| c.state),
        ) && on_distinct_seals(asked(beneficiaries@) + asked(change@)) ==> r is Ok,
        r matches Ok(t) ==> transition_conforms(schema@, t) && t.wf() && exists|
            allocations: Seq<Allocation>,
        |
            #[trigger] is_transfer_of(
                t,
                TransitionType::Transfer.spec_code(),
                OwnedRightType::Assets.spec_code(),
                closed@,
                allocations,
            ) && total(allocations) == total(closed@) && serves_transfer(
                allocations,
                beneficiaries@,
                change@,
            ),
{
    let total_out = add_totals(checked_total(&beneficiaries), checked_total(&change));
    let planned = check_plan(
        schema,
        TransitionType::Transfer.code(),
        OwnedRightType::Assets.code(),
        &closed,
        total_out,
        beneficiaries.len() + change.len(),
    );
    proof {
        let out = total(beneficiaries@) + total(change@);
        assert(planned == plan_failure(
            schema@,
            TransitionType::Transfer.spec_code(),
            OwnedRightType::Assets.spec_code(),
            closed@,
            out,
            (beneficiaries@.len() + change@.len()) as nat,
        ));
    }
    if let Some(e) = planned {
        return Err(e);
    }
    let inputs = states_of(&closed);
    if !is_blindable(&inputs) {
        return Err(Error::BlindingFailure);
    }
    let blinded = opened(&blind_transfer(&inputs, &change, &beneficiaries));
    let ghost came = blinded;
    proof {
        if came is Some && serves_transfer(came->0@, beneficiaries@, change@) {
            law_served_transfer_is_the_request(
                schema@,
                closed@,
                beneficiaries@,
                change@,
                came->0@,
            );
            law_served_transfer_balances(came->0@, beneficiaries@, change@);
        }
    }
    let r = transfer_of_blinded(schema, closed, &beneficiaries, &change, blinded);
    proof {
        if r is Ok {
            assert(is_transfer_of(
                r->Ok_0,
                TransitionType::Transfer.spec_code(),
                OwnedRightType::Assets.spec_code(),
                closed@,
                came->0@,
            ));
        }
    }
    r
}

} // verus!
