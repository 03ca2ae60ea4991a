//! Conformance of contract nodes to a schema.
//!
//! A node conforms where every type code that it uses is declared by the
//! schema and every declared type occurs as often as its range admits. A
//! check stops at the first failure, in this order: metadata, closed
//! allocations, owned rights, public rights; within each, first the codes
//! that the schema does not declare, in the order of the node, then the
//! counts out of range, in the order of the schema.

use crate::contract::{count_of, Countable, Genesis, Transition};
use crate::error::{Error, Slot, Status};
use crate::occurrences::Occurrences;
use crate::schema::{GenesisSchemaView, Schema, SchemaView, TransitionSchema, TransitionSchemaView};
use crate::typemap::{
    as_map, has_code, increasing, lemma_as_map_entry, lemma_view_entries, position, TypeMap,
};
use vstd::prelude::*;

verus! {

/// The first of two findings.
pub open spec fn or_else(first: Option<Error>, second: Option<Error>) -> Option<Error> {
    match first {
        Some(e) => Some(e),
        None => second,
    }
}

/// The failure for the first item, from position `from` on, whose code the
/// table does not declare.
pub open spec fn unknown_from<V>(
    table: Seq<(u16, Occurrences)>,
    items: Seq<(u16, V)>,
    slot: Slot,
    from: int,
) -> Option<Error>
    decreases items.len() - from,
{
    if from < 0 || from >= items.len() {
        None
    } else if !has_code(table, items[from].0) {
        Some(Error::UnknownType { slot, code: items[from].0 })
    } else {
        unknown_from(table, items, slot, from + 1)
    }
}

/// The failure for the first entry of the table, from position `from` on,
/// whose range does not admit the number of items of its type.
pub open spec fn out_of_bounds_from<V: Countable>(
    table: Seq<(u16, Occurrences)>,
    items: Seq<(u16, V)>,
    slot: Slot,
    from: int,
) -> Option<Error>
    decreases table.len() - from,
{
    if from < 0 || from >= table.len() {
        None
    } else if !table[from].1.admits(count_of(items, table[from].0)) {
        Some(
            Error::OccurrenceOutOfBounds {
                slot,
                code: table[from].0,
                actual: count_of(items, table[from].0) as u64,
                expected_min: table[from].1.min,
                expected_max: table[from].1.max,
            },
        )
    } else {
        out_of_bounds_from(table, items, slot, from + 1)
    }
}

/// The first failure of the items against the table, if any.
pub open spec fn slots_failure<V: Countable>(
    table: Seq<(u16, Occurrences)>,
    items: Seq<(u16, V)>,
    slot: Slot,
) -> Option<Error> {
    or_else(unknown_from(table, items, slot, 0), out_of_bounds_from(table, items, slot, 0))
}

/// The items conform to the table: every code in use is declared, and every
/// declared type occurs as often as its range admits.
pub open spec fn slots_conform<V: Countable>(
    table: Seq<(u16, Occurrences)>,
    items: Seq<(u16, V)>,
) -> bool {
    &&& forall|code: u16| has_code(items, code) ==> has_code(table, code)
    &&& forall|code: u16| #[trigger]
        has_code(table, code) ==> as_map(table)[code].admits(count_of(items, code))
}

/// The range that a table gives to a code: the declared one, or the
/// forbidding range for a code that it does not declare.
pub open spec fn range_of(table: Seq<(u16, Occurrences)>, code: u16) -> Occurrences {
    if has_code(table, code) {
        as_map(table)[code]
    } else {
        Occurrences::forbidden()
    }
}

/// The failure for the first public right, from position `from` on, that is
/// not among the allowed ones.
pub open spec fn rights_unknown_from(allowed: Seq<u16>, rights: Seq<u16>, from: int) -> Option<
    Error,
>
    decreases rights.len() - from,
{
    if from < 0 || from >= rights.len() {
        None
    } else if !allowed.contains(rights[from]) {
        Some(Error::UnknownType { slot: Slot::PublicRights, code: rights[from] })
    } else {
        rights_unknown_from(allowed, rights, from + 1)
    }
}

/// Every public right in use is among the allowed ones.
pub open spec fn rights_conform(allowed: Seq<u16>, rights: Seq<u16>) -> bool {
    forall|i: int| 0 <= i < rights.len() ==> allowed.contains(#[trigger] rights[i])
}

/// No item from `from` on has an undeclared code exactly when the search
/// from there finds nothing.
pub proof fn lemma_unknown_from<V>(
    table: Seq<(u16, Occurrences)>,
    items: Seq<(u16, V)>,
    slot: Slot,
    from: int,
)
    requires
        0 <= from <= items.len(),
    ensures
        unknown_from(table, items, slot, from) is None <==> forall|i: int|
            from <= i < items.len() ==> has_code(table, (#[trigger] items[i]).0),
    decreases items.len() - from,
{
    if from < items.len() {
        lemma_unknown_from(table, items, slot, from + 1);
        if unknown_from(table, items, slot, from) is None {
            assert forall|i: int| from <= i < items.len() implies has_code(
                table,
                (#[trigger] items[i]).0,
            ) by {
                if i > from {
                }
            }
        }
    }
}

/// No entry from `from` on is out of range exactly when the search from
/// there finds nothing.
pub proof fn lemma_out_of_bounds_from<V: Countable>(
    table: Seq<(u16, Occurrences)>,
    items: Seq<(u16, V)>,
    slot: Slot,
    from: int,
)
    requires
        0 <= from <= table.len(),
    ensures
        out_of_bounds_from(table, items, slot, from) is None <==> forall|i: int|
            from <= i < table.len() ==> (#[trigger] table[i]).1.admits(
                count_of(items, table[i].0),
            ),
    decreases table.len() - from,
{
    if from < table.len() {
        lemma_out_of_bounds_from(table, items, slot, from + 1);
        if out_of_bounds_from(table, items, slot, from) is None {
            assert forall|i: int| from <= i < table.len() implies (#[trigger] table[i]).1.admits(
                count_of(items, table[i].0),
            ) by {
                if i > from {
                }
            }
        }
    }
}

/// The check of items against a table finds nothing exactly when the items
/// conform to the table.
pub proof fn lemma_slots_failure<V: Countable>(
    table: Seq<(u16, Occurrences)>,
    items: Seq<(u16, V)>,
    slot: Slot,
)
    requires
        increasing(table),
    ensures
        slots_failure(table, items, slot) is None <==> slots_conform(table, items),
{
    lemma_unknown_from(table, items, slot, 0);
    lemma_out_of_bounds_from(table, items, slot, 0);
    if slots_failure(table, items, slot) is None {
        assert forall|code: u16| has_code(items, code) implies has_code(table, code) by {
            let i = position(items, code);
            assert(items[i].0 == code);
        }
        assert forall|code: u16| #[trigger] has_code(table, code) implies as_map(
            table,
        )[code].admits(count_of(items, code)) by {
            let i = position(table, code);
            lemma_as_map_entry(table, i);
            assert(table[i].1.admits(count_of(items, table[i].0)));
        }
    }
    if slots_conform(table, items) {
        assert forall|i: int| 0 <= i < items.len() implies has_code(
            table,
            (#[trigger] items[i]).0,
        ) by {
            assert(has_code(items, items[i].0));
        }
        assert forall|i: int| 0 <= i < table.len() implies (#[trigger] table[i]).1.admits(
            count_of(items, table[i].0),
        ) by {
            lemma_as_map_entry(table, i);
            assert(has_code(table, table[i].0));
        }
    }
}

/// No public right from `from` on is unknown exactly when the search from
/// there finds nothing.
pub proof fn lemma_rights_unknown_from(allowed: Seq<u16>, rights: Seq<u16>, from: int)
    requires
        0 <= from <= rights.len(),
    ensures
        rights_unknown_from(allowed, rights, from) is None <==> forall|i: int|
            from <= i < rights.len() ==> allowed.contains(#[trigger] rights[i]),
    decreases rights.len() - from,
{
    if from < rights.len() {
        lemma_rights_unknown_from(allowed, rights, from + 1);
        if rights_unknown_from(allowed, rights, from) is None {
            assert forall|i: int| from <= i < rights.len() implies allowed.contains(
                #[trigger] rights[i],
            ) by {
                if i > from {
                }
            }
        }
    }
}

/// Checks the items of a node against a table of the schema.
pub fn check_slots<V: Countable>(table: &TypeMap<Occurrences>, items: &TypeMap<V>, slot: Slot) -> (r:
    Option<Error>)
    requires
        table.wf(),
        items.wf(),
    ensures
        r == slots_failure(table.entries@, items.entries@, slot),
        r is None <==> slots_conform(table.entries@, items.entries@),
{
    proof {
        lemma_slots_failure(table.entries@, items.entries@, slot);
    }
    let mut i: usize = 0;
    while i < items.entries.len()
        invariant
            table.wf(),
            i <= items.entries@.len(),
            unknown_from(table.entries@, items.entries@, slot, 0) == unknown_from(
                table.entries@,
                items.entries@,
                slot,
                i as int,
            ),
        decreases items.entries@.len() - i,
    {
        let code = items.entries[i].0;
        if !table.contains_key(code) {
            proof {
                lemma_slots_failure(table.entries@, items.entries@, slot);
            }
            return Some(Error::UnknownType { slot, code });
        }
        i = i + 1;
    }
    let mut j: usize = 0;
    while j < table.entries.len()
        invariant
            table.wf(),
            items.wf(),
            j <= table.entries@.len(),
            unknown_from(table.entries@, items.entries@, slot, 0) is None,
            out_of_bounds_from(table.entries@, items.entries@, slot, 0) == out_of_bounds_from(
                table.entries@,
                items.entries@,
                slot,
                j as int,
            ),
        decreases table.entries@.len() - j,
    {
        let code = table.entries[j].0;
        let range = table.entries[j].1;
        let found: usize = match items.get(code) {
            Some(v) => v.count(),
            None => 0,
        };
        assert(found == count_of(items.entries@, code));
        if range.check(found).is_err() {
            proof {
                lemma_slots_failure(table.entries@, items.entries@, slot);
            }
            return Some(
                Error::OccurrenceOutOfBounds {
                    slot,
                    code,
                    actual: found as u64,
                    expected_min: range.min,
                    expected_max: range.max,
                },
            );
        }
        j = j + 1;
    }
    None
}

/// Checks the public rights of a node against those that the schema allows.
pub fn check_rights(allowed: &Vec<u16>, rights: &Vec<u16>) -> (r: Option<Error>)
    ensures
        r == rights_unknown_from(allowed@, rights@, 0),
        r is None <==> rights_conform(allowed@, rights@),
{
    proof {
        lemma_rights_unknown_from(allowed@, rights@, 0);
    }
    let mut i: usize = 0;
    while i < rights.len()
        invariant
            i <= rights@.len(),
            rights_unknown_from(allowed@, rights@, 0) == rights_unknown_from(
                allowed@,
                rights@,
                i as int,
            ),
        decreases rights@.len() - i,
    {
        let code = rights[i];
        let mut found = false;
        let mut k: usize = 0;
        while k < allowed.len()
            invariant
                k <= allowed@.len(),
                found <==> exists|m: int| 0 <= m < k && allowed@[m] == code,
            decreases allowed@.len() - k,
        {
            if allowed[k] == code {
                found = true;
            }
            k = k + 1;
        }
        if !found {
            return Some(Error::UnknownType { slot: Slot::PublicRights, code });
        }
        i = i + 1;
    }
    None
}

/// The first failure of a genesis against the schema of the genesis, if any.
pub open spec fn genesis_failure(schema: GenesisSchemaView, genesis: Genesis) -> Option<Error> {
    or_else(
        slots_failure(schema.metadata, genesis.metadata.entries@, Slot::Metadata),
        or_else(
            slots_failure(schema.owned_rights, genesis.owned_rights.entries@, Slot::OwnedRights),
            rights_unknown_from(schema.public_rights, genesis.public_rights@, 0),
        ),
    )
}

/// The genesis conforms to the schema of the genesis.
pub open spec fn genesis_conforms(schema: GenesisSchemaView, genesis: Genesis) -> bool {
    &&& slots_conform(schema.metadata, genesis.metadata.entries@)
    &&& slots_conform(schema.owned_rights, genesis.owned_rights.entries@)
    &&& rights_conform(schema.public_rights, genesis.public_rights@)
}

/// The first failure of a transition against the schema of its type, if any.
pub open spec fn node_failure(schema: TransitionSchemaView, transition: Transition) -> Option<
    Error,
> {
    or_else(
        slots_failure(schema.metadata, transition.metadata.entries@, Slot::Metadata),
        or_else(
            slots_failure(schema.closes, transition.closes.entries@, Slot::Closes),
            or_else(
                slots_failure(
                    schema.owned_rights,
                    transition.owned_rights.entries@,
                    Slot::OwnedRights,
                ),
                rights_unknown_from(schema.public_rights, transition.public_rights@, 0),
            ),
        ),
    )
}

/// The transition conforms to the schema of its type.
pub open spec fn node_conforms(schema: TransitionSchemaView, transition: Transition) -> bool {
    &&& slots_conform(schema.metadata, transition.metadata.entries@)
    &&& slots_conform(schema.closes, transition.closes.entries@)
    &&& slots_conform(schema.owned_rights, transition.owned_rights.entries@)
    &&& rights_conform(schema.public_rights, transition.public_rights@)
}

/// The first failure of a transition against a schema, if any.
pub open spec fn transition_failure(schema: SchemaView, transition: Transition) -> Option<Error> {
    if !has_code(schema.transitions, transition.transition_type) {
        Some(Error::UnknownType { slot: Slot::Transitions, code: transition.transition_type })
    } else {
        node_failure(as_map(schema.transitions)[transition.transition_type], transition)
    }
}

/// The transition conforms to the schema: the schema declares its type, and
/// the transition conforms to what the schema says of that type.
pub open spec fn transition_conforms(schema: SchemaView, transition: Transition) -> bool {
    &&& has_code(schema.transitions, transition.transition_type)
    &&& node_conforms(as_map(schema.transitions)[transition.transition_type], transition)
}

/// Checks a transition against the schema of its type.
pub fn check_node(schema: &TransitionSchema, transition: &Transition) -> (r: Option<Error>)
    requires
        schema.wf(),
        transition.wf(),
    ensures
        r == node_failure(schema@, *transition),
        r is None <==> node_conforms(schema@, *transition),
{
    let metadata = check_slots(&schema.metadata, &transition.metadata, Slot::Metadata);
    if metadata.is_some() {
        return metadata;
    }
    let closes = check_slots(&schema.closes, &transition.closes, Slot::Closes);
    if closes.is_some() {
        return closes;
    }
    let owned = check_slots(&schema.owned_rights, &transition.owned_rights, Slot::OwnedRights);
    if owned.is_some() {
        return owned;
    }
    check_rights(&schema.public_rights, &transition.public_rights)
}

impl Schema {
    /// Checks a genesis against the schema.
    pub fn validate_genesis(&self, genesis: &Genesis) -> (r: Status)
        requires
            self.wf(),
            genesis.wf(),
        ensures
            r.failure == genesis_failure(self@.genesis, *genesis),
            r.is_valid() <==> genesis_conforms(self@.genesis, *genesis),
    {
        let metadata = check_slots(&self.genesis.metadata, &genesis.metadata, Slot::Metadata);
        if metadata.is_some() {
            return Status { failure: metadata };
        }
        let owned = check_slots(
            &self.genesis.owned_rights,
            &genesis.owned_rights,
            Slot::OwnedRights,
        );
        if owned.is_some() {
            return Status { failure: owned };
        }
        Status { failure: check_rights(&self.genesis.public_rights, &genesis.public_rights) }
    }

    /// Checks a state transition against the schema.
    pub fn validate_transition(&self, transition: &Transition) -> (r: Status)
        requires
            self.wf(),
            transition.wf(),
        ensures
            r.failure == transition_failure(self@, *transition),
            r.is_valid() <==> transition_conforms(self@, *transition),
    {
        let code = transition.transition_type;
        proof {
            self.lemma_transitions_view(code);
        }
        match self.transitions.get(code) {
            None => Status {
                failure: Some(Error::UnknownType { slot: Slot::Transitions, code }),
            },
            Some(schema) => Status { failure: check_node(schema, transition) },
        }
    }

    /// The model holds for a code the view of what the table holds for it.
    pub proof fn lemma_transitions_view(&self, code: u16)
        requires
            self.wf(),
        ensures
            self.transitions.wf(),
            has_code(self@.transitions, code) == self.transitions@.contains_key(code),
            self.transitions@.contains_key(code) ==> as_map(self@.transitions)[code]
                == self.transitions@[code]@ && self.transitions@[code].wf(),
    {
        let entries = self.transitions.entries@;
        lemma_view_entries(entries, code);
        if has_code(entries, code) {
            let i = position(entries, code);
            lemma_as_map_entry(entries, i);
            assert(self@.transitions[i].1.wf());
        }
    }
}

} // verus!
