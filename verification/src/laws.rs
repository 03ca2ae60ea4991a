//! What holds of the checks for every schema and every node.

use crate::amount::{lemma_total_update, total};
use crate::codes::{OwnedRightType, TransitionType};
use crate::contract::{Allocation, Attachment, count_of, Countable, Genesis};
use crate::create::{
    FileAttachment, is_genesis_of_issue,
    AssetTerms, is_genesis_of, issue_failure, issued_metadata, lemma_issued_genesis_conforms,
    metadata_view, OutpointValue,
};
use crate::encoding::{enc_schema, schema_fits};
use crate::request::{law_served_issue_balances, serves_issue};
use crate::error::{Error, Slot};
use crate::occurrences::Occurrences;
use crate::schema::{
    genesis_view, GenesisSchemaView, Schema, schema_view, SchemaId, SchemaView, transfer_view,
    TransitionSchemaView,
};
use crate::subschema::{
    codes_within, genesis_restricts, restricts, table_restricts, transition_restricts,
};
use crate::transfer::{ClosedAllocation, held, shape_failure, transfer_failure};
use crate::trusted::schema_commitment;
use crate::typemap::{as_map, has_code, lemma_as_map_entry};
use crate::validation::{
    genesis_conforms, genesis_failure, lemma_rights_unknown_from, lemma_slots_failure,
    out_of_bounds_from, range_of, slots_conform, slots_failure, unknown_from,
};
use vstd::prelude::*;

verus! {

/// Where the items of a node conform to a table, every type that the node
/// uses or the table declares occurs as often as the table admits; a type
/// that the table does not declare counts as forbidden.
pub proof fn law_conforming_counts_in_range<V: Countable>(
    table: Seq<(u16, Occurrences)>,
    items: Seq<(u16, V)>,
    code: u16,
)
    requires
        slots_conform(table, items),
        has_code(items, code) || has_code(table, code),
    ensures
        has_code(table, code),
        range_of(table, code).admits(count_of(items, code)),
{
}

/// Whether the items break the table at `code`: the node uses the code and
/// the table does not declare it, or the table declares it and its range
/// does not admit the number of items.
pub open spec fn violated_at<V: Countable>(
    table: Seq<(u16, Occurrences)>,
    items: Seq<(u16, V)>,
    code: u16,
) -> bool {
    ||| has_code(items, code) && !has_code(table, code)
    ||| has_code(table, code) && !as_map(table)[code].admits(count_of(items, code))
}

/// Where the items of a node do not conform to a table, some type code is
/// used without being declared or occurs more or less often than declared;
/// and where they conform, none is.
pub proof fn law_failure_has_violation<V: Countable>(
    table: Seq<(u16, Occurrences)>,
    items: Seq<(u16, V)>,
)
    ensures
        !slots_conform(table, items) <==> exists|code: u16| violated_at(table, items, code),
{
    if !slots_conform(table, items) {
        if !(forall|code: u16| has_code(items, code) ==> has_code(table, code)) {
            let code = choose|code: u16| has_code(items, code) && !has_code(table, code);
            assert(violated_at(table, items, code));
        } else {
            let code = choose|code: u16| #[trigger]
                has_code(table, code) && !as_map(table)[code].admits(count_of(items, code));
            assert(violated_at(table, items, code));
        }
    }
    if exists|code: u16| violated_at(table, items, code) {
        let code = choose|code: u16| violated_at(table, items, code);
        assert(violated_at(table, items, code));
    }
}

/// A range that lies within another admits nothing that the other refuses.
pub proof fn law_contained_range_admits_less(inner: Occurrences, outer: Occurrences, count: nat)
    requires
        inner.within(outer),
        inner.admits(count),
    ensures
        outer.admits(count),
{
}

/// Restriction of tables composes: a table that restricts a table which
/// restricts a third restricts the third.
pub proof fn law_table_restriction_composes(
    inner: Seq<(u16, Occurrences)>,
    middle: Seq<(u16, Occurrences)>,
    outer: Seq<(u16, Occurrences)>,
)
    requires
        table_restricts(inner, middle),
        table_restricts(middle, outer),
    ensures
        table_restricts(inner, outer),
{
    assert forall|code: u16| #[trigger] has_code(inner, code) implies has_code(outer, code)
        && as_map(inner)[code].within(as_map(outer)[code]) by {
        assert(has_code(middle, code));
    }
}

/// Restriction of code lists composes.
pub proof fn law_codes_within_composes(inner: Seq<u16>, middle: Seq<u16>, outer: Seq<u16>)
    requires
        codes_within(inner, middle),
        codes_within(middle, outer),
    ensures
        codes_within(inner, outer),
{
    assert forall|i: int| 0 <= i < inner.len() implies outer.contains(#[trigger] inner[i]) by {
        assert(middle.contains(inner[i]));
        let j = choose|j: int| 0 <= j < middle.len() && middle[j] == inner[i];
        assert(outer.contains(middle[j]));
    }
}

/// Restriction of transitions composes.
pub proof fn law_transition_restriction_composes(
    inner: TransitionSchemaView,
    middle: TransitionSchemaView,
    outer: TransitionSchemaView,
)
    requires
        transition_restricts(inner, middle),
        transition_restricts(middle, outer),
    ensures
        transition_restricts(inner, outer),
{
    law_table_restriction_composes(inner.metadata, middle.metadata, outer.metadata);
    law_table_restriction_composes(inner.closes, middle.closes, outer.closes);
    law_table_restriction_composes(inner.owned_rights, middle.owned_rights, outer.owned_rights);
    law_codes_within_composes(inner.public_rights, middle.public_rights, outer.public_rights);
}

/// Restriction of genesis schemata composes.
pub proof fn law_genesis_restriction_composes(
    inner: GenesisSchemaView,
    middle: GenesisSchemaView,
    outer: GenesisSchemaView,
)
    requires
        genesis_restricts(inner, middle),
        genesis_restricts(middle, outer),
    ensures
        genesis_restricts(inner, outer),
{
    law_table_restriction_composes(inner.metadata, middle.metadata, outer.metadata);
    law_table_restriction_composes(inner.owned_rights, middle.owned_rights, outer.owned_rights);
    law_codes_within_composes(inner.public_rights, middle.public_rights, outer.public_rights);
}

/// A schema that is narrowed stays a subschema: where `sub` restricts
/// `root`, every schema that restricts `sub` restricts `root` too. To shrink
/// a range of `sub` or to take a type code out of it gives such a schema,
/// so neither can turn a passing check into a failing one.
pub proof fn law_narrowing_keeps_subschema(narrowed: SchemaView, sub: SchemaView, root: SchemaView)
    requires
        restricts(narrowed, sub),
        restricts(sub, root),
    ensures
        restricts(narrowed, root),
{
    assert forall|code: u16| #[trigger] has_code(narrowed.field_types, code) implies has_code(
        root.field_types,
        code,
    ) && as_map(narrowed.field_types)[code] == as_map(root.field_types)[code] by {
        assert(has_code(sub.field_types, code));
    }
    assert forall|code: u16| #[trigger] has_code(narrowed.owned_right_types, code) implies has_code(
        root.owned_right_types,
        code,
    ) && as_map(narrowed.owned_right_types)[code] == as_map(root.owned_right_types)[code] by {
        assert(has_code(sub.owned_right_types, code));
    }
    law_codes_within_composes(
        narrowed.public_right_types,
        sub.public_right_types,
        root.public_right_types,
    );
    law_genesis_restriction_composes(narrowed.genesis, sub.genesis, root.genesis);
    assert forall|code: u16| #[trigger] has_code(narrowed.transitions, code) implies has_code(
        root.transitions,
        code,
    ) && transition_restricts(as_map(narrowed.transitions)[code], as_map(root.transitions)[code]) by {
        assert(has_code(sub.transitions, code));
        law_transition_restriction_composes(
            as_map(narrowed.transitions)[code],
            as_map(sub.transitions)[code],
            as_map(root.transitions)[code],
        );
    }
}

/// Every schema restricts itself.
pub proof fn law_schema_restricts_itself(schema: SchemaView)
    ensures
        restricts(schema, schema),
{
    assert forall|i: int| 0 <= i < schema.public_right_types.len() implies
        schema.public_right_types.contains(#[trigger] schema.public_right_types[i]) by {}
    assert forall|i: int| 0 <= i < schema.genesis.public_rights.len() implies
        schema.genesis.public_rights.contains(#[trigger] schema.genesis.public_rights[i]) by {}
    assert forall|code: u16| #[trigger] has_code(schema.transitions, code) implies
        transition_restricts(as_map(schema.transitions)[code], as_map(schema.transitions)[code]) by {
        let t = as_map(schema.transitions)[code];
        assert forall|i: int| 0 <= i < t.public_rights.len() implies t.public_rights.contains(
            #[trigger] t.public_rights[i],
        ) by {}
    }
}

/// Whether the table `sub` departs from the table `root` at `code`: it
/// declares a code that `root` lacks, or gives it a range that reaches
/// beyond the one that `root` gives it.
pub open spec fn departs_at(
    sub: Seq<(u16, Occurrences)>,
    root: Seq<(u16, Occurrences)>,
    code: u16,
) -> bool {
    has_code(sub, code) && (!has_code(root, code) || !as_map(sub)[code].within(as_map(root)[code]))
}

/// A table that declares a code unknown to the root, or a range wider than
/// the root's, does not restrict the root's table.
pub proof fn law_departing_table_fails(
    sub: Seq<(u16, Occurrences)>,
    root: Seq<(u16, Occurrences)>,
    code: u16,
)
    requires
        departs_at(sub, root, code),
    ensures
        !table_restricts(sub, root),
{
}

/// Whether some table of the schema `sub` departs from the corresponding
/// table of `root` at `code`, in the genesis or in the transition of type
/// `transition`, or `sub` has a transition of type `transition` that `root`
/// lacks.
pub open spec fn schema_departs_at(
    sub: SchemaView,
    root: SchemaView,
    transition: u16,
    code: u16,
) -> bool {
    ||| departs_at(sub.genesis.metadata, root.genesis.metadata, code)
    ||| departs_at(sub.genesis.owned_rights, root.genesis.owned_rights, code)
    ||| has_code(sub.transitions, transition) && !has_code(root.transitions, transition)
    ||| has_code(sub.transitions, transition) && has_code(root.transitions, transition) && {
        let s = as_map(sub.transitions)[transition];
        let r = as_map(root.transitions)[transition];
        ||| departs_at(s.metadata, r.metadata, code)
        ||| departs_at(s.closes, r.closes, code)
        ||| departs_at(s.owned_rights, r.owned_rights, code)
    }
}

/// To widen a range of a subschema beyond the range of its root, or to add
/// a type code that the root does not declare, always makes the check
/// fail: a schema with such a table does not restrict the root.
pub proof fn law_widening_breaks_subschema(
    sub: SchemaView,
    root: SchemaView,
    transition: u16,
    code: u16,
)
    requires
        schema_departs_at(sub, root, transition, code),
    ensures
        !restricts(sub, root),
{
    if restricts(sub, root) {
        assert(has_code(sub.transitions, transition) ==> has_code(root.transitions, transition));
    }
}

/// Where the schema provides for a transfer of that shape and no sum
/// exceeds 64 bits, the transfer is built exactly when what it closes and
/// what it assigns add up to the same amount, and fails as unbalanced, with
/// the two sums, when they do not.
pub proof fn law_transfer_balance_decides(
    schema: SchemaView,
    transition_type: u16,
    right_type: u16,
    closed: Seq<ClosedAllocation>,
    allocations: Seq<Allocation>,
)
    requires
        has_code(schema.transitions, transition_type),
        range_of(as_map(schema.transitions)[transition_type].closes, right_type).admits(
            closed.len(),
        ),
        total(closed) <= u64::MAX,
        total(allocations) <= u64::MAX,
        shape_failure(
            as_map(schema.transitions)[transition_type],
            right_type,
            closed.len(),
            allocations.len(),
        ) is None,
    ensures
        total(closed) == total(allocations) ==> transfer_failure(
            schema,
            transition_type,
            right_type,
            closed,
            allocations,
        ) is None,
        total(closed) != total(allocations) ==> transfer_failure(
            schema,
            transition_type,
            right_type,
            closed,
            allocations,
        ) == Some(
            Error::UnbalancedTransition {
                right_type,
                total_in: total(closed) as u64,
                total_out: total(allocations) as u64,
            },
        ),
{
}

/// The complete schema provides for every transfer of assets that closes
/// at least one allocation.
pub proof fn lemma_root_transfer_shape(closed: nat, assigned: nat)
    requires
        1 <= closed <= usize::MAX,
        assigned <= usize::MAX,
    ensures
        has_code(schema_view().transitions, TransitionType::Transfer.spec_code()),
        as_map(schema_view().transitions)[TransitionType::Transfer.spec_code()] == transfer_view(),
        range_of(transfer_view().closes, OwnedRightType::Assets.spec_code()).admits(closed),
        shape_failure(transfer_view(), OwnedRightType::Assets.spec_code(), closed, assigned) is None,
{
    let transitions = schema_view().transitions;
    let assets = OwnedRightType::Assets.spec_code();
    assert(transitions[0].0 == TransitionType::Transfer.spec_code());
    lemma_as_map_entry(transitions, 0);
    let node = transfer_view();
    assert(node.closes[0].0 == assets);
    lemma_as_map_entry(node.closes, 0);
    assert(node.owned_rights[0].0 == assets);
    lemma_as_map_entry(node.owned_rights, 0);
    reveal_with_fuel(unknown_from, 3);
    reveal_with_fuel(out_of_bounds_from, 3);
    let none = Seq::<(u16, usize)>::empty();
    assert(slots_failure(node.metadata, none, Slot::Metadata) is None);
    let shut = held(assets, closed);
    assert(shut[0].0 == assets);
    lemma_as_map_entry(shut, 0);
    assert(count_of(shut, assets) == closed);
    assert(slots_failure(node.closes, shut, Slot::Closes) is None);
    let made = held(assets, assigned);
    if assigned > 0 {
        assert(made[0].0 == assets);
        lemma_as_map_entry(made, 0);
        assert(count_of(made, assets) == assigned);
    } else {
        assert(!has_code(made, assets));
    }
    assert(slots_failure(node.owned_rights, made, Slot::OwnedRights) is None);
}

/// Under the complete schema, a transfer of assets that closes at least one
/// allocation and assigns, to beneficiaries and as change, amounts that add
/// up to what it closes is built.
pub proof fn law_balanced_transfer_succeeds(
    closed: Seq<ClosedAllocation>,
    allocations: Seq<Allocation>,
)
    requires
        1 <= closed.len() <= usize::MAX,
        allocations.len() <= usize::MAX,
        total(closed) == total(allocations),
        total(closed) <= u64::MAX,
    ensures
        transfer_failure(
            schema_view(),
            TransitionType::Transfer.spec_code(),
            OwnedRightType::Assets.spec_code(),
            closed,
            allocations,
        ) is None,
{
    lemma_root_transfer_shape(closed.len(), allocations.len());
}

/// Under the complete schema, a balanced transfer of assets in which one
/// assigned amount is then raised or lowered by one, the rest unchanged,
/// fails as unbalanced: it reports the amount closed and the amount that
/// the changed allocations add up to.
pub proof fn law_off_by_one_transfer_fails(
    closed: Seq<ClosedAllocation>,
    allocations: Seq<Allocation>,
    at: int,
    changed: Allocation,
)
    requires
        1 <= closed.len() <= usize::MAX,
        allocations.len() <= usize::MAX,
        total(closed) == total(allocations),
        total(closed) <= u64::MAX,
        0 <= at < allocations.len(),
        changed.state.value == allocations[at].state.value + 1 || changed.state.value
            == allocations[at].state.value - 1,
        total(closed) + changed.state.value - allocations[at].state.value <= u64::MAX,
    ensures
        transfer_failure(
            schema_view(),
            TransitionType::Transfer.spec_code(),
            OwnedRightType::Assets.spec_code(),
            closed,
            allocations.update(at, changed),
        ) == Some(
            Error::UnbalancedTransition {
                right_type: OwnedRightType::Assets.spec_code(),
                total_in: total(closed) as u64,
                total_out: (total(closed) + changed.state.value
                    - allocations[at].state.value) as u64,
            },
        ),
{
    lemma_root_transfer_shape(closed.len(), allocations.len());
    lemma_total_update(allocations, at, changed);
}

/// The genesis of an issue records as supply the sum of the amounts that
/// were asked for, and passes the check against the complete schema.
pub proof fn law_issue_conserves(
    genesis: Genesis,
    schema_id: SchemaId,
    chain: lnpbp::chain::Chain,
    terms: AssetTerms,
    timestamp: i64,
    issued: Seq<OutpointValue>,
    assets: Seq<Allocation>,
    engraving: Option<Attachment>,
)
    requires
        is_genesis_of(genesis, schema_id, chain, terms, timestamp, assets, engraving),
        issue_failure(issued, assets) is None,
    ensures
        total(issued) <= u64::MAX,
        total(genesis.owned_rights.entries@[0].1.amounts()) == total(issued),
        metadata_view(genesis.metadata) == issued_metadata(terms, timestamp, total(issued) as u64),
        genesis_conforms(genesis_view(), genesis),
        genesis_failure(genesis_view(), genesis) is None,
{
    lemma_issued_genesis_conforms(genesis, terms, timestamp, total(assets) as u64);
    lemma_slots_failure(genesis_view().metadata, genesis.metadata.entries@, Slot::Metadata);
    lemma_slots_failure(
        genesis_view().owned_rights,
        genesis.owned_rights.entries@,
        Slot::OwnedRights,
    );
    lemma_rights_unknown_from(genesis_view().public_rights, genesis.public_rights@, 0);
    lemma_amounts_total(assets);
    assert(genesis.owned_rights.entries@[0].1.amounts() == assets.map_values(
        |a: Allocation| a.state.value,
    ));
}

/// Where the allocations of an issue are the ones that were asked for, the
/// genesis records as supply the sum of the amounts asked for, assigns
/// allocations that add up to that sum, and passes the check against the
/// complete schema.
pub proof fn law_served_issue_conserves(
    genesis: Genesis,
    schema_id: SchemaId,
    chain: lnpbp::chain::Chain,
    terms: AssetTerms,
    timestamp: i64,
    files: Seq<FileAttachment>,
    allocations: Seq<OutpointValue>,
    assets: Seq<Allocation>,
    seal_blinding: u64,
)
    requires
        is_genesis_of_issue(
            genesis,
            schema_id,
            chain,
            terms,
            timestamp,
            files,
            allocations,
            assets,
            seal_blinding,
        ),
        serves_issue(assets, allocations),
    ensures
        total(allocations) <= u64::MAX,
        metadata_view(genesis.metadata) == issued_metadata(
            terms,
            timestamp,
            total(allocations) as u64,
        ),
        genesis.owned_rights.entries@[0].1.amounts().len() == allocations.len(),
        total(genesis.owned_rights.entries@[0].1.amounts()) == total(allocations),
        genesis_conforms(genesis_view(), genesis),
        genesis_failure(genesis_view(), genesis) is None,
{
    law_served_issue_balances(assets, allocations);
    let engraving = choose|engraving: Option<Attachment>|
        is_genesis_of(genesis, schema_id, chain, terms, timestamp, assets, engraving);
    assert(issue_failure(allocations, assets) is None);
    law_issue_conserves(genesis, schema_id, chain, terms, timestamp, allocations, assets, engraving);
}

/// The amounts of allocations add up to what the allocations add up to.
pub proof fn lemma_amounts_total(assets: Seq<Allocation>)
    ensures
        total(assets.map_values(|a: Allocation| a.state.value)) == total(assets),
    decreases assets.len(),
{
    let amounts = assets.map_values(|a: Allocation| a.state.value);
    if assets.len() > 0 {
        lemma_amounts_total(assets.drop_last());
        assert(amounts.drop_last() =~= assets.drop_last().map_values(
            |a: Allocation| a.state.value,
        ));
    }
}

/// The identifier of a schema depends on nothing but what the schema
/// holds: two schemata with the same model have the same identifier, or
/// neither has one.
pub proof fn law_schema_id_deterministic(a: Schema, b: Schema)
    requires
        a@ == b@,
    ensures
        schema_fits(a@) == schema_fits(b@),
        schema_commitment(enc_schema(a@)) == schema_commitment(enc_schema(b@)),
{
}

} // verus!
