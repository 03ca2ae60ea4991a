//! Compatibility of a derived schema with the root schema that it names.
//!
//! A subschema restricts its root where it introduces no type code that the
//! root lacks, gives every shared type the same data type or state format,
//! and declares no range of occurrences that reaches beyond the root's. It
//! may leave out what the root declares. The check stops at the first
//! departure, in this order: field types, owned right types, public right
//! types, the genesis, then the transitions in increasing order of type;
//! within a node: metadata, closed allocations, owned rights, public rights.

use crate::error::{Error, Mismatch, NodeKind, Slot, Status};
use crate::occurrences::Occurrences;
use crate::schema::{
    GenesisSchema, GenesisSchemaView, Schema, SchemaView, TransitionSchema, TransitionSchemaView,
};
use crate::typemap::{
    as_map, has_code, increasing, lemma_as_map_entry, lemma_view_entries, position, TypeMap,
    view_entries,
};
use crate::types::{StateSchema, TypeRef};
use crate::validation::or_else;
use vstd::prelude::*;

verus! {

/// A data type or state format that can be compared with another.
pub trait Format: View + Sized {
    /// Whether the two are the same.
    fn same_as(&self, other: &Self) -> (r: bool)
        ensures
            r == (self@ == other@),
    ;
}

impl Format for TypeRef {
    fn same_as(&self, other: &TypeRef) -> (r: bool) {
        self.same(other)
    }
}

impl Format for StateSchema {
    fn same_as(&self, other: &StateSchema) -> (r: bool) {
        self.same(other)
    }
}

/// The first entry of `sub`, from position `from` on, that `root` lacks or
/// that admits more than `root` does.
pub open spec fn table_mismatch_from(
    sub: Seq<(u16, Occurrences)>,
    root: Seq<(u16, Occurrences)>,
    node: NodeKind,
    slot: Slot,
    from: int,
) -> Option<Error>
    decreases sub.len() - from,
{
    if from < 0 || from >= sub.len() {
        None
    } else if !has_code(root, sub[from].0) {
        Some(Error::SchemaMismatch { node, slot, code: sub[from].0, reason: Mismatch::Undeclared })
    } else if !sub[from].1.within(as_map(root)[sub[from].0]) {
        Some(Error::SchemaMismatch { node, slot, code: sub[from].0, reason: Mismatch::Widened })
    } else {
        table_mismatch_from(sub, root, node, slot, from + 1)
    }
}

/// Every code of `sub` is declared by `root`, with a range that holds the
/// range that `sub` gives it.
pub open spec fn table_restricts(sub: Seq<(u16, Occurrences)>, root: Seq<(u16, Occurrences)>) -> bool {
    forall|code: u16| #[trigger]
        has_code(sub, code) ==> has_code(root, code) && as_map(sub)[code].within(
            as_map(root)[code],
        )
}

/// The first code of `sub`, from position `from` on, that `root` lacks.
pub open spec fn codes_mismatch_from(
    sub: Seq<u16>,
    root: Seq<u16>,
    node: NodeKind,
    slot: Slot,
    from: int,
) -> Option<Error>
    decreases sub.len() - from,
{
    if from < 0 || from >= sub.len() {
        None
    } else if !root.contains(sub[from]) {
        Some(Error::SchemaMismatch { node, slot, code: sub[from], reason: Mismatch::Undeclared })
    } else {
        codes_mismatch_from(sub, root, node, slot, from + 1)
    }
}

/// Every code of `sub` is among those of `root`.
pub open spec fn codes_within(sub: Seq<u16>, root: Seq<u16>) -> bool {
    forall|i: int| 0 <= i < sub.len() ==> root.contains(#[trigger] sub[i])
}

/// The first entry of `sub`, from position `from` on, that `root` lacks or
/// defines otherwise.
pub open spec fn formats_mismatch_from<T>(
    sub: Seq<(u16, T)>,
    root: Seq<(u16, T)>,
    slot: Slot,
    from: int,
) -> Option<Error>
    decreases sub.len() - from,
{
    if from < 0 || from >= sub.len() {
        None
    } else if !has_code(root, sub[from].0) {
        Some(
            Error::SchemaMismatch {
                node: NodeKind::Catalogue,
                slot,
                code: sub[from].0,
                reason: Mismatch::Undeclared,
            },
        )
    } else if sub[from].1 != as_map(root)[sub[from].0] {
        Some(
            Error::SchemaMismatch {
                node: NodeKind::Catalogue,
                slot,
                code: sub[from].0,
                reason: Mismatch::Redefined,
            },
        )
    } else {
        formats_mismatch_from(sub, root, slot, from + 1)
    }
}

/// Every code of `sub` is declared by `root` and defined there as in `sub`.
pub open spec fn formats_agree<T>(sub: Seq<(u16, T)>, root: Seq<(u16, T)>) -> bool {
    forall|code: u16| #[trigger]
        has_code(sub, code) ==> has_code(root, code) && as_map(sub)[code] == as_map(root)[code]
}

/// The first departure of the genesis of a subschema from that of its root.
pub open spec fn genesis_mismatch(sub: GenesisSchemaView, root: GenesisSchemaView) -> Option<Error> {
    or_else(
        table_mismatch_from(sub.metadata, root.metadata, NodeKind::Genesis, Slot::Metadata, 0),
        or_else(
            table_mismatch_from(
                sub.owned_rights,
                root.owned_rights,
                NodeKind::Genesis,
                Slot::OwnedRights,
                0,
            ),
            codes_mismatch_from(
                sub.public_rights,
                root.public_rights,
                NodeKind::Genesis,
                Slot::PublicRights,
                0,
            ),
        ),
    )
}

/// The genesis of a subschema restricts that of its root.
pub open spec fn genesis_restricts(sub: GenesisSchemaView, root: GenesisSchemaView) -> bool {
    &&& table_restricts(sub.metadata, root.metadata)
    &&& table_restricts(sub.owned_rights, root.owned_rights)
    &&& codes_within(sub.public_rights, root.public_rights)
}

/// The first departure of a transition of a subschema from the transition
/// of the same type in its root.
pub open spec fn transition_mismatch(
    sub: TransitionSchemaView,
    root: TransitionSchemaView,
    code: u16,
) -> Option<Error> {
    let node = NodeKind::Transition(code);
    or_else(
        table_mismatch_from(sub.metadata, root.metadata, node, Slot::Metadata, 0),
        or_else(
            table_mismatch_from(sub.closes, root.closes, node, Slot::Closes, 0),
            or_else(
                table_mismatch_from(sub.owned_rights, root.owned_rights, node, Slot::OwnedRights, 0),
                codes_mismatch_from(
                    sub.public_rights,
                    root.public_rights,
                    node,
                    Slot::PublicRights,
                    0,
                ),
            ),
        ),
    )
}

/// A transition of a subschema restricts the transition of the same type
/// in its root.
pub open spec fn transition_restricts(sub: TransitionSchemaView, root: TransitionSchemaView) -> bool {
    &&& table_restricts(sub.metadata, root.metadata)
    &&& table_restricts(sub.closes, root.closes)
    &&& table_restricts(sub.owned_rights, root.owned_rights)
    &&& codes_within(sub.public_rights, root.public_rights)
}

/// The first departure among the transitions of a subschema, from position
/// `from` on.
pub open spec fn transitions_mismatch_from(
    sub: Seq<(u16, TransitionSchemaView)>,
    root: Seq<(u16, TransitionSchemaView)>,
    from: int,
) -> Option<Error>
    decreases sub.len() - from,
{
    if from < 0 || from >= sub.len() {
        None
    } else if !has_code(root, sub[from].0) {
        Some(
            Error::SchemaMismatch {
                node: NodeKind::Catalogue,
                slot: Slot::Transitions,
                code: sub[from].0,
                reason: Mismatch::Undeclared,
            },
        )
    } else {
        or_else(
            transition_mismatch(sub[from].1, as_map(root)[sub[from].0], sub[from].0),
            transitions_mismatch_from(sub, root, from + 1),
        )
    }
}

/// Every transition of the subschema is declared by the root and restricts
/// the root's transition of the same type.
pub open spec fn transitions_restrict(
    sub: Seq<(u16, TransitionSchemaView)>,
    root: Seq<(u16, TransitionSchemaView)>,
) -> bool {
    forall|code: u16| #[trigger]
        has_code(sub, code) ==> has_code(root, code) && transition_restricts(
            as_map(sub)[code],
            as_map(root)[code],
        )
}

/// The first departure of a subschema from its root, if any.
pub open spec fn schema_mismatch(sub: SchemaView, root: SchemaView) -> Option<Error> {
    or_else(
        formats_mismatch_from(sub.field_types, root.field_types, Slot::FieldTypes, 0),
        or_else(
            formats_mismatch_from(
                sub.owned_right_types,
                root.owned_right_types,
                Slot::OwnedRightTypes,
                0,
            ),
            or_else(
                codes_mismatch_from(
                    sub.public_right_types,
                    root.public_right_types,
                    NodeKind::Catalogue,
                    Slot::PublicRightTypes,
                    0,
                ),
                or_else(
                    genesis_mismatch(sub.genesis, root.genesis),
                    transitions_mismatch_from(sub.transitions, root.transitions, 0),
                ),
            ),
        ),
    )
}

/// The subschema restricts the root: it introduces no type code, redefines
/// no type, and widens no range of occurrences.
pub open spec fn restricts(sub: SchemaView, root: SchemaView) -> bool {
    &&& formats_agree(sub.field_types, root.field_types)
    &&& formats_agree(sub.owned_right_types, root.owned_right_types)
    &&& codes_within(sub.public_right_types, root.public_right_types)
    &&& genesis_restricts(sub.genesis, root.genesis)
    &&& transitions_restrict(sub.transitions, root.transitions)
}

/// The search through a table finds nothing exactly when the table
/// restricts the root's.
pub proof fn lemma_table_mismatch(
    sub: Seq<(u16, Occurrences)>,
    root: Seq<(u16, Occurrences)>,
    node: NodeKind,
    slot: Slot,
    from: int,
)
    requires
        0 <= from <= sub.len(),
        increasing(sub),
    ensures
        table_mismatch_from(sub, root, node, slot, from) is None <==> forall|i: int|
            from <= i < sub.len() ==> has_code(root, (#[trigger] sub[i]).0) && sub[i].1.within(
                as_map(root)[sub[i].0],
            ),
        from == 0 ==> (table_mismatch_from(sub, root, node, slot, from) is None <==> table_restricts(
            sub,
            root,
        )),
    decreases sub.len() - from,
{
    if from < sub.len() {
        lemma_table_mismatch(sub, root, node, slot, from + 1);
        if table_mismatch_from(sub, root, node, slot, from) is None {
            assert forall|i: int| from <= i < sub.len() implies has_code(
                root,
                (#[trigger] sub[i]).0,
            ) && sub[i].1.within(as_map(root)[sub[i].0]) by {
                if i > from {
                }
            }
        }
    }
    if from == 0 {
        if table_mismatch_from(sub, root, node, slot, from) is None {
            assert forall|code: u16| #[trigger] has_code(sub, code) implies has_code(root, code)
                && as_map(sub)[code].within(as_map(root)[code]) by {
                let i = position(sub, code);
                lemma_as_map_entry(sub, i);
                assert(has_code(root, sub[i].0));
            }
        }
        if table_restricts(sub, root) {
            assert forall|i: int| 0 <= i < sub.len() implies has_code(root, (#[trigger] sub[i]).0)
                && sub[i].1.within(as_map(root)[sub[i].0]) by {
                lemma_as_map_entry(sub, i);
                assert(has_code(sub, sub[i].0));
            }
        }
    }
}

/// The search through a list of codes finds nothing exactly when every
/// code is among the root's.
pub proof fn lemma_codes_mismatch(
    sub: Seq<u16>,
    root: Seq<u16>,
    node: NodeKind,
    slot: Slot,
    from: int,
)
    requires
        0 <= from <= sub.len(),
    ensures
        codes_mismatch_from(sub, root, node, slot, from) is None <==> forall|i: int|
            from <= i < sub.len() ==> root.contains(#[trigger] sub[i]),
    decreases sub.len() - from,
{
    if from < sub.len() {
        lemma_codes_mismatch(sub, root, node, slot, from + 1);
        if codes_mismatch_from(sub, root, node, slot, from) is None {
            assert forall|i: int| from <= i < sub.len() implies root.contains(#[trigger] sub[i]) by {
                if i > from {
                }
            }
        }
    }
}

/// The search through a catalogue of formats finds nothing exactly when
/// the catalogue agrees with the root's.
pub proof fn lemma_formats_mismatch<T>(sub: Seq<(u16, T)>, root: Seq<(u16, T)>, slot: Slot, from: int)
    requires
        0 <= from <= sub.len(),
        increasing(sub),
    ensures
        formats_mismatch_from(sub, root, slot, from) is None <==> forall|i: int|
            from <= i < sub.len() ==> has_code(root, (#[trigger] sub[i]).0) && sub[i].1 == as_map(
                root,
            )[sub[i].0],
        from == 0 ==> (formats_mismatch_from(sub, root, slot, from) is None <==> formats_agree(
            sub,
            root,
        )),
    decreases sub.len() - from,
{
    if from < sub.len() {
        lemma_formats_mismatch(sub, root, slot, from + 1);
        if formats_mismatch_from(sub, root, slot, from) is None {
            assert forall|i: int| from <= i < sub.len() implies has_code(
                root,
                (#[trigger] sub[i]).0,
            ) && sub[i].1 == as_map(root)[sub[i].0] by {
                if i > from {
                }
            }
        }
    }
    if from == 0 {
        if formats_mismatch_from(sub, root, slot, from) is None {
            assert forall|code: u16| #[trigger] has_code(sub, code) implies has_code(root, code)
                && as_map(sub)[code] == as_map(root)[code] by {
                let i = position(sub, code);
                lemma_as_map_entry(sub, i);
                assert(has_code(root, sub[i].0));
            }
        }
        if formats_agree(sub, root) {
            assert forall|i: int| 0 <= i < sub.len() implies has_code(root, (#[trigger] sub[i]).0)
                && sub[i].1 == as_map(root)[sub[i].0] by {
                lemma_as_map_entry(sub, i);
                assert(has_code(sub, sub[i].0));
            }
        }
    }
}

/// The search through the transitions finds nothing exactly when the
/// transitions restrict the root's.
pub proof fn lemma_transitions_mismatch(
    sub: Seq<(u16, TransitionSchemaView)>,
    root: Seq<(u16, TransitionSchemaView)>,
    from: int,
)
    requires
        0 <= from <= sub.len(),
        increasing(sub),
        forall|i: int| 0 <= i < sub.len() ==> (#[trigger] sub[i]).1.wf(),
    ensures
        transitions_mismatch_from(sub, root, from) is None <==> forall|i: int|
            from <= i < sub.len() ==> has_code(root, (#[trigger] sub[i]).0) && transition_restricts(
                sub[i].1,
                as_map(root)[sub[i].0],
            ),
        from == 0 ==> (transitions_mismatch_from(sub, root, from) is None <==> transitions_restrict(
            sub,
            root,
        )),
    decreases sub.len() - from,
{
    if from < sub.len() {
        lemma_transitions_mismatch(sub, root, from + 1);
        if has_code(root, sub[from].0) {
            lemma_transition_mismatch(sub[from].1, as_map(root)[sub[from].0], sub[from].0);
        }
        if transitions_mismatch_from(sub, root, from) is None {
            assert forall|i: int| from <= i < sub.len() implies has_code(
                root,
                (#[trigger] sub[i]).0,
            ) && transition_restricts(sub[i].1, as_map(root)[sub[i].0]) by {
                if i > from {
                }
            }
        }
    }
    if from == 0 {
        if transitions_mismatch_from(sub, root, from) is None {
            assert forall|code: u16| #[trigger] has_code(sub, code) implies has_code(root, code)
                && transition_restricts(as_map(sub)[code], as_map(root)[code]) by {
                let i = position(sub, code);
                lemma_as_map_entry(sub, i);
                assert(has_code(root, sub[i].0));
            }
        }
        if transitions_restrict(sub, root) {
            assert forall|i: int| 0 <= i < sub.len() implies has_code(root, (#[trigger] sub[i]).0)
                && transition_restricts(sub[i].1, as_map(root)[sub[i].0]) by {
                lemma_as_map_entry(sub, i);
                assert(has_code(sub, sub[i].0));
            }
        }
    }
}

/// The check of a transition finds nothing exactly when the transition
/// restricts the root's.
pub proof fn lemma_transition_mismatch(
    sub: TransitionSchemaView,
    root: TransitionSchemaView,
    code: u16,
)
    requires
        sub.wf(),
    ensures
        transition_mismatch(sub, root, code) is None <==> transition_restricts(sub, root),
{
    let node = NodeKind::Transition(code);
    lemma_table_mismatch(sub.metadata, root.metadata, node, Slot::Metadata, 0);
    lemma_table_mismatch(sub.closes, root.closes, node, Slot::Closes, 0);
    lemma_table_mismatch(sub.owned_rights, root.owned_rights, node, Slot::OwnedRights, 0);
    lemma_codes_mismatch(sub.public_rights, root.public_rights, node, Slot::PublicRights, 0);
}

/// The check of a genesis finds nothing exactly when the genesis restricts
/// the root's.
pub proof fn lemma_genesis_mismatch(sub: GenesisSchemaView, root: GenesisSchemaView)
    requires
        sub.wf(),
    ensures
        genesis_mismatch(sub, root) is None <==> genesis_restricts(sub, root),
{
    lemma_table_mismatch(sub.metadata, root.metadata, NodeKind::Genesis, Slot::Metadata, 0);
    lemma_table_mismatch(sub.owned_rights, root.owned_rights, NodeKind::Genesis, Slot::OwnedRights, 0);
    lemma_codes_mismatch(
        sub.public_rights,
        root.public_rights,
        NodeKind::Genesis,
        Slot::PublicRights,
        0,
    );
}

/// The check of a subschema finds nothing exactly when the subschema
/// restricts the root.
pub proof fn lemma_schema_mismatch(sub: SchemaView, root: SchemaView)
    requires
        sub.wf(),
    ensures
        schema_mismatch(sub, root) is None <==> restricts(sub, root),
{
    lemma_formats_mismatch(sub.field_types, root.field_types, Slot::FieldTypes, 0);
    lemma_formats_mismatch(sub.owned_right_types, root.owned_right_types, Slot::OwnedRightTypes, 0);
    lemma_codes_mismatch(
        sub.public_right_types,
        root.public_right_types,
        NodeKind::Catalogue,
        Slot::PublicRightTypes,
        0,
    );
    lemma_genesis_mismatch(sub.genesis, root.genesis);
    lemma_transitions_mismatch(sub.transitions, root.transitions, 0);
}

/// Checks a table of a subschema against the table of its root.
pub fn check_table(
    sub: &TypeMap<Occurrences>,
    root: &TypeMap<Occurrences>,
    node: NodeKind,
    slot: Slot,
) -> (r: Option<Error>)
    requires
        sub.wf(),
        root.wf(),
    ensures
        r == table_mismatch_from(sub.entries@, root.entries@, node, slot, 0),
{
    let mut i: usize = 0;
    while i < sub.entries.len()
        invariant
            root.wf(),
            i <= sub.entries@.len(),
            table_mismatch_from(sub.entries@, root.entries@, node, slot, 0) == table_mismatch_from(
                sub.entries@,
                root.entries@,
                node,
                slot,
                i as int,
            ),
        decreases sub.entries@.len() - i,
    {
        let code = sub.entries[i].0;
        match root.get(code) {
            None => {
                return Some(
                    Error::SchemaMismatch { node, slot, code, reason: Mismatch::Undeclared },
                );
            },
            Some(range) => {
                if !sub.entries[i].1.is_within(range) {
                    return Some(
                        Error::SchemaMismatch { node, slot, code, reason: Mismatch::Widened },
                    );
                }
            },
        }
        i = i + 1;
    }
    None
}

/// Checks a list of codes of a subschema against the list of its root.
pub fn check_codes(sub: &Vec<u16>, root: &Vec<u16>, node: NodeKind, slot: Slot) -> (r: Option<Error>)
    ensures
        r == codes_mismatch_from(sub@, root@, node, slot, 0),
{
    let mut i: usize = 0;
    while i < sub.len()
        invariant
            i <= sub@.len(),
            codes_mismatch_from(sub@, root@, node, slot, 0) == codes_mismatch_from(
                sub@,
                root@,
                node,
                slot,
                i as int,
            ),
        decreases sub@.len() - i,
    {
        let code = sub[i];
        let mut found = false;
        let mut k: usize = 0;
        while k < root.len()
            invariant
                k <= root@.len(),
                found <==> exists|m: int| 0 <= m < k && root@[m] == code,
            decreases root@.len() - k,
        {
            if root[k] == code {
                found = true;
            }
            k = k + 1;
        }
        if !found {
            return Some(Error::SchemaMismatch { node, slot, code, reason: Mismatch::Undeclared });
        }
        i = i + 1;
    }
    None
}

/// Checks a catalogue of formats of a subschema against that of its root.
pub fn check_formats<T: Format>(sub: &TypeMap<T>, root: &TypeMap<T>, slot: Slot) -> (r: Option<Error>)
    requires
        sub.wf(),
        root.wf(),
    ensures
        r == formats_mismatch_from(view_entries(sub.entries@), view_entries(root.entries@), slot, 0),
{
    let ghost subv = view_entries(sub.entries@);
    let ghost rootv = view_entries(root.entries@);
    let mut i: usize = 0;
    while i < sub.entries.len()
        invariant
            root.wf(),
            subv == view_entries(sub.entries@),
            rootv == view_entries(root.entries@),
            i <= sub.entries@.len(),
            formats_mismatch_from(subv, rootv, slot, 0) == formats_mismatch_from(
                subv,
                rootv,
                slot,
                i as int,
            ),
        decreases sub.entries@.len() - i,
    {
        let code = sub.entries[i].0;
        proof {
            lemma_view_entries(root.entries@, code);
            assert(subv[i as int] == (code, sub.entries@[i as int].1@));
        }
        match root.get(code) {
            None => {
                return Some(
                    Error::SchemaMismatch {
                        node: NodeKind::Catalogue,
                        slot,
                        code,
                        reason: Mismatch::Undeclared,
                    },
                );
            },
            Some(format) => {
                if !sub.entries[i].1.same_as(format) {
                    return Some(
                        Error::SchemaMismatch {
                            node: NodeKind::Catalogue,
                            slot,
                            code,
                            reason: Mismatch::Redefined,
                        },
                    );
                }
            },
        }
        i = i + 1;
    }
    None
}

impl GenesisSchema {
    /// Checks the genesis of a subschema against that of its root.
    pub fn schema_verify(&self, root: &GenesisSchema) -> (r: Status)
        requires
            self.wf(),
            root.wf(),
        ensures
            r.failure == genesis_mismatch(self@, root@),
            r.is_valid() <==> genesis_restricts(self@, root@),
    {
        proof {
            lemma_genesis_mismatch(self@, root@);
        }
        let metadata = check_table(
            &self.metadata,
            &root.metadata,
            NodeKind::Genesis,
            Slot::Metadata,
        );
        if metadata.is_some() {
            return Status { failure: metadata };
        }
        let owned = check_table(
            &self.owned_rights,
            &root.owned_rights,
            NodeKind::Genesis,
            Slot::OwnedRights,
        );
        if owned.is_some() {
            return Status { failure: owned };
        }
        Status {
            failure: check_codes(
                &self.public_rights,
                &root.public_rights,
                NodeKind::Genesis,
                Slot::PublicRights,
            ),
        }
    }
}

impl TransitionSchema {
    /// Checks a transition of a subschema against the transition of type
    /// `code` of its root.
    pub fn schema_verify(&self, root: &TransitionSchema, code: u16) -> (r: Status)
        requires
            self.wf(),
            root.wf(),
        ensures
            r.failure == transition_mismatch(self@, root@, code),
            r.is_valid() <==> transition_restricts(self@, root@),
    {
        proof {
            lemma_transition_mismatch(self@, root@, code);
        }
        let node = NodeKind::Transition(code);
        let metadata = check_table(&self.metadata, &root.metadata, node, Slot::Metadata);
        if metadata.is_some() {
            return Status { failure: metadata };
        }
        let closes = check_table(&self.closes, &root.closes, node, Slot::Closes);
        if closes.is_some() {
            return Status { failure: closes };
        }
        let owned = check_table(&self.owned_rights, &root.owned_rights, node, Slot::OwnedRights);
        if owned.is_some() {
            return Status { failure: owned };
        }
        Status {
            failure: check_codes(&self.public_rights, &root.public_rights, node, Slot::PublicRights),
        }
    }
}

impl Schema {
    /// Checks the transitions of a subschema against those of its root.
    fn verify_transitions(&self, root: &Schema) -> (r: Option<Error>)
        requires
            self.wf(),
            root.wf(),
        ensures
            r == transitions_mismatch_from(self@.transitions, root@.transitions, 0),
    {
        let ghost subv = self@.transitions;
        let ghost rootv = root@.transitions;
        proof {
            root.lemma_transitions_view(0);
        }
        let mut i: usize = 0;
        while i < self.transitions.entries.len()
            invariant
                self.wf(),
                root.wf(),
                root.transitions.wf(),
                subv == self@.transitions,
                rootv == root@.transitions,
                i <= self.transitions.entries@.len(),
                transitions_mismatch_from(subv, rootv, 0) == transitions_mismatch_from(
                    subv,
                    rootv,
                    i as int,
                ),
            decreases self.transitions.entries@.len() - i,
        {
            let code = self.transitions.entries[i].0;
            proof {
                root.lemma_transitions_view(code);
                assert(subv[i as int] == (code, self.transitions.entries@[i as int].1@));
                assert(subv[i as int].1.wf());
            }
            match root.transitions.get(code) {
                None => {
                    return Some(
                        Error::SchemaMismatch {
                            node: NodeKind::Catalogue,
                            slot: Slot::Transitions,
                            code,
                            reason: Mismatch::Undeclared,
                        },
                    );
                },
                Some(root_transition) => {
                    let status = self.transitions.entries[i].1.schema_verify(root_transition, code);
                    if status.failure.is_some() {
                        return status.failure;
                    }
                },
            }
            i = i + 1;
        }
        None
    }

    /// Checks that the schema restricts `root`: that no node which conforms
    /// to it uses what `root` does not provide for.
    pub fn schema_verify(&self, root: &Schema) -> (r: Status)
        requires
            self.wf(),
            root.wf(),
        ensures
            r.failure == schema_mismatch(self@, root@),
            r.is_valid() <==> restricts(self@, root@),
    {
        proof {
            lemma_schema_mismatch(self@, root@);
            lemma_view_entries(self.field_types.entries@, 0);
            lemma_view_entries(root.field_types.entries@, 0);
            lemma_view_entries(self.owned_right_types.entries@, 0);
            lemma_view_entries(root.owned_right_types.entries@, 0);
        }
        let fields = check_formats(&self.field_types, &root.field_types, Slot::FieldTypes);
        if fields.is_some() {
            return Status { failure: fields };
        }
        let rights = check_formats(
            &self.owned_right_types,
            &root.owned_right_types,
            Slot::OwnedRightTypes,
        );
        if rights.is_some() {
            return Status { failure: rights };
        }
        let public = check_codes(
            &self.public_right_types,
            &root.public_right_types,
            NodeKind::Catalogue,
            Slot::PublicRightTypes,
        );
        if public.is_some() {
            return Status { failure: public };
        }
        let genesis = self.genesis.schema_verify(&root.genesis);
        if genesis.failure.is_some() {
            return genesis;
        }
        Status { failure: self.verify_transitions(root) }
    }
}

} // verus!
