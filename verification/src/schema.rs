//! RGB-121 schemata: the declarative description of what the genesis and the
//! state transitions of a collectible asset may hold.

use crate::codes::{FieldType, OwnedRightType, TransitionType};
use crate::encoding::{enc_schema, lemma_root_schema_fits};
use crate::occurrences::Occurrences;
use crate::trusted::schema_commitment;
use crate::typemap::{has_code, increasing, lemma_view_entries, TypeMap, view_entries};
use crate::types::{
    DiscreteFiniteFieldFormat, PrimitiveType, StateSchema, StateSchemaView, StructField,
    StructFieldView, StructType, StructTypeView, TypeRef, TypeRefView, TypeSystem,
};
use vstd::prelude::*;

verus! {

/// Schema identifier of the full RGB-121 schema.
pub const SCHEMA_ID_BECH32: &'static str =
    "rgbsh1ykclt9qxkskqt88dwgccsp4w624k7adjwj06sknjkh04ygtc7rqsnykld7";

/// Schema identifier of the RGB-121 subschema that prohibits engraving.
pub const SUBSCHEMA_ID_BECH32: &'static str =
    "rgbsh1ep4k4qvghntwptcn0gqmfpdvr8vz3amslvy4pc7s32u7h500l5hqxlzjsk";

/// Commitment-based identifier of a schema.
#[derive(Clone, Copy, Debug, PartialEq, Eq)]
pub struct SchemaId {
    pub bytes: [u8; 32],
}

impl View for SchemaId {
    type V = Seq<u8>;

    open spec fn view(&self) -> Seq<u8> {
        self.bytes@
    }
}

/// The code that validates state: the rules built into the library.
#[derive(Clone, Copy, Debug, PartialEq, Eq, Structural)]
pub enum ValidationScript {
    Embedded,
}

/// Whether subschemata may replace the validation code.
#[derive(Clone, Copy, Debug, PartialEq, Eq, Structural)]
pub enum OverrideRules {
    /// Denies overwrites.
    Deny,
    /// Allows overwrite only if the same virtual machine is used.
    AllowSameVm,
    /// Allows overwrite of both the code and the type of virtual machine.
    AllowAnyVm,
}

/// Whether a sequence of codes strictly increases.
pub open spec fn codes_increasing(s: Seq<u16>) -> bool {
    forall|i: int, j: int| 0 <= i < j < s.len() ==> s[i] < s[j]
}

/// Whether the codes strictly increase.
pub fn codes_increase(codes: &Vec<u16>) -> (r: bool)
    ensures
        r == codes_increasing(codes@),
{
    let mut i: usize = 1;
    while i < codes.len()
        invariant
            1 <= i,
            forall|a: int, b: int| 0 <= a < b < i && b < codes@.len() ==> codes@[a] < codes@[b],
        decreases codes@.len() - i,
    {
        if codes[i - 1] >= codes[i] {
            return false;
        }
        assert forall|a: int, b: int| 0 <= a < b < i + 1 && b < codes@.len() implies codes@[a]
            < codes@[b] by {
            if b == i {
                if a < i - 1 {
                    assert(codes@[a] < codes@[i - 1]);
                }
            }
        }
        i = i + 1;
    }
    true
}

/// What a genesis may hold.
#[derive(Clone, Debug, PartialEq, Eq)]
pub struct GenesisSchema {
    pub metadata: TypeMap<Occurrences>,
    pub owned_rights: TypeMap<Occurrences>,
    pub public_rights: Vec<u16>,
}

/// The model of a [`GenesisSchema`]: its tables as sequences of entries in
/// increasing order of code.
pub struct GenesisSchemaView {
    pub metadata: Seq<(u16, Occurrences)>,
    pub owned_rights: Seq<(u16, Occurrences)>,
    pub public_rights: Seq<u16>,
}

impl View for GenesisSchema {
    type V = GenesisSchemaView;

    open spec fn view(&self) -> GenesisSchemaView {
        GenesisSchemaView {
            metadata: self.metadata.entries@,
            owned_rights: self.owned_rights.entries@,
            public_rights: self.public_rights@,
        }
    }
}

impl GenesisSchemaView {
    /// The tables are in increasing order of code.
    pub open spec fn wf(self) -> bool {
        &&& increasing(self.metadata)
        &&& increasing(self.owned_rights)
        &&& codes_increasing(self.public_rights)
    }
}

/// What a state transition of one type may hold, and how many prior
/// allocations of each right type it closes.
#[derive(Clone, Debug, PartialEq, Eq)]
pub struct TransitionSchema {
    pub metadata: TypeMap<Occurrences>,
    pub closes: TypeMap<Occurrences>,
    pub owned_rights: TypeMap<Occurrences>,
    pub public_rights: Vec<u16>,
}

/// The model of a [`TransitionSchema`].
pub struct TransitionSchemaView {
    pub metadata: Seq<(u16, Occurrences)>,
    pub closes: Seq<(u16, Occurrences)>,
    pub owned_rights: Seq<(u16, Occurrences)>,
    pub public_rights: Seq<u16>,
}

impl View for TransitionSchema {
    type V = TransitionSchemaView;

    open spec fn view(&self) -> TransitionSchemaView {
        TransitionSchemaView {
            metadata: self.metadata.entries@,
            closes: self.closes.entries@,
            owned_rights: self.owned_rights.entries@,
            public_rights: self.public_rights@,
        }
    }
}

impl TransitionSchemaView {
    /// The tables are in increasing order of code.
    pub open spec fn wf(self) -> bool {
        &&& increasing(self.metadata)
        &&& increasing(self.closes)
        &&& increasing(self.owned_rights)
        &&& codes_increasing(self.public_rights)
    }
}

/// A schema: the types that a contract may use, and what its genesis and
/// each type of state transition may hold.
#[derive(Clone, Debug, PartialEq, Eq)]
pub struct Schema {
    /// Identifier of the schema that this one restricts, if any.
    pub root_id: Option<SchemaId>,
    pub type_system: TypeSystem,
    pub field_types: TypeMap<TypeRef>,
    pub owned_right_types: TypeMap<StateSchema>,
    pub public_right_types: Vec<u16>,
    pub genesis: GenesisSchema,
    pub transitions: TypeMap<TransitionSchema>,
    pub script: ValidationScript,
    pub override_rules: OverrideRules,
}

/// The model of a [`Schema`].
pub struct SchemaView {
    pub root_id: Option<Seq<u8>>,
    pub type_system: Seq<StructTypeView>,
    pub field_types: Seq<(u16, TypeRefView)>,
    pub owned_right_types: Seq<(u16, StateSchemaView)>,
    pub public_right_types: Seq<u16>,
    pub genesis: GenesisSchemaView,
    pub transitions: Seq<(u16, TransitionSchemaView)>,
    pub script: ValidationScript,
    pub override_rules: OverrideRules,
}

impl View for Schema {
    type V = SchemaView;

    open spec fn view(&self) -> SchemaView {
        SchemaView {
            root_id: match self.root_id {
                Some(id) => Some(id@),
                None => None,
            },
            type_system: self.type_system@,
            field_types: view_entries(self.field_types.entries@),
            owned_right_types: view_entries(self.owned_right_types.entries@),
            public_right_types: self.public_right_types@,
            genesis: self.genesis@,
            transitions: view_entries(self.transitions.entries@),
            script: self.script,
            override_rules: self.override_rules,
        }
    }
}

impl SchemaView {
    /// Every table of the schema is in increasing order of code.
    pub open spec fn wf(self) -> bool {
        &&& increasing(self.field_types)
        &&& increasing(self.owned_right_types)
        &&& codes_increasing(self.public_right_types)
        &&& self.genesis.wf()
        &&& increasing(self.transitions)
        &&& forall|i: int| 0 <= i < self.transitions.len() ==> (#[trigger] self.transitions[i]).1.wf()
    }
}

/// Whether a node uses nothing but what the catalogue of the schema
/// declares, with ranges of occurrences that are not empty.
pub open spec fn node_consistent(
    schema: SchemaView,
    metadata: Seq<(u16, Occurrences)>,
    closes: Seq<(u16, Occurrences)>,
    owned_rights: Seq<(u16, Occurrences)>,
    public_rights: Seq<u16>,
) -> bool {
    &&& forall|i: int|
        0 <= i < metadata.len() ==> has_code(schema.field_types, (#[trigger] metadata[i]).0)
            && metadata[i].1.wf()
    &&& forall|i: int|
        0 <= i < closes.len() ==> has_code(schema.owned_right_types, (#[trigger] closes[i]).0)
            && closes[i].1.wf()
    &&& forall|i: int|
        0 <= i < owned_rights.len() ==> has_code(
            schema.owned_right_types,
            (#[trigger] owned_rights[i]).0,
        ) && owned_rights[i].1.wf()
    &&& forall|i: int|
        0 <= i < public_rights.len() ==> schema.public_right_types.contains(
            #[trigger] public_rights[i],
        )
}

impl SchemaView {
    /// Every type code that the genesis or a transition refers to is
    /// declared by the catalogue of the schema, and no range of occurrences
    /// is empty.
    pub open spec fn consistent(self) -> bool {
        &&& node_consistent(
            self,
            self.genesis.metadata,
            Seq::empty(),
            self.genesis.owned_rights,
            self.genesis.public_rights,
        )
        &&& forall|i: int|
            0 <= i < self.transitions.len() ==> node_consistent(
                self,
                (#[trigger] self.transitions[i]).1.metadata,
                self.transitions[i].1.closes,
                self.transitions[i].1.owned_rights,
                self.transitions[i].1.public_rights,
            )
    }
}

/// The nodes of the RGB-121 schemata use nothing but what a catalogue with
/// the field types and the owned right types of RGB-121 declares.
pub proof fn lemma_nodes_consistent(schema: SchemaView)
    requires
        schema.field_types == field_types_view(),
        schema.owned_right_types == owned_right_types_view(),
    ensures
        node_consistent(
            schema,
            genesis_view().metadata,
            Seq::empty(),
            genesis_view().owned_rights,
            genesis_view().public_rights,
        ),
        node_consistent(
            schema,
            transfer_view().metadata,
            transfer_view().closes,
            transfer_view().owned_rights,
            transfer_view().public_rights,
        ),
        node_consistent(
            schema,
            engraving_view().metadata,
            engraving_view().closes,
            engraving_view().owned_rights,
            engraving_view().public_rights,
        ),
        node_consistent(
            schema,
            issue_view().metadata,
            issue_view().closes,
            issue_view().owned_rights,
            issue_view().public_rights,
        ),
{
    let fields = field_types_view();
    let rights = owned_right_types_view();
    assert forall|k: int| 0 <= k < fields.len() implies has_code(fields, (#[trigger] fields[k]).0) by {}
    assert forall|k: int| 0 <= k < rights.len() implies has_code(rights, (#[trigger] rights[k]).0) by {}
    assert(has_code(fields, fields[0].0) && has_code(fields, fields[1].0) && has_code(
        fields,
        fields[2].0,
    ) && has_code(fields, fields[3].0) && has_code(fields, fields[4].0) && has_code(
        fields,
        fields[5].0,
    ) && has_code(fields, fields[6].0) && has_code(fields, fields[7].0) && has_code(
        fields,
        fields[8].0,
    ));
    assert(has_code(rights, rights[0].0) && has_code(rights, rights[1].0));
}

impl GenesisSchema {
    /// The tables are in increasing order of code.
    pub open spec fn wf(&self) -> bool {
        self@.wf()
    }
}

impl TransitionSchema {
    /// The tables are in increasing order of code.
    pub open spec fn wf(&self) -> bool {
        self@.wf()
    }
}

impl Schema {
    /// Every table of the schema is in increasing order of code.
    pub open spec fn wf(&self) -> bool {
        self@.wf()
    }
}

/// The name of the structure that holds a transaction output.
pub open spec fn name_outpoint() -> Seq<u8> {
    seq![0x4fu8, 0x75u8, 0x74u8, 0x50u8, 0x6fu8, 0x69u8, 0x6eu8, 0x74u8]
}

/// The name of the structure that holds a transaction identifier.
pub open spec fn name_txid() -> Seq<u8> {
    seq![0x54u8, 0x78u8, 0x69u8, 0x64u8]
}

/// The type system of the RGB-121 schemata.
pub open spec fn type_system_view() -> Seq<StructTypeView> {
    seq![
        StructTypeView {
            name: name_outpoint(),
            fields: seq![
                StructFieldView { ty: TypeRef::spec_named(name_txid()), optional: false },
                StructFieldView { ty: TypeRef::spec_primitive(PrimitiveType::U16), optional: false },
            ],
        },
        StructTypeView {
            name: name_txid(),
            fields: seq![
                StructFieldView {
                    ty: TypeRef::spec_array(PrimitiveType::U8, 32),
                    optional: false,
                },
            ],
        },
    ]
}

/// What the genesis of an RGB-121 contract may hold.
pub open spec fn genesis_view() -> GenesisSchemaView {
    GenesisSchemaView {
        metadata: seq![
            (FieldType::Name.spec_code(), Occurrences::spec_once()),
            (FieldType::RicardianContract.spec_code(), Occurrences::spec_none_or_once()),
            (FieldType::Precision.spec_code(), Occurrences::spec_once()),
            (FieldType::Timestamp.spec_code(), Occurrences::spec_once()),
            (FieldType::Description.spec_code(), Occurrences::spec_none_or_once()),
            (FieldType::Data.spec_code(), Occurrences::spec_none_or_more()),
            (FieldType::DataFormat.spec_code(), Occurrences::spec_none_or_once()),
            (FieldType::IssuedSupply.spec_code(), Occurrences::spec_once()),
            (FieldType::ParentId.spec_code(), Occurrences::spec_none_or_once()),
        ],
        owned_rights: seq![
            (OwnedRightType::Assets.spec_code(), Occurrences::spec_none_or_more()),
            (OwnedRightType::Engraving.spec_code(), Occurrences::spec_none_or_more()),
        ],
        public_rights: seq![],
    }
}

/// What a secondary issue may hold.
pub open spec fn issue_view() -> TransitionSchemaView {
    TransitionSchemaView {
        metadata: seq![
            (FieldType::Data.spec_code(), Occurrences::spec_none_or_more()),
            (FieldType::DataFormat.spec_code(), Occurrences::spec_none_or_once()),
            (FieldType::IssuedSupply.spec_code(), Occurrences::spec_once()),
        ],
        closes: seq![],
        owned_rights: seq![
            (OwnedRightType::Assets.spec_code(), Occurrences::spec_none_or_more()),
            (OwnedRightType::Engraving.spec_code(), Occurrences::spec_none_or_more()),
        ],
        public_rights: seq![],
    }
}

/// What a transfer may hold.
pub open spec fn transfer_view() -> TransitionSchemaView {
    TransitionSchemaView {
        metadata: seq![],
        closes: seq![(OwnedRightType::Assets.spec_code(), Occurrences::spec_once_or_more())],
        owned_rights: seq![(OwnedRightType::Assets.spec_code(), Occurrences::spec_none_or_more())],
        public_rights: seq![],
    }
}

/// What an engraving may hold.
pub open spec fn engraving_view() -> TransitionSchemaView {
    TransitionSchemaView {
        metadata: seq![
            (FieldType::Data.spec_code(), Occurrences::spec_none_or_more()),
            (FieldType::DataFormat.spec_code(), Occurrences::spec_none_or_once()),
        ],
        closes: seq![
            (OwnedRightType::Assets.spec_code(), Occurrences::spec_once_or_more()),
            (OwnedRightType::Engraving.spec_code(), Occurrences::spec_none_or_more()),
        ],
        owned_rights: seq![
            (OwnedRightType::Assets.spec_code(), Occurrences::spec_none_or_more()),
            (OwnedRightType::Engraving.spec_code(), Occurrences::spec_none_or_more()),
        ],
        public_rights: seq![],
    }
}

/// The data types of the metadata fields.
pub open spec fn field_types_view() -> Seq<(u16, TypeRefView)> {
    seq![
        (FieldType::Name.spec_code(), TypeRef::spec_list(PrimitiveType::AsciiChar)),
        (FieldType::RicardianContract.spec_code(), TypeRef::spec_list(PrimitiveType::AsciiChar)),
        (FieldType::Precision.spec_code(), TypeRef::spec_primitive(PrimitiveType::U8)),
        (FieldType::Timestamp.spec_code(), TypeRef::spec_primitive(PrimitiveType::I64)),
        (FieldType::Description.spec_code(), TypeRef::spec_list(PrimitiveType::AsciiChar)),
        (FieldType::Data.spec_code(), TypeRef::spec_list(PrimitiveType::U8)),
        (FieldType::DataFormat.spec_code(), TypeRef::spec_primitive(PrimitiveType::U16)),
        (FieldType::IssuedSupply.spec_code(), TypeRef::spec_primitive(PrimitiveType::U64)),
        (FieldType::ParentId.spec_code(), TypeRef::spec_list(PrimitiveType::AsciiChar)),
    ]
}

/// The state formats of the owned rights.
pub open spec fn owned_right_types_view() -> Seq<(u16, StateSchemaView)> {
    seq![
        (
            OwnedRightType::Assets.spec_code(),
            StateSchemaView::DiscreteFiniteField(DiscreteFiniteFieldFormat::Unsigned64bit),
        ),
        (OwnedRightType::Engraving.spec_code(), StateSchemaView::DataContainer),
    ]
}

/// The complete RGB-121 schema.
pub open spec fn schema_view() -> SchemaView {
    SchemaView {
        root_id: None,
        type_system: type_system_view(),
        field_types: field_types_view(),
        owned_right_types: owned_right_types_view(),
        public_right_types: seq![],
        genesis: genesis_view(),
        transitions: seq![
            (TransitionType::Transfer.spec_code(), transfer_view()),
            (TransitionType::Engraving.spec_code(), engraving_view()),
            (TransitionType::Issue.spec_code(), issue_view()),
        ],
        script: ValidationScript::Embedded,
        override_rules: OverrideRules::AllowAnyVm,
    }
}

/// The RGB-121 subschema under the root with the identifier `root_id`: the
/// complete schema without the engraving transition.
pub open spec fn subschema_view(root_id: Seq<u8>) -> SchemaView {
    SchemaView {
        root_id: Some(root_id),
        type_system: type_system_view(),
        field_types: field_types_view(),
        owned_right_types: owned_right_types_view(),
        public_right_types: seq![],
        genesis: genesis_view(),
        transitions: seq![
            (TransitionType::Transfer.spec_code(), transfer_view()),
            (TransitionType::Issue.spec_code(), issue_view()),
        ],
        script: ValidationScript::Embedded,
        override_rules: OverrideRules::AllowAnyVm,
    }
}

/// Builds the type system of the RGB-121 schemata: a transaction output,
/// made of a transaction identifier and an output number.
pub fn type_system() -> (r: TypeSystem)
    ensures
        r@ == type_system_view(),
{
    // "OutPoint"
    let outpoint: Vec<u8> = vec![0x4fu8, 0x75u8, 0x74u8, 0x50u8, 0x6fu8, 0x69u8, 0x6eu8, 0x74u8];
    // "Txid"
    let txid: Vec<u8> = vec![0x54u8, 0x78u8, 0x69u8, 0x64u8];
    let txid_ref: Vec<u8> = vec![0x54u8, 0x78u8, 0x69u8, 0x64u8];
    assert(outpoint@ =~= name_outpoint());
    assert(txid@ =~= name_txid());
    assert(txid_ref@ =~= name_txid());
    let outpoint_type = StructType {
        name: outpoint,
        fields: vec![
            StructField::required(TypeRef::named(txid_ref)),
            StructField::required(TypeRef::primitive(PrimitiveType::U16)),
        ],
    };
    let txid_type = StructType {
        name: txid,
        fields: vec![StructField::required(TypeRef::array(PrimitiveType::U8, 32))],
    };
    assert(outpoint_type@.fields =~= type_system_view()[0].fields);
    assert(txid_type@.fields =~= type_system_view()[1].fields);
    let r = TypeSystem { types: vec![outpoint_type, txid_type] };
    assert(r@ =~= type_system_view());
    r
}

/// Builds the schema of the genesis.
pub fn genesis() -> (r: GenesisSchema)
    ensures
        r@ == genesis_view(),
        r.wf(),
{
    let r = GenesisSchema {
        metadata: TypeMap {
            entries: vec![
                (FieldType::Name.code(), Occurrences::once()),
                (FieldType::RicardianContract.code(), Occurrences::none_or_once()),
                (FieldType::Precision.code(), Occurrences::once()),
                (FieldType::Timestamp.code(), Occurrences::once()),
                (FieldType::Description.code(), Occurrences::none_or_once()),
                (FieldType::Data.code(), Occurrences::none_or_more()),
                (FieldType::DataFormat.code(), Occurrences::none_or_once()),
                (FieldType::IssuedSupply.code(), Occurrences::once()),
                (FieldType::ParentId.code(), Occurrences::none_or_once()),
            ],
        },
        owned_rights: TypeMap {
            entries: vec![
                (OwnedRightType::Assets.code(), Occurrences::none_or_more()),
                (OwnedRightType::Engraving.code(), Occurrences::none_or_more()),
            ],
        },
        public_rights: Vec::new(),
    };
    assert(r@.metadata =~= genesis_view().metadata);
    assert(r@.owned_rights =~= genesis_view().owned_rights);
    assert(r@.public_rights =~= genesis_view().public_rights);
    r
}

/// Builds the schema of a secondary issue.
pub fn issue() -> (r: TransitionSchema)
    ensures
        r@ == issue_view(),
        r.wf(),
{
    let r = TransitionSchema {
        metadata: TypeMap {
            entries: vec![
                (FieldType::Data.code(), Occurrences::none_or_more()),
                (FieldType::DataFormat.code(), Occurrences::none_or_once()),
                // Needed to verify the commitments to the issued amounts.
                (FieldType::IssuedSupply.code(), Occurrences::once()),
            ],
        },
        closes: TypeMap::new(),
        owned_rights: TypeMap {
            entries: vec![
                (OwnedRightType::Assets.code(), Occurrences::none_or_more()),
                (OwnedRightType::Engraving.code(), Occurrences::none_or_more()),
            ],
        },
        public_rights: Vec::new(),
    };
    assert(r@.metadata =~= issue_view().metadata);
    assert(r@.closes =~= issue_view().closes);
    assert(r@.owned_rights =~= issue_view().owned_rights);
    assert(r@.public_rights =~= issue_view().public_rights);
    r
}

/// Builds the schema of a transfer.
pub fn transfer() -> (r: TransitionSchema)
    ensures
        r@ == transfer_view(),
        r.wf(),
{
    let r = TransitionSchema {
        metadata: TypeMap::new(),
        closes: TypeMap { entries: vec![(OwnedRightType::Assets.code(), Occurrences::once_or_more())] },
        owned_rights: TypeMap {
            entries: vec![(OwnedRightType::Assets.code(), Occurrences::none_or_more())],
        },
        public_rights: Vec::new(),
    };
    assert(r@.metadata =~= transfer_view().metadata);
    assert(r@.closes =~= transfer_view().closes);
    assert(r@.owned_rights =~= transfer_view().owned_rights);
    assert(r@.public_rights =~= transfer_view().public_rights);
    r
}

/// Builds the schema of an engraving.
pub fn engraving() -> (r: TransitionSchema)
    ensures
        r@ == engraving_view(),
        r.wf(),
{
    let r = TransitionSchema {
        metadata: TypeMap {
            entries: vec![
                (FieldType::Data.code(), Occurrences::none_or_more()),
                (FieldType::DataFormat.code(), Occurrences::none_or_once()),
            ],
        },
        closes: TypeMap {
            entries: vec![
                (OwnedRightType::Assets.code(), Occurrences::once_or_more()),
                (OwnedRightType::Engraving.code(), Occurrences::none_or_more()),
            ],
        },
        owned_rights: TypeMap {
            entries: vec![
                (OwnedRightType::Assets.code(), Occurrences::none_or_more()),
                (OwnedRightType::Engraving.code(), Occurrences::none_or_more()),
            ],
        },
        public_rights: Vec::new(),
    };
    assert(r@.metadata =~= engraving_view().metadata);
    assert(r@.closes =~= engraving_view().closes);
    assert(r@.owned_rights =~= engraving_view().owned_rights);
    assert(r@.public_rights =~= engraving_view().public_rights);
    r
}

/// Builds the types of the metadata fields.
fn field_types() -> (r: TypeMap<TypeRef>)
    ensures
        view_entries(r.entries@) == field_types_view(),
{
    let r = TypeMap {
        entries: vec![
            (FieldType::Name.code(), TypeRef::ascii_string()),
            // The contract text may hold a URL, text, or the text form of a
            // Ricardian contract.
            (FieldType::RicardianContract.code(), TypeRef::ascii_string()),
            (FieldType::Precision.code(), TypeRef::u8()),
            (FieldType::Timestamp.code(), TypeRef::i64()),
            (FieldType::Description.code(), TypeRef::ascii_string()),
            (FieldType::Data.code(), TypeRef::bytes()),
            (FieldType::DataFormat.code(), TypeRef::u16()),
            // The allocated amounts are hidden behind commitments.
            (FieldType::IssuedSupply.code(), TypeRef::u64()),
            (FieldType::ParentId.code(), TypeRef::ascii_string()),
        ],
    };
    assert(view_entries(r.entries@) =~= field_types_view());
    r
}

/// Builds the state formats of the owned rights.
fn owned_right_types() -> (r: TypeMap<StateSchema>)
    ensures
        view_entries(r.entries@) == owned_right_types_view(),
{
    let r = TypeMap {
        entries: vec![
            (
                OwnedRightType::Assets.code(),
                StateSchema::DiscreteFiniteField(DiscreteFiniteFieldFormat::Unsigned64bit),
            ),
            (OwnedRightType::Engraving.code(), StateSchema::DataContainer),
        ],
    };
    assert(view_entries(r.entries@) =~= owned_right_types_view());
    r
}

/// Builds and returns the complete RGB-121 schema (the root schema).
pub fn schema() -> (r: Schema)
    ensures
        r@ == schema_view(),
        r.wf(),
        r@.consistent(),
{
    proof {
        lemma_nodes_consistent(schema_view());
    }
    let r = Schema {
        root_id: None,
        type_system: type_system(),
        field_types: field_types(),
        owned_right_types: owned_right_types(),
        public_right_types: Vec::new(),
        genesis: genesis(),
        transitions: TypeMap {
            entries: vec![
                (TransitionType::Transfer.code(), transfer()),
                (TransitionType::Engraving.code(), engraving()),
                (TransitionType::Issue.code(), issue()),
            ],
        },
        script: ValidationScript::Embedded,
        override_rules: OverrideRules::AllowAnyVm,
    };
    assert(r@.transitions =~= schema_view().transitions);
    assert(r@.public_right_types =~= schema_view().public_right_types);
    r
}

/// Builds the RGB-121 subschema under the root with the identifier
/// `root_id`: it allows asset transfers and secondary issues but no
/// engraving.
pub fn subschema_of(root_id: SchemaId) -> (r: Schema)
    ensures
        r@ == subschema_view(root_id@),
        r.wf(),
        r@.consistent(),
{
    proof {
        lemma_nodes_consistent(subschema_view(root_id@));
    }
    let r = Schema {
        root_id: Some(root_id),
        type_system: type_system(),
        field_types: field_types(),
        owned_right_types: owned_right_types(),
        public_right_types: Vec::new(),
        genesis: genesis(),
        transitions: TypeMap {
            entries: vec![
                (TransitionType::Transfer.code(), transfer()),
                (TransitionType::Issue.code(), issue()),
            ],
        },
        script: ValidationScript::Embedded,
        override_rules: OverrideRules::AllowAnyVm,
    };
    assert(r@.transitions =~= subschema_view(root_id@).transitions);
    assert(r@.public_right_types =~= subschema_view(root_id@).public_right_types);
    r
}

/// Builds the RGB-121 subschema, which allows asset transfers and secondary
/// issues but no engraving. It names the complete schema as its root.
pub fn subschema() -> (r: Schema)
    ensures
        r@ == subschema_view(schema_commitment(enc_schema(schema_view()))),
        r.wf(),
        r@.consistent(),
{
    let root = schema();
    proof {
        lemma_root_schema_fits();
    }
    match root.schema_id() {
        Some(id) => subschema_of(id),
        None => vstd::pervasive::unreached(),
    }
}

/// Whether every entry of a table has a code that the catalogue declares
/// and a range that is not empty.
fn table_declared<V>(table: &TypeMap<Occurrences>, catalogue: &TypeMap<V>) -> (r: bool)
    requires
        catalogue.wf(),
    ensures
        r == forall|i: int|
            0 <= i < table.entries@.len() ==> has_code(
                catalogue.entries@,
                (#[trigger] table.entries@[i]).0,
            ) && table.entries@[i].1.wf(),
{
    let mut i: usize = 0;
    while i < table.entries.len()
        invariant
            catalogue.wf(),
            i <= table.entries@.len(),
            forall|j: int|
                0 <= j < i ==> has_code(catalogue.entries@, (#[trigger] table.entries@[j]).0)
                    && table.entries@[j].1.wf(),
        decreases table.entries@.len() - i,
    {
        if !catalogue.contains_key(table.entries[i].0) || !table.entries[i].1.is_wf() {
            return false;
        }
        i = i + 1;
    }
    true
}

/// Whether every code of a list is among the declared ones.
fn codes_declared(codes: &Vec<u16>, declared: &Vec<u16>) -> (r: bool)
    ensures
        r == forall|i: int| 0 <= i < codes@.len() ==> declared@.contains(#[trigger] codes@[i]),
{
    let mut i: usize = 0;
    while i < codes.len()
        invariant
            i <= codes@.len(),
            forall|j: int| 0 <= j < i ==> declared@.contains(#[trigger] codes@[j]),
        decreases codes@.len() - i,
    {
        let code = codes[i];
        let mut found = false;
        let mut k: usize = 0;
        while k < declared.len()
            invariant
                k <= declared@.len(),
                found <==> exists|m: int| 0 <= m < k && declared@[m] == code,
            decreases declared@.len() - k,
        {
            if declared[k] == code {
                found = true;
            }
            k = k + 1;
        }
        if !found {
            return false;
        }
        i = i + 1;
    }
    true
}

impl Schema {
    /// Decides whether the schema is consistent: whether its genesis and
    /// its transitions use nothing but what its catalogue declares, with
    /// ranges of occurrences that are not empty.
    pub fn is_consistent(&self) -> (r: bool)
        requires
            self.wf(),
        ensures
            r == self@.consistent(),
    {
        proof {
            lemma_view_entries(self.field_types.entries@, 0);
            lemma_view_entries(self.owned_right_types.entries@, 0);
            assert forall|code: u16|
                has_code(self@.field_types, code) == has_code(
                    self.field_types.entries@,
                    code,
                ) by {
                lemma_view_entries(self.field_types.entries@, code);
            }
            assert forall|code: u16|
                has_code(self@.owned_right_types, code) == has_code(
                    self.owned_right_types.entries@,
                    code,
                ) by {
                lemma_view_entries(self.owned_right_types.entries@, code);
            }
        }
        if !(table_declared(&self.genesis.metadata, &self.field_types) && table_declared(
            &self.genesis.owned_rights,
            &self.owned_right_types,
        ) && codes_declared(&self.genesis.public_rights, &self.public_right_types)) {
            return false;
        }
        let ghost views = self@.transitions;
        let mut i: usize = 0;
        while i < self.transitions.entries.len()
            invariant
                self.field_types.wf(),
                self.owned_right_types.wf(),
                i <= self.transitions.entries@.len(),
                views == view_entries(self.transitions.entries@),
                forall|code: u16|
                    has_code(self@.field_types, code) == has_code(self.field_types.entries@, code),
                forall|code: u16|
                    has_code(self@.owned_right_types, code) == has_code(
                        self.owned_right_types.entries@,
                        code,
                    ),
                forall|j: int|
                    0 <= j < i ==> node_consistent(
                        self@,
                        (#[trigger] views[j]).1.metadata,
                        views[j].1.closes,
                        views[j].1.owned_rights,
                        views[j].1.public_rights,
                    ),
            decreases self.transitions.entries@.len() - i,
        {
            let node = &self.transitions.entries[i].1;
            assert(self@.transitions == views);
            assert(views[i as int].1 == node@);
            if !(table_declared(&node.metadata, &self.field_types) && table_declared(
                &node.closes,
                &self.owned_right_types,
            ) && table_declared(&node.owned_rights, &self.owned_right_types) && codes_declared(
                &node.public_rights,
                &self.public_right_types,
            )) {
                return false;
            }
            i = i + 1;
        }
        true
    }
}

} // verus!
