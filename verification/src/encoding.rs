//! The canonical byte form of a schema.
//!
//! Integers are written with the least significant byte first. A list is
//! written as the number of its items in 16 bits, then the items; a map as
//! a list of its entries in increasing order of key, each the key and then
//! the value. What does not fit (a list of more than 65535 items, a bounded
//! range of occurrences that reaches 65535) has no byte form.

use crate::occurrences::{Bound, Occurrences};
use crate::schema::{
    GenesisSchema, GenesisSchemaView, OverrideRules, Schema, schema_view, SchemaId, SchemaView,
    TransitionSchema, TransitionSchemaView,
};
use crate::trusted::{commit_schema, render_schema_id, schema_commitment, schema_id_text};
use crate::typemap::{TypeMap, view_entries};
use crate::types::{
    DiscreteFiniteFieldFormat, KeyType, StateSchema, StateSchemaView, StructField, StructFieldView,
    StructType, StructTypeView, TypeConstr, TypeRef, TypeRefView, TypeSystem, TypeTarget,
    TypeTargetView,
};
use vstd::prelude::*;

verus! {

/// The largest number of items that a list can be written with.
pub const MAX_ITEMS: usize = 0xffff;

/// The two bytes of a 16-bit integer.
pub open spec fn enc_u16(v: u16) -> Seq<u8> {
    seq![(v % 256) as u8, (v / 256) as u8]
}

/// The two bytes of a number of items.
pub open spec fn enc_len(n: nat) -> Seq<u8> {
    enc_u16(n as u16)
}

/// Whether a range of occurrences has a byte form.
pub open spec fn occurrences_fit(o: Occurrences) -> bool {
    &&& o.min <= 0xffff
    &&& o.max matches Bound::Limit(m) ==> m < 0xffff
}

/// The upper end of a range as 16 bits: no bound is written as 65535.
pub open spec fn bound_code(b: Bound) -> u16 {
    match b {
        Bound::Limit(m) => m as u16,
        Bound::Unbounded => 0xffff,
    }
}

/// The byte form of a range of occurrences.
pub open spec fn enc_occurrences(o: Occurrences) -> Seq<u8> {
    enc_u16(o.min as u16) + enc_u16(bound_code(o.max))
}

/// The byte form of the entries of a table of occurrences.
pub open spec fn enc_slots(s: Seq<(u16, Occurrences)>) -> Seq<u8>
    decreases s.len(),
{
    if s.len() == 0 {
        Seq::empty()
    } else {
        enc_slots(s.drop_last()) + enc_u16(s.last().0) + enc_occurrences(s.last().1)
    }
}

/// Whether a table of occurrences has a byte form.
pub open spec fn table_fits(s: Seq<(u16, Occurrences)>) -> bool {
    &&& s.len() <= 0xffff
    &&& forall|i: int| 0 <= i < s.len() ==> occurrences_fit((#[trigger] s[i]).1)
}

/// The byte form of a table of occurrences.
pub open spec fn enc_table(s: Seq<(u16, Occurrences)>) -> Seq<u8> {
    enc_len(s.len()) + enc_slots(s)
}

/// The byte form of the items of a list of codes.
pub open spec fn enc_code_items(s: Seq<u16>) -> Seq<u8>
    decreases s.len(),
{
    if s.len() == 0 {
        Seq::empty()
    } else {
        enc_code_items(s.drop_last()) + enc_u16(s.last())
    }
}

/// The byte form of a list of codes.
pub open spec fn enc_codes(s: Seq<u16>) -> Seq<u8> {
    enc_len(s.len()) + enc_code_items(s)
}

/// Whether the schema of a genesis has a byte form.
pub open spec fn genesis_fits(g: GenesisSchemaView) -> bool {
    &&& table_fits(g.metadata)
    &&& table_fits(g.owned_rights)
    &&& g.public_rights.len() <= 0xffff
}

/// The byte form of the schema of a genesis.
pub open spec fn enc_genesis(g: GenesisSchemaView) -> Seq<u8> {
    enc_table(g.metadata) + enc_table(g.owned_rights) + enc_codes(g.public_rights)
}

/// Whether the schema of a transition has a byte form.
pub open spec fn transition_fits(t: TransitionSchemaView) -> bool {
    &&& table_fits(t.metadata)
    &&& table_fits(t.closes)
    &&& table_fits(t.owned_rights)
    &&& t.public_rights.len() <= 0xffff
}

/// The byte form of the schema of a transition.
pub open spec fn enc_transition(t: TransitionSchemaView) -> Seq<u8> {
    enc_table(t.metadata) + enc_table(t.closes) + enc_table(t.owned_rights) + enc_codes(
        t.public_rights,
    )
}

/// The byte form of the type of the keys of a map.
pub open spec fn enc_key(k: KeyType) -> Seq<u8> {
    match k {
        KeyType::Primitive(p) => seq![0x00u8, p.spec_code()],
        KeyType::Array(n, p) => seq![0x10u8] + enc_u16(n) + seq![p.spec_code()],
        KeyType::List(p) => seq![0x20u8, p.spec_code()],
    }
}

/// The byte form of the way a type is built.
pub open spec fn enc_constr(c: TypeConstr) -> Seq<u8> {
    match c {
        TypeConstr::Plain => seq![0x00u8],
        TypeConstr::Array(n) => seq![0x10u8] + enc_u16(n),
        TypeConstr::List => seq![0x11u8],
        TypeConstr::SetOf => seq![0x12u8],
        TypeConstr::MapOf(k) => seq![0x13u8] + enc_key(k),
    }
}

/// Whether a name can stand for a structure: 1 to 32 ASCII characters.
pub open spec fn name_fits(name: Seq<u8>) -> bool {
    &&& 1 <= name.len() <= 32
    &&& forall|i: int| 0 <= i < name.len() ==> name[i] < 0x80
}

/// The byte form of a name.
pub open spec fn enc_name(name: Seq<u8>) -> Seq<u8> {
    enc_len(name.len()) + name
}

/// Whether a reference to a type has a byte form.
pub open spec fn type_ref_fits(t: TypeRefView) -> bool {
    t.target matches TypeTargetView::Named(name) ==> name_fits(name)
}

/// The byte form of a reference to a type: whether it names a primitive
/// type or a structure, how the type is built, and what it is built from.
pub open spec fn enc_type_ref(t: TypeRefView) -> Seq<u8> {
    match t.target {
        TypeTargetView::Primitive(p) => seq![0x00u8] + enc_constr(t.constr) + seq![p.spec_code()],
        TypeTargetView::Named(name) => seq![0x01u8] + enc_constr(t.constr) + enc_name(name),
    }
}

/// The byte form of a field of a structure.
pub open spec fn enc_field(f: StructFieldView) -> Seq<u8> {
    enc_type_ref(f.ty) + seq![if f.optional { 1u8 } else { 0u8 }]
}

/// The byte form of the fields of a structure.
pub open spec fn enc_fields(s: Seq<StructFieldView>) -> Seq<u8>
    decreases s.len(),
{
    if s.len() == 0 {
        Seq::empty()
    } else {
        enc_fields(s.drop_last()) + enc_field(s.last())
    }
}

/// Whether a structure has a byte form.
pub open spec fn struct_fits(t: StructTypeView) -> bool {
    &&& name_fits(t.name)
    &&& 1 <= t.fields.len() <= 0xffff
    &&& forall|i: int| 0 <= i < t.fields.len() ==> type_ref_fits((#[trigger] t.fields[i]).ty)
}

/// The byte form of a structure.
pub open spec fn enc_struct(t: StructTypeView) -> Seq<u8> {
    enc_name(t.name) + enc_len(t.fields.len()) + enc_fields(t.fields)
}

/// The byte form of the structures of a type system.
pub open spec fn enc_structs(s: Seq<StructTypeView>) -> Seq<u8>
    decreases s.len(),
{
    if s.len() == 0 {
        Seq::empty()
    } else {
        enc_structs(s.drop_last()) + enc_struct(s.last())
    }
}

/// Whether a type system has a byte form.
pub open spec fn type_system_fits(s: Seq<StructTypeView>) -> bool {
    &&& s.len() <= 0xffff
    &&& forall|i: int| 0 <= i < s.len() ==> struct_fits(#[trigger] s[i])
}

/// The byte form of a type system.
pub open spec fn enc_type_system(s: Seq<StructTypeView>) -> Seq<u8> {
    enc_len(s.len()) + enc_structs(s)
}

/// The byte form of the data types of the fields.
pub open spec fn enc_field_type_items(s: Seq<(u16, TypeRefView)>) -> Seq<u8>
    decreases s.len(),
{
    if s.len() == 0 {
        Seq::empty()
    } else {
        enc_field_type_items(s.drop_last()) + enc_u16(s.last().0) + enc_type_ref(s.last().1)
    }
}

/// Whether the data types of the fields have a byte form.
pub open spec fn field_types_fit(s: Seq<(u16, TypeRefView)>) -> bool {
    &&& s.len() <= 0xffff
    &&& forall|i: int| 0 <= i < s.len() ==> type_ref_fits((#[trigger] s[i]).1)
}

/// Whether a state format has a byte form.
pub open spec fn state_fits(s: StateSchemaView) -> bool {
    s matches StateSchemaView::CustomData(t) ==> type_ref_fits(t)
}

/// The byte form of a state format.
pub open spec fn enc_state(s: StateSchemaView) -> Seq<u8> {
    match s {
        StateSchemaView::Declarative => seq![0x00u8],
        StateSchemaView::DiscreteFiniteField(DiscreteFiniteFieldFormat::Unsigned64bit) => seq![
            0x01u8,
            0x00u8,
        ],
        StateSchemaView::CustomData(t) => seq![0x02u8] + enc_type_ref(t),
        StateSchemaView::DataContainer => seq![0x03u8],
    }
}

/// The byte form of the state formats of the owned rights.
pub open spec fn enc_right_type_items(s: Seq<(u16, StateSchemaView)>) -> Seq<u8>
    decreases s.len(),
{
    if s.len() == 0 {
        Seq::empty()
    } else {
        enc_right_type_items(s.drop_last()) + enc_u16(s.last().0) + enc_state(s.last().1)
    }
}

/// Whether the state formats of the owned rights have a byte form.
pub open spec fn right_types_fit(s: Seq<(u16, StateSchemaView)>) -> bool {
    &&& s.len() <= 0xffff
    &&& forall|i: int| 0 <= i < s.len() ==> state_fits((#[trigger] s[i]).1)
}

/// The byte form of the transitions of a schema.
pub open spec fn enc_transition_items(s: Seq<(u16, TransitionSchemaView)>) -> Seq<u8>
    decreases s.len(),
{
    if s.len() == 0 {
        Seq::empty()
    } else {
        enc_transition_items(s.drop_last()) + enc_u16(s.last().0) + enc_transition(s.last().1)
    }
}

/// Whether the transitions of a schema have a byte form.
pub open spec fn transitions_fit(s: Seq<(u16, TransitionSchemaView)>) -> bool {
    &&& s.len() <= 0xffff
    &&& forall|i: int| 0 <= i < s.len() ==> transition_fits((#[trigger] s[i]).1)
}

/// Thirty-two zero bytes: the byte form of "no root".
pub open spec fn no_root() -> Seq<u8> {
    Seq::new(32, |i: int| 0u8)
}

/// The byte form of the identifier of the root schema.
pub open spec fn enc_root(root_id: Option<Seq<u8>>) -> Seq<u8> {
    match root_id {
        Some(id) => id,
        None => no_root(),
    }
}

/// The byte that stands for the override rules.
pub open spec fn override_code(r: OverrideRules) -> u8 {
    match r {
        OverrideRules::Deny => 0,
        OverrideRules::AllowSameVm => 1,
        OverrideRules::AllowAnyVm => 2,
    }
}

/// Whether a schema has a byte form.
pub open spec fn schema_fits(s: SchemaView) -> bool {
    &&& s.root_id matches Some(id) ==> id.len() == 32 && id != no_root()
    &&& type_system_fits(s.type_system)
    &&& field_types_fit(s.field_types)
    &&& right_types_fit(s.owned_right_types)
    &&& s.public_right_types.len() <= 0xffff
    &&& genesis_fits(s.genesis)
    &&& transitions_fit(s.transitions)
}

/// The byte form of a schema: no feature flags, the root, the type system,
/// the field types, the owned right types, the public right types, the
/// genesis, no extensions, the transitions, the embedded validation code
/// and the override rules.
pub open spec fn enc_schema(s: SchemaView) -> Seq<u8> {
    enc_len(0) + enc_root(s.root_id) + enc_type_system(s.type_system) + enc_len(
        s.field_types.len(),
    ) + enc_field_type_items(s.field_types) + enc_len(s.owned_right_types.len())
        + enc_right_type_items(s.owned_right_types) + enc_codes(s.public_right_types)
        + enc_genesis(s.genesis) + enc_len(0) + enc_len(s.transitions.len())
        + enc_transition_items(s.transitions) + seq![0x00u8] + seq![override_code(s.override_rules)]
}

/// Appends the two bytes of `v`.
fn put_u16(out: &mut Vec<u8>, v: u16)
    ensures
        final(out)@ == old(out)@ + enc_u16(v),
{
    out.push((v % 256) as u8);
    out.push((v / 256) as u8);
    assert(out@ =~= old(out)@ + enc_u16(v));
}

/// Appends a number of items, where it can be written.
fn put_len(out: &mut Vec<u8>, n: usize) -> (ok: bool)
    ensures
        ok <==> n <= 0xffff,
        ok ==> final(out)@ == old(out)@ + enc_len(n as nat),
{
    if n > MAX_ITEMS {
        return false;
    }
    put_u16(out, n as u16);
    true
}

/// Appends the given bytes.
fn put_bytes(out: &mut Vec<u8>, bytes: &Vec<u8>)
    ensures
        final(out)@ == old(out)@ + bytes@,
{
    let mut i: usize = 0;
    while i < bytes.len()
        invariant
            i <= bytes@.len(),
            out@ == old(out)@ + bytes@.subrange(0, i as int),
        decreases bytes@.len() - i,
    {
        out.push(bytes[i]);
        assert(out@ =~= old(out)@ + bytes@.subrange(0, i + 1));
        i = i + 1;
    }
    assert(bytes@.subrange(0, i as int) =~= bytes@);
}

/// Appends a range of occurrences, where it has a byte form.
fn put_occurrences(out: &mut Vec<u8>, o: Occurrences) -> (ok: bool)
    ensures
        ok <==> occurrences_fit(o),
        ok ==> final(out)@ == old(out)@ + enc_occurrences(o),
{
    if o.min > 0xffff {
        return false;
    }
    let max: u16 = match o.max {
        Bound::Limit(m) => {
            if m >= 0xffff {
                return false;
            }
            m as u16
        },
        Bound::Unbounded => 0xffff,
    };
    put_u16(out, o.min as u16);
    put_u16(out, max);
    assert(out@ =~= old(out)@ + enc_occurrences(o));
    true
}

/// Appends a table of occurrences, where it has a byte form.
fn put_table(out: &mut Vec<u8>, table: &TypeMap<Occurrences>) -> (ok: bool)
    ensures
        ok <==> table_fits(table.entries@),
        ok ==> final(out)@ == old(out)@ + enc_table(table.entries@),
{
    let s = &table.entries;
    if !put_len(out, s.len()) {
        return false;
    }
    let ghost base = out@;
    let mut i: usize = 0;
    while i < s.len()
        invariant
            i <= s@.len(),
            s@ == table.entries@,
            s@.len() <= 0xffff,
            forall|j: int| 0 <= j < i ==> occurrences_fit((#[trigger] s@[j]).1),
            out@ == base + enc_slots(s@.subrange(0, i as int)),
        decreases s@.len() - i,
    {
        let ghost before = out@;
        put_u16(out, s[i].0);
        if !put_occurrences(out, s[i].1) {
            return false;
        }
        proof {
            assert(s@.subrange(0, i + 1).drop_last() =~= s@.subrange(0, i as int));
            assert(out@ =~= base + enc_slots(s@.subrange(0, i + 1)));
        }
        i = i + 1;
    }
    assert(s@.subrange(0, i as int) =~= s@);
    assert(out@ =~= old(out)@ + enc_table(s@));
    true
}

/// Appends a list of codes, where it has a byte form.
fn put_codes(out: &mut Vec<u8>, codes: &Vec<u16>) -> (ok: bool)
    ensures
        ok <==> codes@.len() <= 0xffff,
        ok ==> final(out)@ == old(out)@ + enc_codes(codes@),
{
    if !put_len(out, codes.len()) {
        return false;
    }
    let ghost base = out@;
    let mut i: usize = 0;
    while i < codes.len()
        invariant
            i <= codes@.len(),
            out@ == base + enc_code_items(codes@.subrange(0, i as int)),
        decreases codes@.len() - i,
    {
        put_u16(out, codes[i]);
        proof {
            assert(codes@.subrange(0, i + 1).drop_last() =~= codes@.subrange(0, i as int));
            assert(out@ =~= base + enc_code_items(codes@.subrange(0, i + 1)));
        }
        i = i + 1;
    }
    assert(codes@.subrange(0, i as int) =~= codes@);
    assert(out@ =~= old(out)@ + enc_codes(codes@));
    true
}

/// Appends the schema of a genesis, where it has a byte form.
fn put_genesis(out: &mut Vec<u8>, g: &GenesisSchema) -> (ok: bool)
    ensures
        ok <==> genesis_fits(g@),
        ok ==> final(out)@ == old(out)@ + enc_genesis(g@),
{
    if !put_table(out, &g.metadata) {
        return false;
    }
    if !put_table(out, &g.owned_rights) {
        return false;
    }
    if !put_codes(out, &g.public_rights) {
        return false;
    }
    assert(out@ =~= old(out)@ + enc_genesis(g@));
    true
}

/// Appends the schema of a transition, where it has a byte form.
fn put_transition(out: &mut Vec<u8>, t: &TransitionSchema) -> (ok: bool)
    ensures
        ok <==> transition_fits(t@),
        ok ==> final(out)@ == old(out)@ + enc_transition(t@),
{
    if !put_table(out, &t.metadata) {
        return false;
    }
    if !put_table(out, &t.closes) {
        return false;
    }
    if !put_table(out, &t.owned_rights) {
        return false;
    }
    if !put_codes(out, &t.public_rights) {
        return false;
    }
    assert(out@ =~= old(out)@ + enc_transition(t@));
    true
}

/// Appends the type of the keys of a map.
fn put_key(out: &mut Vec<u8>, k: KeyType)
    ensures
        final(out)@ == old(out)@ + enc_key(k),
{
    match k {
        KeyType::Primitive(p) => {
            out.push(0x00);
            out.push(p.code());
        },
        KeyType::Array(n, p) => {
            out.push(0x10);
            put_u16(out, n);
            out.push(p.code());
        },
        KeyType::List(p) => {
            out.push(0x20);
            out.push(p.code());
        },
    }
    assert(out@ =~= old(out)@ + enc_key(k));
}

/// Appends the way a type is built.
fn put_constr(out: &mut Vec<u8>, c: TypeConstr)
    ensures
        final(out)@ == old(out)@ + enc_constr(c),
{
    match c {
        TypeConstr::Plain => {
            out.push(0x00);
        },
        TypeConstr::Array(n) => {
            out.push(0x10);
            put_u16(out, n);
        },
        TypeConstr::List => {
            out.push(0x11);
        },
        TypeConstr::SetOf => {
            out.push(0x12);
        },
        TypeConstr::MapOf(k) => {
            out.push(0x13);
            put_key(out, k);
        },
    }
    assert(out@ =~= old(out)@ + enc_constr(c));
}

/// Appends a name, where it can stand for a structure.
fn put_name(out: &mut Vec<u8>, name: &Vec<u8>) -> (ok: bool)
    ensures
        ok <==> name_fits(name@),
        ok ==> final(out)@ == old(out)@ + enc_name(name@),
{
    if name.len() < 1 || name.len() > 32 {
        return false;
    }
    let mut i: usize = 0;
    while i < name.len()
        invariant
            i <= name@.len(),
            forall|j: int| 0 <= j < i ==> name@[j] < 0x80,
        decreases name@.len() - i,
    {
        if name[i] >= 0x80 {
            return false;
        }
        i = i + 1;
    }
    put_u16(out, name.len() as u16);
    put_bytes(out, name);
    assert(out@ =~= old(out)@ + enc_name(name@));
    true
}

/// Appends a reference to a type, where it has a byte form.
fn put_type_ref(out: &mut Vec<u8>, t: &TypeRef) -> (ok: bool)
    ensures
        ok <==> type_ref_fits(t@),
        ok ==> final(out)@ == old(out)@ + enc_type_ref(t@),
{
    match &t.target {
        TypeTarget::Primitive(p) => {
            out.push(0x00);
            put_constr(out, t.constr);
            out.push(p.code());
            assert(out@ =~= old(out)@ + enc_type_ref(t@));
            true
        },
        TypeTarget::Named(name) => {
            out.push(0x01);
            put_constr(out, t.constr);
            if !put_name(out, name) {
                return false;
            }
            assert(out@ =~= old(out)@ + enc_type_ref(t@));
            true
        },
    }
}

/// Appends a structure, where it has a byte form.
fn put_struct(out: &mut Vec<u8>, t: &StructType) -> (ok: bool)
    ensures
        ok <==> struct_fits(t@),
        ok ==> final(out)@ == old(out)@ + enc_struct(t@),
{
    if !put_name(out, &t.name) {
        return false;
    }
    let fields = &t.fields;
    if fields.len() < 1 {
        return false;
    }
    if !put_len(out, fields.len()) {
        return false;
    }
    let ghost base = out@;
    let ghost views = t@.fields;
    let mut i: usize = 0;
    while i < fields.len()
        invariant
            i <= fields@.len(),
            1 <= fields@.len() <= 0xffff,
            name_fits(t@.name),
            views == t@.fields,
            views == fields@.map_values(|f: StructField| f@),
            forall|j: int| 0 <= j < i ==> type_ref_fits((#[trigger] views[j]).ty),
            out@ == base + enc_fields(views.subrange(0, i as int)),
        decreases fields@.len() - i,
    {
        assert(views[i as int] == fields@[i as int]@);
        if !put_type_ref(out, &fields[i].ty) {
            return false;
        }
        out.push(if fields[i].optional { 1 } else { 0 });
        proof {
            assert(views.subrange(0, i + 1).drop_last() =~= views.subrange(0, i as int));
            assert(out@ =~= base + enc_fields(views.subrange(0, i + 1)));
        }
        i = i + 1;
    }
    assert(views.subrange(0, i as int) =~= views);
    assert(out@ =~= old(out)@ + enc_struct(t@));
    true
}

/// Appends a type system, where it has a byte form.
fn put_type_system(out: &mut Vec<u8>, ts: &TypeSystem) -> (ok: bool)
    ensures
        ok <==> type_system_fits(ts@),
        ok ==> final(out)@ == old(out)@ + enc_type_system(ts@),
{
    let types = &ts.types;
    if !put_len(out, types.len()) {
        return false;
    }
    let ghost base = out@;
    let ghost views = ts@;
    let mut i: usize = 0;
    while i < types.len()
        invariant
            i <= types@.len(),
            types@.len() <= 0xffff,
            views == ts@,
            views == types@.map_values(|t: StructType| t@),
            forall|j: int| 0 <= j < i ==> struct_fits(#[trigger] views[j]),
            out@ == base + enc_structs(views.subrange(0, i as int)),
        decreases types@.len() - i,
    {
        assert(views[i as int] == types@[i as int]@);
        if !put_struct(out, &types[i]) {
            return false;
        }
        proof {
            assert(views.subrange(0, i + 1).drop_last() =~= views.subrange(0, i as int));
            assert(out@ =~= base + enc_structs(views.subrange(0, i + 1)));
        }
        i = i + 1;
    }
    assert(views.subrange(0, i as int) =~= views);
    assert(out@ =~= old(out)@ + enc_type_system(ts@));
    true
}

/// Appends the data types of the fields, where they have a byte form.
fn put_field_types(out: &mut Vec<u8>, table: &TypeMap<TypeRef>) -> (ok: bool)
    ensures
        ok <==> field_types_fit(view_entries(table.entries@)),
        ok ==> final(out)@ == old(out)@ + enc_len(table.entries@.len()) + enc_field_type_items(
            view_entries(table.entries@),
        ),
{
    let s = &table.entries;
    let ghost views = view_entries(s@);
    if !put_len(out, s.len()) {
        return false;
    }
    let ghost base = out@;
    let mut i: usize = 0;
    while i < s.len()
        invariant
            i <= s@.len(),
            s@.len() <= 0xffff,
            s@ == table.entries@,
            views == view_entries(s@),
            forall|j: int| 0 <= j < i ==> type_ref_fits((#[trigger] views[j]).1),
            out@ == base + enc_field_type_items(views.subrange(0, i as int)),
        decreases s@.len() - i,
    {
        assert(views[i as int] == (s@[i as int].0, s@[i as int].1@));
        put_u16(out, s[i].0);
        if !put_type_ref(out, &s[i].1) {
            return false;
        }
        proof {
            assert(views.subrange(0, i + 1).drop_last() =~= views.subrange(0, i as int));
            assert(out@ =~= base + enc_field_type_items(views.subrange(0, i + 1)));
        }
        i = i + 1;
    }
    assert(views.subrange(0, i as int) =~= views);
    true
}

/// Appends a state format, where it has a byte form.
fn put_state(out: &mut Vec<u8>, s: &StateSchema) -> (ok: bool)
    ensures
        ok <==> state_fits(s@),
        ok ==> final(out)@ == old(out)@ + enc_state(s@),
{
    match s {
        StateSchema::Declarative => {
            out.push(0x00);
        },
        StateSchema::DiscreteFiniteField(DiscreteFiniteFieldFormat::Unsigned64bit) => {
            out.push(0x01);
            out.push(0x00);
        },
        StateSchema::CustomData(t) => {
            out.push(0x02);
            if !put_type_ref(out, t) {
                return false;
            }
        },
        StateSchema::DataContainer => {
            out.push(0x03);
        },
    }
    assert(out@ =~= old(out)@ + enc_state(s@));
    true
}

/// Appends the state formats of the owned rights, where they have a byte
/// form.
fn put_right_types(out: &mut Vec<u8>, table: &TypeMap<StateSchema>) -> (ok: bool)
    ensures
        ok <==> right_types_fit(view_entries(table.entries@)),
        ok ==> final(out)@ == old(out)@ + enc_len(table.entries@.len()) + enc_right_type_items(
            view_entries(table.entries@),
        ),
{
    let s = &table.entries;
    let ghost views = view_entries(s@);
    if !put_len(out, s.len()) {
        return false;
    }
    let ghost base = out@;
    let mut i: usize = 0;
    while i < s.len()
        invariant
            i <= s@.len(),
            s@.len() <= 0xffff,
            s@ == table.entries@,
            views == view_entries(s@),
            forall|j: int| 0 <= j < i ==> state_fits((#[trigger] views[j]).1),
            out@ == base + enc_right_type_items(views.subrange(0, i as int)),
        decreases s@.len() - i,
    {
        assert(views[i as int] == (s@[i as int].0, s@[i as int].1@));
        put_u16(out, s[i].0);
        if !put_state(out, &s[i].1) {
            return false;
        }
        proof {
            assert(views.subrange(0, i + 1).drop_last() =~= views.subrange(0, i as int));
            assert(out@ =~= base + enc_right_type_items(views.subrange(0, i + 1)));
        }
        i = i + 1;
    }
    assert(views.subrange(0, i as int) =~= views);
    true
}

/// Appends the transitions of a schema, where they have a byte form.
fn put_transitions(out: &mut Vec<u8>, table: &TypeMap<TransitionSchema>) -> (ok: bool)
    ensures
        ok <==> transitions_fit(view_entries(table.entries@)),
        ok ==> final(out)@ == old(out)@ + enc_len(table.entries@.len()) + enc_transition_items(
            view_entries(table.entries@),
        ),
{
    let s = &table.entries;
    let ghost views = view_entries(s@);
    if !put_len(out, s.len()) {
        return false;
    }
    let ghost base = out@;
    let mut i: usize = 0;
    while i < s.len()
        invariant
            i <= s@.len(),
            s@.len() <= 0xffff,
            s@ == table.entries@,
            views == view_entries(s@),
            forall|j: int| 0 <= j < i ==> transition_fits((#[trigger] views[j]).1),
            out@ == base + enc_transition_items(views.subrange(0, i as int)),
        decreases s@.len() - i,
    {
        assert(views[i as int] == (s@[i as int].0, s@[i as int].1@));
        put_u16(out, s[i].0);
        if !put_transition(out, &s[i].1) {
            return false;
        }
        proof {
            assert(views.subrange(0, i + 1).drop_last() =~= views.subrange(0, i as int));
            assert(out@ =~= base + enc_transition_items(views.subrange(0, i + 1)));
        }
        i = i + 1;
    }
    assert(views.subrange(0, i as int) =~= views);
    true
}

/// Appends the identifier of the root schema, where it has a byte form.
fn put_root(out: &mut Vec<u8>, root_id: &Option<crate::schema::SchemaId>) -> (ok: bool)
    ensures
        ok <==> (root_id matches Some(id) ==> id@ != no_root()),
        ok ==> final(out)@ == old(out)@ + enc_root(
            match root_id {
                Some(id) => Some(id@),
                None => None,
            },
        ),
{
    let mut zero = true;
    let mut i: usize = 0;
    while i < 32
        invariant
            i <= 32,
            zero <==> (root_id matches Some(id) ==> forall|j: int| 0 <= j < i ==> id.bytes@[j] == 0),
            out@ == old(out)@ + enc_root(
                match root_id {
                    Some(id) => Some(id@),
                    None => None,
                },
            ).subrange(0, i as int),
        decreases 32 - i,
    {
        let b: u8 = match root_id {
            Some(id) => id.bytes[i],
            None => 0,
        };
        if b != 0 {
            zero = false;
        }
        out.push(b);
        proof {
            let whole = enc_root(
                match root_id {
                    Some(id) => Some(id@),
                    None => None,
                },
            );
            assert(whole.len() == 32);
            assert(whole[i as int] == b);
            assert(out@ =~= old(out)@ + whole.subrange(0, i + 1));
        }
        i = i + 1;
    }
    proof {
        let whole = enc_root(
            match root_id {
                Some(id) => Some(id@),
                None => None,
            },
        );
        assert(whole.subrange(0, 32) =~= whole);
        if let Some(id) = root_id {
            if zero {
                assert(id@ =~= no_root());
            } else {
                let j = choose|j: int| 0 <= j < 32 && id.bytes@[j] != 0;
                assert(no_root()[j] == 0);
            }
        }
    }
    match root_id {
        Some(_) => !zero,
        None => true,
    }
}

/// The byte that stands for the override rules.
fn override_byte(r: OverrideRules) -> (b: u8)
    ensures
        b == override_code(r),
{
    match r {
        OverrideRules::Deny => 0,
        OverrideRules::AllowSameVm => 1,
        OverrideRules::AllowAnyVm => 2,
    }
}

impl Schema {
    /// The canonical byte form of the schema, or `None` where it has none.
    pub fn strict_serialize(&self) -> (r: Option<Vec<u8>>)
        ensures
            r is Some <==> schema_fits(self@),
            r matches Some(bytes) ==> bytes@ == enc_schema(self@),
    {
        let mut out: Vec<u8> = Vec::new();
        put_u16(&mut out, 0);
        if !put_root(&mut out, &self.root_id) {
            return None;
        }
        if !put_type_system(&mut out, &self.type_system) {
            return None;
        }
        if !put_field_types(&mut out, &self.field_types) {
            return None;
        }
        if !put_right_types(&mut out, &self.owned_right_types) {
            return None;
        }
        if !put_codes(&mut out, &self.public_right_types) {
            return None;
        }
        if !put_genesis(&mut out, &self.genesis) {
            return None;
        }
        put_u16(&mut out, 0);
        if !put_transitions(&mut out, &self.transitions) {
            return None;
        }
        out.push(0x00);
        out.push(override_byte(self.override_rules));
        assert(out@ =~= enc_schema(self@));
        Some(out)
    }
}

impl Schema {
    /// The identifier of the schema: the commitment to its byte form, or
    /// `None` where it has no byte form.
    pub fn schema_id(&self) -> (r: Option<SchemaId>)
        ensures
            r is Some <==> schema_fits(self@),
            r matches Some(id) ==> id@ == schema_commitment(enc_schema(self@)),
    {
        match self.strict_serialize() {
            Some(bytes) => Some(SchemaId { bytes: commit_schema(&bytes) }),
            None => None,
        }
    }
}

impl SchemaId {
    /// The text form of the identifier.
    pub fn to_string(&self) -> (r: String)
        ensures
            r@ == schema_id_text(self@),
    {
        render_schema_id(&self.bytes)
    }
}

/// The complete RGB-121 schema has a byte form.
pub proof fn lemma_root_schema_fits()
    ensures
        schema_fits(schema_view()),
{
    let s = schema_view();
    assert(type_system_fits(s.type_system)) by {
        assert(name_fits(crate::schema::name_outpoint()));
        assert(name_fits(crate::schema::name_txid()));
    }
    assert(field_types_fit(s.field_types));
    assert(right_types_fit(s.owned_right_types));
    assert(genesis_fits(s.genesis));
    assert(transitions_fit(s.transitions));
}

} // verus!
