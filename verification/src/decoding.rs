//! Reading a schema back from its canonical byte form.

use crate::encoding::{
    bound_code, enc_code_items, enc_codes, enc_constr, enc_field, enc_field_type_items, enc_fields,
    enc_genesis, enc_key, enc_len, enc_name, enc_occurrences, enc_right_type_items, enc_root,
    enc_schema, enc_slots, enc_state, enc_struct, enc_structs, enc_table, enc_transition,
    enc_transition_items, enc_type_ref, enc_type_system, enc_u16, field_types_fit, genesis_fits,
    name_fits, no_root, occurrences_fit, override_code, right_types_fit, schema_fits, state_fits,
    struct_fits, table_fits, transition_fits, transitions_fit, type_ref_fits, type_system_fits,
};
use crate::occurrences::{Bound, Occurrences};
use crate::schema::{
    codes_increase, GenesisSchema, GenesisSchemaView, OverrideRules, Schema, SchemaId, SchemaView,
    TransitionSchema, TransitionSchemaView, ValidationScript,
};
use crate::typemap::{entries_increase, lemma_view_entries, TypeMap, view_entries};
use crate::types::{
    DiscreteFiniteFieldFormat, KeyType, PrimitiveType, StateSchema, StateSchemaView, StructField,
    StructFieldView, StructType, StructTypeView, TypeConstr, TypeRef, TypeRefView, TypeSystem,
    TypeTarget, TypeTargetView,
};
use crate::wire::{
    after, all_fit, enc_list, enc_many, lemma_after_after, lemma_after_prefix, lemma_u16_enc_parse,
    lemma_u16_parse_enc, list_fits, ListOf, models, Pair, parse_u16, read_u16, read_u8, Short, Wire,
};
use vstd::prelude::*;

verus! {

/// A range of occurrences: its lower end, then its upper end, where 65535
/// stands for no bound.
pub struct Range;

impl Wire for Range {
    type Model = Occurrences;

    type Item = Occurrences;

    open spec fn model(item: Occurrences) -> Occurrences {
        item
    }

    open spec fn fits(v: Occurrences) -> bool {
        occurrences_fit(v)
    }

    open spec fn enc(v: Occurrences) -> Seq<u8> {
        enc_occurrences(v)
    }

    open spec fn parse(b: Seq<u8>) -> Option<(Occurrences, int)> {
        if b.len() >= 4 {
            let min = parse_u16(b).unwrap().0;
            let max = parse_u16(after(b, 2)).unwrap().0;
            Some(
                (
                    Occurrences {
                        min: min as u32,
                        max: if max == 0xffff {
                            Bound::Unbounded
                        } else {
                            Bound::Limit(max as u32)
                        },
                    },
                    4,
                ),
            )
        } else {
            None
        }
    }

    proof fn lemma_parse_enc(v: Occurrences, rest: Seq<u8>) {
        let b = enc_occurrences(v) + rest;
        let min = v.min as u16;
        let max = bound_code(v.max);
        assert(b =~= enc_u16(min) + (enc_u16(max) + rest));
        lemma_u16_parse_enc(min, enc_u16(max) + rest);
        lemma_after_prefix(enc_u16(min), enc_u16(max) + rest);
        lemma_u16_parse_enc(max, rest);
    }

    proof fn lemma_enc_parse(b: Seq<u8>) {
        lemma_u16_enc_parse(b);
        lemma_u16_enc_parse(after(b, 2));
        let v = Self::parse(b).unwrap().0;
        assert(after(b, 2).subrange(0, 2) =~= b.subrange(2, 4));
        assert(enc_occurrences(v) =~= b.subrange(0, 2) + b.subrange(2, 4));
        assert(b.subrange(0, 2) + b.subrange(2, 4) =~= b.subrange(0, 4));
    }

    fn read(input: &Vec<u8>, pos: usize) -> (r: Option<(Occurrences, usize)>) {
        let (min, at) = match read_u16(input, pos) {
            None => {
                return None;
            },
            Some(r) => r,
        };
        proof {
            lemma_after_after(input@, pos as int, 2);
        }
        let (max, next) = match read_u16(input, at) {
            None => {
                return None;
            },
            Some(r) => r,
        };
        let max = if max == 0xffff {
            Bound::Unbounded
        } else {
            Bound::Limit(max as u32)
        };
        Some((Occurrences { min: min as u32, max }, next))
    }
}

/// A primitive type: one byte.
pub struct Primitive;

impl Wire for Primitive {
    type Model = PrimitiveType;

    type Item = PrimitiveType;

    open spec fn model(item: PrimitiveType) -> PrimitiveType {
        item
    }

    open spec fn fits(v: PrimitiveType) -> bool {
        true
    }

    open spec fn enc(v: PrimitiveType) -> Seq<u8> {
        seq![v.spec_code()]
    }

    open spec fn parse(b: Seq<u8>) -> Option<(PrimitiveType, int)> {
        if b.len() >= 1 {
            match PrimitiveType::spec_from_code(b[0]) {
                Some(p) => Some((p, 1)),
                None => None,
            }
        } else {
            None
        }
    }

    proof fn lemma_parse_enc(v: PrimitiveType, rest: Seq<u8>) {
        assert((Self::enc(v) + rest)[0] == v.spec_code());
    }

    proof fn lemma_enc_parse(b: Seq<u8>) {
        assert(Self::enc(Self::parse(b).unwrap().0) =~= b.subrange(0, 1));
    }

    fn read(input: &Vec<u8>, pos: usize) -> (r: Option<(PrimitiveType, usize)>) {
        let (code, next) = match read_u8(input, pos) {
            None => {
                return None;
            },
            Some(r) => r,
        };
        match PrimitiveType::from_code(code) {
            Some(p) => Some((p, next)),
            None => None,
        }
    }
}

/// The type of the keys of a map: a tag, then what the tag calls for.
pub struct Key;

impl Wire for Key {
    type Model = KeyType;

    type Item = KeyType;

    open spec fn model(item: KeyType) -> KeyType {
        item
    }

    open spec fn fits(v: KeyType) -> bool {
        true
    }

    open spec fn enc(v: KeyType) -> Seq<u8> {
        enc_key(v)
    }

    open spec fn parse(b: Seq<u8>) -> Option<(KeyType, int)> {
        if b.len() < 1 {
            None
        } else if b[0] == 0x00 {
            match Primitive::parse(after(b, 1)) {
                Some((p, _)) => Some((KeyType::Primitive(p), 2)),
                None => None,
            }
        } else if b[0] == 0x10 {
            match parse_u16(after(b, 1)) {
                Some((n, _)) => match Primitive::parse(after(b, 3)) {
                    Some((p, _)) => Some((KeyType::Array(n, p), 4)),
                    None => None,
                },
                None => None,
            }
        } else if b[0] == 0x20 {
            match Primitive::parse(after(b, 1)) {
                Some((p, _)) => Some((KeyType::List(p), 2)),
                None => None,
            }
        } else {
            None
        }
    }

    proof fn lemma_parse_enc(v: KeyType, rest: Seq<u8>) {
        let b = enc_key(v) + rest;
        match v {
            KeyType::Primitive(p) => {
                assert(b[0] == 0x00);
                assert(after(b, 1) =~= seq![p.spec_code()] + rest);
                Primitive::lemma_parse_enc(p, rest);
            },
            KeyType::Array(n, p) => {
                assert(b[0] == 0x10);
                assert(after(b, 1) =~= enc_u16(n) + (seq![p.spec_code()] + rest));
                lemma_u16_parse_enc(n, seq![p.spec_code()] + rest);
                assert(after(b, 3) =~= seq![p.spec_code()] + rest);
                Primitive::lemma_parse_enc(p, rest);
            },
            KeyType::List(p) => {
                assert(b[0] == 0x20);
                assert(after(b, 1) =~= seq![p.spec_code()] + rest);
                Primitive::lemma_parse_enc(p, rest);
            },
        }
    }

    proof fn lemma_enc_parse(b: Seq<u8>) {
        let (v, n) = Self::parse(b).unwrap();
        if b[0] == 0x10 {
            lemma_u16_enc_parse(after(b, 1));
            Primitive::lemma_enc_parse(after(b, 3));
            assert(after(b, 1).subrange(0, 2) =~= b.subrange(1, 3));
            assert(after(b, 3).subrange(0, 1) =~= b.subrange(3, 4));
            assert(enc_key(v) =~= b.subrange(0, 4));
        } else {
            Primitive::lemma_enc_parse(after(b, 1));
            assert(after(b, 1).subrange(0, 1) =~= b.subrange(1, 2));
            assert(enc_key(v) =~= b.subrange(0, 2));
        }
    }

    fn read(input: &Vec<u8>, pos: usize) -> (r: Option<(KeyType, usize)>) {
        let (tag, at) = match read_u8(input, pos) {
            None => {
                return None;
            },
            Some(r) => r,
        };
        proof {
            lemma_after_after(input@, pos as int, 1);
        }
        if tag == 0x00 {
            match Primitive::read(input, at) {
                Some((p, next)) => Some((KeyType::Primitive(p), next)),
                None => None,
            }
        } else if tag == 0x10 {
            let (n, at2) = match read_u16(input, at) {
                None => {
                    return None;
                },
                Some(r) => r,
            };
            proof {
                lemma_after_after(input@, pos as int, 3);
            }
            match Primitive::read(input, at2) {
                Some((p, next)) => Some((KeyType::Array(n, p), next)),
                None => None,
            }
        } else if tag == 0x20 {
            match Primitive::read(input, at) {
                Some((p, next)) => Some((KeyType::List(p), next)),
                None => None,
            }
        } else {
            None
        }
    }
}

/// The way a type is built: a tag, then what the tag calls for.
pub struct Constr;

impl Wire for Constr {
    type Model = TypeConstr;

    type Item = TypeConstr;

    open spec fn model(item: TypeConstr) -> TypeConstr {
        item
    }

    open spec fn fits(v: TypeConstr) -> bool {
        true
    }

    open spec fn enc(v: TypeConstr) -> Seq<u8> {
        enc_constr(v)
    }

    open spec fn parse(b: Seq<u8>) -> Option<(TypeConstr, int)> {
        if b.len() < 1 {
            None
        } else if b[0] == 0x00 {
            Some((TypeConstr::Plain, 1))
        } else if b[0] == 0x10 {
            match parse_u16(after(b, 1)) {
                Some((n, _)) => Some((TypeConstr::Array(n), 3)),
                None => None,
            }
        } else if b[0] == 0x11 {
            Some((TypeConstr::List, 1))
        } else if b[0] == 0x12 {
            Some((TypeConstr::SetOf, 1))
        } else if b[0] == 0x13 {
            match Key::parse(after(b, 1)) {
                Some((k, n)) => Some((TypeConstr::MapOf(k), 1 + n)),
                None => None,
            }
        } else {
            None
        }
    }

    proof fn lemma_parse_enc(v: TypeConstr, rest: Seq<u8>) {
        let b = enc_constr(v) + rest;
        match v {
            TypeConstr::Array(n) => {
                assert(b[0] == 0x10);
                assert(after(b, 1) =~= enc_u16(n) + rest);
                lemma_u16_parse_enc(n, rest);
            },
            TypeConstr::MapOf(k) => {
                assert(b[0] == 0x13);
                assert(after(b, 1) =~= enc_key(k) + rest);
                Key::lemma_parse_enc(k, rest);
            },
            TypeConstr::Plain => {
                assert(b[0] == 0x00);
            },
            TypeConstr::List => {
                assert(b[0] == 0x11);
            },
            TypeConstr::SetOf => {
                assert(b[0] == 0x12);
            },
        }
    }

    proof fn lemma_enc_parse(b: Seq<u8>) {
        let (v, n) = Self::parse(b).unwrap();
        if b[0] == 0x10 {
            lemma_u16_enc_parse(after(b, 1));
            assert(after(b, 1).subrange(0, 2) =~= b.subrange(1, 3));
            assert(enc_constr(v) =~= b.subrange(0, 3));
        } else if b[0] == 0x13 {
            Key::lemma_enc_parse(after(b, 1));
            let m = Key::parse(after(b, 1)).unwrap().1;
            assert(after(b, 1).subrange(0, m) =~= b.subrange(1, 1 + m));
            assert(enc_constr(v) =~= b.subrange(0, 1 + m));
        } else {
            assert(enc_constr(v) =~= b.subrange(0, 1));
        }
    }

    fn read(input: &Vec<u8>, pos: usize) -> (r: Option<(TypeConstr, usize)>) {
        let (tag, at) = match read_u8(input, pos) {
            None => {
                return None;
            },
            Some(r) => r,
        };
        proof {
            lemma_after_after(input@, pos as int, 1);
        }
        if tag == 0x00 {
            Some((TypeConstr::Plain, at))
        } else if tag == 0x10 {
            match read_u16(input, at) {
                Some((n, next)) => Some((TypeConstr::Array(n), next)),
                None => None,
            }
        } else if tag == 0x11 {
            Some((TypeConstr::List, at))
        } else if tag == 0x12 {
            Some((TypeConstr::SetOf, at))
        } else if tag == 0x13 {
            match Key::read(input, at) {
                Some((k, next)) => Some((TypeConstr::MapOf(k), next)),
                None => None,
            }
        } else {
            None
        }
    }
}

/// The name of a structure: its length in 16 bits, then 1 to 32 ASCII
/// characters.
pub struct Name;

impl Wire for Name {
    type Model = Seq<u8>;

    type Item = Vec<u8>;

    open spec fn model(item: Vec<u8>) -> Seq<u8> {
        item@
    }

    open spec fn fits(v: Seq<u8>) -> bool {
        name_fits(v)
    }

    open spec fn enc(v: Seq<u8>) -> Seq<u8> {
        enc_name(v)
    }

    open spec fn parse(b: Seq<u8>) -> Option<(Seq<u8>, int)> {
        match parse_u16(b) {
            None => None,
            Some((len, _)) => if 2 + len <= b.len() && name_fits(b.subrange(2, 2 + len)) {
                Some((b.subrange(2, 2 + len), 2 + len))
            } else {
                None
            },
        }
    }

    proof fn lemma_parse_enc(v: Seq<u8>, rest: Seq<u8>) {
        let b = enc_name(v) + rest;
        assert(b =~= enc_u16(v.len() as u16) + (v + rest));
        lemma_u16_parse_enc(v.len() as u16, v + rest);
        assert(b.subrange(2, 2 + v.len() as int) =~= v);
    }

    proof fn lemma_enc_parse(b: Seq<u8>) {
        lemma_u16_enc_parse(b);
        let (v, n) = Self::parse(b).unwrap();
        assert(enc_name(v) =~= b.subrange(0, 2) + b.subrange(2, n));
        assert(b.subrange(0, 2) + b.subrange(2, n) =~= b.subrange(0, n));
    }

    fn read(input: &Vec<u8>, pos: usize) -> (r: Option<(Vec<u8>, usize)>) {
        let (len, at) = match read_u16(input, pos) {
            None => {
                return None;
            },
            Some(r) => r,
        };
        let len = len as usize;
        if len < 1 || len > 32 || input.len() - at < len {
            return None;
        }
        let ghost here = after(input@, pos as int);
        let ghost want = here.subrange(2, 2 + len);
        let mut name: Vec<u8> = Vec::new();
        let mut i: usize = 0;
        while i < len
            invariant
                i <= len,
                1 <= len <= 32,
                at + len <= input@.len(),
                input@.len() <= usize::MAX,
                at == pos + 2,
                here == after(input@, pos as int),
                parse_u16(here) == Some((len as u16, 2int)),
                want == here.subrange(2, 2 + len),
                name@ == want.subrange(0, i as int),
                forall|j: int| 0 <= j < i ==> want[j] < 0x80,
            decreases len - i,
        {
            let c = input[at + i];
            assert(want[i as int] == c);
            if c >= 0x80 {
                return None;
            }
            name.push(c);
            assert(name@ =~= want.subrange(0, i + 1));
            i = i + 1;
        }
        assert(name@ =~= want);
        Some((name, at + len))
    }
}

/// A reference to a type: whether it names a primitive type or a
/// structure, how the type is built, and what it is built from.
pub struct Reference;

impl Wire for Reference {
    type Model = TypeRefView;

    type Item = TypeRef;

    open spec fn model(item: TypeRef) -> TypeRefView {
        item@
    }

    open spec fn fits(v: TypeRefView) -> bool {
        type_ref_fits(v)
    }

    open spec fn enc(v: TypeRefView) -> Seq<u8> {
        enc_type_ref(v)
    }

    open spec fn parse(b: Seq<u8>) -> Option<(TypeRefView, int)> {
        if b.len() < 1 {
            None
        } else {
            match Constr::parse(after(b, 1)) {
                None => None,
                Some((constr, n)) => if !(0 <= n <= b.len() - 1) {
                    None
                } else if b[0] == 0x00 {
                    match Primitive::parse(after(b, 1 + n)) {
                        Some((p, m)) => Some(
                            (TypeRefView { constr, target: TypeTargetView::Primitive(p) }, 1 + n + m),
                        ),
                        None => None,
                    }
                } else if b[0] == 0x01 {
                    match Name::parse(after(b, 1 + n)) {
                        Some((name, m)) => Some(
                            (TypeRefView { constr, target: TypeTargetView::Named(name) }, 1 + n + m),
                        ),
                        None => None,
                    }
                } else {
                    None
                },
            }
        }
    }

    proof fn lemma_parse_enc(v: TypeRefView, rest: Seq<u8>) {
        let b = enc_type_ref(v) + rest;
        let c = enc_constr(v.constr);
        match v.target {
            TypeTargetView::Primitive(p) => {
                assert(b[0] == 0x00);
                assert(after(b, 1) =~= c + (seq![p.spec_code()] + rest));
                Constr::lemma_parse_enc(v.constr, seq![p.spec_code()] + rest);
                assert(after(b, 1 + c.len() as int) =~= seq![p.spec_code()] + rest);
                Primitive::lemma_parse_enc(p, rest);
            },
            TypeTargetView::Named(name) => {
                assert(b[0] == 0x01);
                assert(after(b, 1) =~= c + (enc_name(name) + rest));
                Constr::lemma_parse_enc(v.constr, enc_name(name) + rest);
                assert(after(b, 1 + c.len() as int) =~= enc_name(name) + rest);
                Name::lemma_parse_enc(name, rest);
            },
        }
    }

    proof fn lemma_enc_parse(b: Seq<u8>) {
        let (v, total) = Self::parse(b).unwrap();
        Constr::lemma_enc_parse(after(b, 1));
        let n = Constr::parse(after(b, 1)).unwrap().1;
        assert(after(b, 1).subrange(0, n) =~= b.subrange(1, 1 + n));
        if b[0] == 0x00 {
            Primitive::lemma_enc_parse(after(b, 1 + n));
            let m = Primitive::parse(after(b, 1 + n)).unwrap().1;
            assert(after(b, 1 + n).subrange(0, m) =~= b.subrange(1 + n, 1 + n + m));
            assert(enc_type_ref(v) =~= b.subrange(0, 1 + n + m));
        } else {
            Name::lemma_enc_parse(after(b, 1 + n));
            let m = Name::parse(after(b, 1 + n)).unwrap().1;
            assert(after(b, 1 + n).subrange(0, m) =~= b.subrange(1 + n, 1 + n + m));
            assert(enc_type_ref(v) =~= b.subrange(0, 1 + n + m));
        }
    }

    fn read(input: &Vec<u8>, pos: usize) -> (r: Option<(TypeRef, usize)>) {
        let (tag, at) = match read_u8(input, pos) {
            None => {
                return None;
            },
            Some(r) => r,
        };
        proof {
            lemma_after_after(input@, pos as int, 1);
        }
        let (constr, at2) = match Constr::read(input, at) {
            None => {
                return None;
            },
            Some(r) => r,
        };
        proof {
            lemma_after_after(input@, pos as int, at2 - pos);
        }
        if tag == 0x00 {
            match Primitive::read(input, at2) {
                Some((p, next)) => Some((TypeRef { constr, target: TypeTarget::Primitive(p) }, next)),
                None => None,
            }
        } else if tag == 0x01 {
            match Name::read(input, at2) {
                Some((name, next)) => Some(
                    (TypeRef { constr, target: TypeTarget::Named(name) }, next),
                ),
                None => None,
            }
        } else {
            None
        }
    }
}

/// A field of a structure: its type, then a byte that says whether it may
/// be left out.
pub struct Field;

impl Wire for Field {
    type Model = StructFieldView;

    type Item = StructField;

    open spec fn model(item: StructField) -> StructFieldView {
        item@
    }

    open spec fn fits(v: StructFieldView) -> bool {
        type_ref_fits(v.ty)
    }

    open spec fn enc(v: StructFieldView) -> Seq<u8> {
        enc_field(v)
    }

    open spec fn parse(b: Seq<u8>) -> Option<(StructFieldView, int)> {
        match Reference::parse(b) {
            None => None,
            Some((ty, n)) => if 0 <= n < b.len() && b[n] <= 1 {
                Some((StructFieldView { ty, optional: b[n] == 1 }, n + 1))
            } else {
                None
            },
        }
    }

    proof fn lemma_parse_enc(v: StructFieldView, rest: Seq<u8>) {
        let b = enc_field(v) + rest;
        let flag = seq![if v.optional { 1u8 } else { 0u8 }];
        assert(b =~= enc_type_ref(v.ty) + (flag + rest));
        Reference::lemma_parse_enc(v.ty, flag + rest);
        assert(b[enc_type_ref(v.ty).len() as int] == flag[0]);
    }

    proof fn lemma_enc_parse(b: Seq<u8>) {
        Reference::lemma_enc_parse(b);
        let (v, total) = Self::parse(b).unwrap();
        let n = Reference::parse(b).unwrap().1;
        assert(enc_field(v) =~= b.subrange(0, n) + b.subrange(n, n + 1));
        assert(b.subrange(0, n) + b.subrange(n, n + 1) =~= b.subrange(0, n + 1));
    }

    fn read(input: &Vec<u8>, pos: usize) -> (r: Option<(StructField, usize)>) {
        let (ty, at) = match Reference::read(input, pos) {
            None => {
                return None;
            },
            Some(r) => r,
        };
        let (flag, next) = match read_u8(input, at) {
            None => {
                return None;
            },
            Some(r) => r,
        };
        assert(after(input@, pos as int)[at - pos] == flag);
        if flag > 1 {
            return None;
        }
        Some((StructField { ty, optional: flag == 1 }, next))
    }
}

/// A state format: a tag, then what the tag calls for.
pub struct State;

impl Wire for State {
    type Model = StateSchemaView;

    type Item = StateSchema;

    open spec fn model(item: StateSchema) -> StateSchemaView {
        item@
    }

    open spec fn fits(v: StateSchemaView) -> bool {
        state_fits(v)
    }

    open spec fn enc(v: StateSchemaView) -> Seq<u8> {
        enc_state(v)
    }

    open spec fn parse(b: Seq<u8>) -> Option<(StateSchemaView, int)> {
        if b.len() < 1 {
            None
        } else if b[0] == 0x00 {
            Some((StateSchemaView::Declarative, 1))
        } else if b[0] == 0x01 {
            if b.len() >= 2 && b[1] == 0x00 {
                Some(
                    (
                        StateSchemaView::DiscreteFiniteField(
                            DiscreteFiniteFieldFormat::Unsigned64bit,
                        ),
                        2,
                    ),
                )
            } else {
                None
            }
        } else if b[0] == 0x02 {
            match Reference::parse(after(b, 1)) {
                Some((t, n)) => Some((StateSchemaView::CustomData(t), 1 + n)),
                None => None,
            }
        } else if b[0] == 0x03 {
            Some((StateSchemaView::DataContainer, 1))
        } else {
            None
        }
    }

    proof fn lemma_parse_enc(v: StateSchemaView, rest: Seq<u8>) {
        let b = enc_state(v) + rest;
        match v {
            StateSchemaView::Declarative => {
                assert(b[0] == 0x00);
            },
            StateSchemaView::DiscreteFiniteField(f) => {
                assert(b[0] == 0x01);
                assert(b[1] == 0x00);
            },
            StateSchemaView::CustomData(t) => {
                assert(b[0] == 0x02);
                assert(after(b, 1) =~= enc_type_ref(t) + rest);
                Reference::lemma_parse_enc(t, rest);
            },
            StateSchemaView::DataContainer => {
                assert(b[0] == 0x03);
            },
        }
    }

    proof fn lemma_enc_parse(b: Seq<u8>) {
        let (v, n) = Self::parse(b).unwrap();
        if b[0] == 0x02 {
            Reference::lemma_enc_parse(after(b, 1));
            let m = Reference::parse(after(b, 1)).unwrap().1;
            assert(after(b, 1).subrange(0, m) =~= b.subrange(1, 1 + m));
            assert(enc_state(v) =~= b.subrange(0, 1 + m));
        } else {
            assert(enc_state(v) =~= b.subrange(0, n));
        }
    }

    fn read(input: &Vec<u8>, pos: usize) -> (r: Option<(StateSchema, usize)>) {
        let (tag, at) = match read_u8(input, pos) {
            None => {
                return None;
            },
            Some(r) => r,
        };
        proof {
            lemma_after_after(input@, pos as int, 1);
        }
        if tag == 0x00 {
            Some((StateSchema::Declarative, at))
        } else if tag == 0x01 {
            let (format, next) = match read_u8(input, at) {
                None => {
                    return None;
                },
                Some(r) => r,
            };
            assert(after(input@, pos as int)[1] == format);
            if format != 0x00 {
                return None;
            }
            Some((StateSchema::DiscreteFiniteField(DiscreteFiniteFieldFormat::Unsigned64bit), next))
        } else if tag == 0x02 {
            match Reference::read(input, at) {
                Some((t, next)) => Some((StateSchema::CustomData(t), next)),
                None => None,
            }
        } else if tag == 0x03 {
            Some((StateSchema::DataContainer, at))
        } else {
            None
        }
    }
}

/// An entry of a table of occurrences: the code, then the range.
pub type Slot = Pair<Short, Range>;

/// A table of occurrences.
pub type Table = ListOf<Slot>;

/// A list of codes.
pub type Codes = ListOf<Short>;

/// An entry of the catalogue of field types.
pub type FieldEntry = Pair<Short, Reference>;

/// An entry of the catalogue of owned right types.
pub type RightEntry = Pair<Short, State>;

/// The entries of a table, one after the other, are what the encoder of
/// tables writes after the count.
pub proof fn lemma_slots_bytes(s: Seq<(u16, Occurrences)>)
    ensures
        enc_slots(s) == enc_many::<Slot>(s),
        enc_table(s) == enc_list::<Slot>(s),
        table_fits(s) == list_fits::<Slot>(s),
    decreases s.len(),
{
    if s.len() > 0 {
        lemma_slots_bytes(s.drop_last());
        assert(enc_slots(s) =~= enc_many::<Slot>(s));
    }
    if table_fits(s) {
        assert forall|i: int| 0 <= i < s.len() implies Slot::fits(#[trigger] s[i]) by {}
    }
    if list_fits::<Slot>(s) {
        assert forall|i: int| 0 <= i < s.len() implies occurrences_fit((#[trigger] s[i]).1) by {
            assert(Slot::fits(s[i]));
        }
    }
}

/// The codes of a list, one after the other, are what the encoder of code
/// lists writes after the count.
pub proof fn lemma_codes_bytes(s: Seq<u16>)
    ensures
        enc_code_items(s) == enc_many::<Short>(s),
        enc_codes(s) == enc_list::<Short>(s),
        s.len() <= 0xffff <==> list_fits::<Short>(s),
    decreases s.len(),
{
    if s.len() > 0 {
        lemma_codes_bytes(s.drop_last());
    }
}

/// The fields of a structure, one after the other, are what the encoder of
/// structures writes after the count.
pub proof fn lemma_fields_bytes(s: Seq<StructFieldView>)
    ensures
        enc_fields(s) == enc_many::<Field>(s),
        (forall|i: int| 0 <= i < s.len() ==> type_ref_fits((#[trigger] s[i]).ty)) == all_fit::<
            Field,
        >(s),
    decreases s.len(),
{
    if s.len() > 0 {
        lemma_fields_bytes(s.drop_last());
    }
    if forall|i: int| 0 <= i < s.len() ==> type_ref_fits((#[trigger] s[i]).ty) {
        assert forall|i: int| 0 <= i < s.len() implies Field::fits(#[trigger] s[i]) by {}
    }
    if all_fit::<Field>(s) {
        assert forall|i: int| 0 <= i < s.len() implies type_ref_fits((#[trigger] s[i]).ty) by {
            assert(Field::fits(s[i]));
        }
    }
}

/// The entries of the catalogue of field types, one after the other, are
/// what the encoder writes after the count.
pub proof fn lemma_field_types_bytes(s: Seq<(u16, TypeRefView)>)
    ensures
        enc_field_type_items(s) == enc_many::<FieldEntry>(s),
        field_types_fit(s) == list_fits::<FieldEntry>(s),
    decreases s.len(),
{
    if s.len() > 0 {
        lemma_field_types_bytes(s.drop_last());
        assert(enc_field_type_items(s) =~= enc_many::<FieldEntry>(s));
    }
    if field_types_fit(s) {
        assert forall|i: int| 0 <= i < s.len() implies FieldEntry::fits(#[trigger] s[i]) by {}
    }
    if list_fits::<FieldEntry>(s) {
        assert forall|i: int| 0 <= i < s.len() implies type_ref_fits((#[trigger] s[i]).1) by {
            assert(FieldEntry::fits(s[i]));
        }
    }
}

/// The entries of the catalogue of owned right types, one after the other,
/// are what the encoder writes after the count.
pub proof fn lemma_right_types_bytes(s: Seq<(u16, StateSchemaView)>)
    ensures
        enc_right_type_items(s) == enc_many::<RightEntry>(s),
        right_types_fit(s) == list_fits::<RightEntry>(s),
    decreases s.len(),
{
    if s.len() > 0 {
        lemma_right_types_bytes(s.drop_last());
        assert(enc_right_type_items(s) =~= enc_many::<RightEntry>(s));
    }
    if right_types_fit(s) {
        assert forall|i: int| 0 <= i < s.len() implies RightEntry::fits(#[trigger] s[i]) by {}
    }
    if list_fits::<RightEntry>(s) {
        assert forall|i: int| 0 <= i < s.len() implies state_fits((#[trigger] s[i]).1) by {
            assert(RightEntry::fits(s[i]));
        }
    }
}

/// The models of the entries of a table are the entries.
pub proof fn lemma_slot_models(v: Seq<(u16, Occurrences)>)
    ensures
        models::<Slot>(v) == v,
{
    assert(models::<Slot>(v) =~= v);
}

/// The models of codes are the codes.
pub proof fn lemma_code_models(v: Seq<u16>)
    ensures
        models::<Short>(v) == v,
{
    assert(models::<Short>(v) =~= v);
}

/// A structure: its name, then its fields, of which there is at least one.
pub struct Structure;

impl Wire for Structure {
    type Model = StructTypeView;

    type Item = StructType;

    open spec fn model(item: StructType) -> StructTypeView {
        item@
    }

    open spec fn fits(v: StructTypeView) -> bool {
        struct_fits(v)
    }

    open spec fn enc(v: StructTypeView) -> Seq<u8> {
        enc_struct(v)
    }

    open spec fn parse(b: Seq<u8>) -> Option<(StructTypeView, int)> {
        match Pair::<Name, ListOf<Field>>::parse(b) {
            None => None,
            Some(((name, fields), n)) => if fields.len() >= 1 {
                Some((StructTypeView { name, fields }, n))
            } else {
                None
            },
        }
    }

    proof fn lemma_parse_enc(v: StructTypeView, rest: Seq<u8>) {
        lemma_fields_bytes(v.fields);
        assert(enc_struct(v) =~= Pair::<Name, ListOf<Field>>::enc((v.name, v.fields)));
        Pair::<Name, ListOf<Field>>::lemma_parse_enc((v.name, v.fields), rest);
    }

    proof fn lemma_enc_parse(b: Seq<u8>) {
        Pair::<Name, ListOf<Field>>::lemma_enc_parse(b);
        let v = Self::parse(b).unwrap().0;
        lemma_fields_bytes(v.fields);
        assert(enc_struct(v) =~= Pair::<Name, ListOf<Field>>::enc((v.name, v.fields)));
    }

    fn read(input: &Vec<u8>, pos: usize) -> (r: Option<(StructType, usize)>) {
        match Pair::<Name, ListOf<Field>>::read(input, pos) {
            None => None,
            Some(((name, fields), next)) => {
                if fields.len() < 1 {
                    return None;
                }
                let item = StructType { name, fields };
                assert(item@.fields =~= models::<Field>(fields@));
                Some((item, next))
            },
        }
    }
}

/// The structures of a type system, one after the other, are what the
/// encoder writes after the count.
pub proof fn lemma_structs_bytes(s: Seq<StructTypeView>)
    ensures
        enc_structs(s) == enc_many::<Structure>(s),
        type_system_fits(s) == list_fits::<Structure>(s),
    decreases s.len(),
{
    if s.len() > 0 {
        lemma_structs_bytes(s.drop_last());
    }
    if type_system_fits(s) {
        assert forall|i: int| 0 <= i < s.len() implies Structure::fits(#[trigger] s[i]) by {}
    }
    if list_fits::<Structure>(s) {
        assert forall|i: int| 0 <= i < s.len() implies struct_fits(#[trigger] s[i]) by {
            assert(Structure::fits(s[i]));
        }
    }
}

/// The four parts of the schema of a transition.
pub type NodeParts = Pair<Table, Pair<Table, Pair<Table, Codes>>>;

/// The schema of a transition: its metadata, what it closes, its owned
/// rights and its public rights.
pub struct Node;

impl Node {
    /// The parts of the schema of a transition.
    pub open spec fn parts(v: TransitionSchemaView) -> <NodeParts as Wire>::Model {
        (v.metadata, (v.closes, (v.owned_rights, v.public_rights)))
    }

    /// The parts have the same byte form as the whole.
    pub proof fn lemma_parts(v: TransitionSchemaView)
        ensures
            enc_transition(v) == NodeParts::enc(Self::parts(v)),
            transition_fits(v) == NodeParts::fits(Self::parts(v)),
    {
        lemma_slots_bytes(v.metadata);
        lemma_slots_bytes(v.closes);
        lemma_slots_bytes(v.owned_rights);
        lemma_codes_bytes(v.public_rights);
        assert(enc_transition(v) =~= NodeParts::enc(Self::parts(v)));
    }
}

impl Wire for Node {
    type Model = TransitionSchemaView;

    type Item = TransitionSchema;

    open spec fn model(item: TransitionSchema) -> TransitionSchemaView {
        item@
    }

    open spec fn fits(v: TransitionSchemaView) -> bool {
        transition_fits(v)
    }

    open spec fn enc(v: TransitionSchemaView) -> Seq<u8> {
        enc_transition(v)
    }

    open spec fn parse(b: Seq<u8>) -> Option<(TransitionSchemaView, int)> {
        match NodeParts::parse(b) {
            None => None,
            Some(((metadata, (closes, (owned_rights, public_rights))), n)) => Some(
                (TransitionSchemaView { metadata, closes, owned_rights, public_rights }, n),
            ),
        }
    }

    proof fn lemma_parse_enc(v: TransitionSchemaView, rest: Seq<u8>) {
        Self::lemma_parts(v);
        NodeParts::lemma_parse_enc(Self::parts(v), rest);
    }

    proof fn lemma_enc_parse(b: Seq<u8>) {
        NodeParts::lemma_enc_parse(b);
        Self::lemma_parts(Self::parse(b).unwrap().0);
    }

    fn read(input: &Vec<u8>, pos: usize) -> (r: Option<(TransitionSchema, usize)>) {
        match NodeParts::read(input, pos) {
            None => None,
            Some(((metadata, (closes, (owned_rights, public_rights))), next)) => {
                proof {
                    lemma_slot_models(metadata@);
                    lemma_slot_models(closes@);
                    lemma_slot_models(owned_rights@);
                    lemma_code_models(public_rights@);
                }
                Some(
                    (
                        TransitionSchema {
                            metadata: TypeMap { entries: metadata },
                            closes: TypeMap { entries: closes },
                            owned_rights: TypeMap { entries: owned_rights },
                            public_rights,
                        },
                        next,
                    ),
                )
            },
        }
    }
}

/// The three parts of the schema of a genesis.
pub type RootParts = Pair<Table, Pair<Table, Codes>>;

/// The schema of a genesis: its metadata, its owned rights and its public
/// rights.
pub struct RootNode;

impl RootNode {
    /// The parts of the schema of a genesis.
    pub open spec fn parts(v: GenesisSchemaView) -> <RootParts as Wire>::Model {
        (v.metadata, (v.owned_rights, v.public_rights))
    }

    /// The parts have the same byte form as the whole.
    pub proof fn lemma_parts(v: GenesisSchemaView)
        ensures
            enc_genesis(v) == RootParts::enc(Self::parts(v)),
            genesis_fits(v) == RootParts::fits(Self::parts(v)),
    {
        lemma_slots_bytes(v.metadata);
        lemma_slots_bytes(v.owned_rights);
        lemma_codes_bytes(v.public_rights);
        assert(enc_genesis(v) =~= RootParts::enc(Self::parts(v)));
    }
}

impl Wire for RootNode {
    type Model = GenesisSchemaView;

    type Item = GenesisSchema;

    open spec fn model(item: GenesisSchema) -> GenesisSchemaView {
        item@
    }

    open spec fn fits(v: GenesisSchemaView) -> bool {
        genesis_fits(v)
    }

    open spec fn enc(v: GenesisSchemaView) -> Seq<u8> {
        enc_genesis(v)
    }

    open spec fn parse(b: Seq<u8>) -> Option<(GenesisSchemaView, int)> {
        match RootParts::parse(b) {
            None => None,
            Some(((metadata, (owned_rights, public_rights)), n)) => Some(
                (GenesisSchemaView { metadata, owned_rights, public_rights }, n),
            ),
        }
    }

    proof fn lemma_parse_enc(v: GenesisSchemaView, rest: Seq<u8>) {
        Self::lemma_parts(v);
        RootParts::lemma_parse_enc(Self::parts(v), rest);
    }

    proof fn lemma_enc_parse(b: Seq<u8>) {
        RootParts::lemma_enc_parse(b);
        Self::lemma_parts(Self::parse(b).unwrap().0);
    }

    fn read(input: &Vec<u8>, pos: usize) -> (r: Option<(GenesisSchema, usize)>) {
        match RootParts::read(input, pos) {
            None => None,
            Some(((metadata, (owned_rights, public_rights)), next)) => {
                proof {
                    lemma_slot_models(metadata@);
                    lemma_slot_models(owned_rights@);
                    lemma_code_models(public_rights@);
                }
                Some(
                    (
                        GenesisSchema {
                            metadata: TypeMap { entries: metadata },
                            owned_rights: TypeMap { entries: owned_rights },
                            public_rights,
                        },
                        next,
                    ),
                )
            },
        }
    }
}

/// An entry of the transitions of a schema.
pub type TransitionEntry = Pair<Short, Node>;

/// The transitions of a schema, one after the other, are what the encoder
/// writes after the count.
pub proof fn lemma_transitions_bytes(s: Seq<(u16, TransitionSchemaView)>)
    ensures
        enc_transition_items(s) == enc_many::<TransitionEntry>(s),
        transitions_fit(s) == list_fits::<TransitionEntry>(s),
    decreases s.len(),
{
    if s.len() > 0 {
        lemma_transitions_bytes(s.drop_last());
        assert(enc_transition_items(s) =~= enc_many::<TransitionEntry>(s));
    }
    if transitions_fit(s) {
        assert forall|i: int| 0 <= i < s.len() implies TransitionEntry::fits(#[trigger] s[i]) by {}
    }
    if list_fits::<TransitionEntry>(s) {
        assert forall|i: int| 0 <= i < s.len() implies transition_fits((#[trigger] s[i]).1) by {
            assert(TransitionEntry::fits(s[i]));
        }
    }
}

/// An empty list that the schema leaves no room for: two zero bytes.
pub struct Nothing;

impl Wire for Nothing {
    type Model = ();

    type Item = ();

    open spec fn model(item: ()) -> () {
        ()
    }

    open spec fn fits(v: ()) -> bool {
        true
    }

    open spec fn enc(v: ()) -> Seq<u8> {
        enc_len(0)
    }

    open spec fn parse(b: Seq<u8>) -> Option<((), int)> {
        if parse_u16(b) == Some((0u16, 2int)) {
            Some(((), 2))
        } else {
            None
        }
    }

    proof fn lemma_parse_enc(v: (), rest: Seq<u8>) {
        lemma_u16_parse_enc(0, rest);
    }

    proof fn lemma_enc_parse(b: Seq<u8>) {
        lemma_u16_enc_parse(b);
    }

    fn read(input: &Vec<u8>, pos: usize) -> (r: Option<((), usize)>) {
        match read_u16(input, pos) {
            Some((v, next)) => if v == 0 {
                Some(((), next))
            } else {
                None
            },
            None => None,
        }
    }
}

/// The identifier of the root schema: 32 bytes, all zero where there is no
/// root.
pub struct RootId;

impl Wire for RootId {
    type Model = Option<Seq<u8>>;

    type Item = Option<SchemaId>;

    open spec fn model(item: Option<SchemaId>) -> Option<Seq<u8>> {
        match item {
            Some(id) => Some(id@),
            None => None,
        }
    }

    open spec fn fits(v: Option<Seq<u8>>) -> bool {
        v matches Some(id) ==> id.len() == 32 && id != no_root()
    }

    open spec fn enc(v: Option<Seq<u8>>) -> Seq<u8> {
        enc_root(v)
    }

    open spec fn parse(b: Seq<u8>) -> Option<(Option<Seq<u8>>, int)> {
        if b.len() >= 32 {
            if b.subrange(0, 32) == no_root() {
                Some((None, 32))
            } else {
                Some((Some(b.subrange(0, 32)), 32))
            }
        } else {
            None
        }
    }

    proof fn lemma_parse_enc(v: Option<Seq<u8>>, rest: Seq<u8>) {
        let b = enc_root(v) + rest;
        assert(b.subrange(0, 32) =~= enc_root(v));
    }

    proof fn lemma_enc_parse(b: Seq<u8>) {
    }

    fn read(input: &Vec<u8>, pos: usize) -> (r: Option<(Option<SchemaId>, usize)>) {
        if input.len() - pos < 32 {
            return None;
        }
        let ghost here = after(input@, pos as int);
        let mut bytes: [u8; 32] = [0u8; 32];
        let mut zero = true;
        let mut i: usize = 0;
        while i < 32
            invariant
                i <= 32,
                pos + 32 <= input@.len(),
                input@.len() <= usize::MAX,
                here == after(input@, pos as int),
                forall|j: int| 0 <= j < i ==> bytes@[j] == here[j],
                zero <==> forall|j: int| 0 <= j < i ==> here[j] == 0,
            decreases 32 - i,
        {
            let b = input[pos + i];
            assert(here[i as int] == b);
            bytes[i] = b;
            if b != 0 {
                zero = false;
            }
            i = i + 1;
        }
        proof {
            assert(bytes@ =~= here.subrange(0, 32));
            if zero {
                assert(here.subrange(0, 32) =~= no_root());
            } else {
                let j = choose|j: int| 0 <= j < 32 && here[j] != 0;
                assert(here.subrange(0, 32)[j] != no_root()[j]);
            }
        }
        if zero {
            Some((None, pos + 32))
        } else {
            Some((Some(SchemaId { bytes }), pos + 32))
        }
    }
}

/// The validation code: one zero byte for the code built into the library.
pub struct Script;

impl Wire for Script {
    type Model = ValidationScript;

    type Item = ValidationScript;

    open spec fn model(item: ValidationScript) -> ValidationScript {
        item
    }

    open spec fn fits(v: ValidationScript) -> bool {
        true
    }

    open spec fn enc(v: ValidationScript) -> Seq<u8> {
        seq![0x00u8]
    }

    open spec fn parse(b: Seq<u8>) -> Option<(ValidationScript, int)> {
        if b.len() >= 1 && b[0] == 0x00 {
            Some((ValidationScript::Embedded, 1))
        } else {
            None
        }
    }

    proof fn lemma_parse_enc(v: ValidationScript, rest: Seq<u8>) {
        assert((Self::enc(v) + rest)[0] == 0x00);
    }

    proof fn lemma_enc_parse(b: Seq<u8>) {
        assert(Self::enc(Self::parse(b).unwrap().0) =~= b.subrange(0, 1));
    }

    fn read(input: &Vec<u8>, pos: usize) -> (r: Option<(ValidationScript, usize)>) {
        match read_u8(input, pos) {
            Some((v, next)) => if v == 0 {
                Some((ValidationScript::Embedded, next))
            } else {
                None
            },
            None => None,
        }
    }
}

/// The override rules: one byte.
pub struct Overrides;

impl Wire for Overrides {
    type Model = OverrideRules;

    type Item = OverrideRules;

    open spec fn model(item: OverrideRules) -> OverrideRules {
        item
    }

    open spec fn fits(v: OverrideRules) -> bool {
        true
    }

    open spec fn enc(v: OverrideRules) -> Seq<u8> {
        seq![override_code(v)]
    }

    open spec fn parse(b: Seq<u8>) -> Option<(OverrideRules, int)> {
        if b.len() < 1 {
            None
        } else if b[0] == 0 {
            Some((OverrideRules::Deny, 1))
        } else if b[0] == 1 {
            Some((OverrideRules::AllowSameVm, 1))
        } else if b[0] == 2 {
            Some((OverrideRules::AllowAnyVm, 1))
        } else {
            None
        }
    }

    proof fn lemma_parse_enc(v: OverrideRules, rest: Seq<u8>) {
        assert((Self::enc(v) + rest)[0] == override_code(v));
    }

    proof fn lemma_enc_parse(b: Seq<u8>) {
        assert(Self::enc(Self::parse(b).unwrap().0) =~= b.subrange(0, 1));
    }

    fn read(input: &Vec<u8>, pos: usize) -> (r: Option<(OverrideRules, usize)>) {
        match read_u8(input, pos) {
            Some((v, next)) => if v == 0 {
                Some((OverrideRules::Deny, next))
            } else if v == 1 {
                Some((OverrideRules::AllowSameVm, next))
            } else if v == 2 {
                Some((OverrideRules::AllowAnyVm, next))
            } else {
                None
            },
            None => None,
        }
    }
}

/// The tail of a schema: the transitions, the validation code and the
/// override rules.
pub type Tail = Pair<ListOf<TransitionEntry>, Pair<Script, Overrides>>;

/// The middle of a schema: the public right types, the genesis, no
/// extensions, and the tail.
pub type Middle = Pair<Codes, Pair<RootNode, Pair<Nothing, Tail>>>;

/// The parts of a schema, in the order of its byte form.
pub type Parts = Pair<
    Nothing,
    Pair<RootId, Pair<ListOf<Structure>, Pair<ListOf<FieldEntry>, Pair<ListOf<RightEntry>, Middle>>>>,
>;

/// The parts of a schema.
pub open spec fn parts_of(v: SchemaView) -> <Parts as Wire>::Model {
    (
        (),
        (
            v.root_id,
            (
                v.type_system,
                (
                    v.field_types,
                    (
                        v.owned_right_types,
                        (
                            v.public_right_types,
                            (v.genesis, ((), (v.transitions, (v.script, v.override_rules)))),
                        ),
                    ),
                ),
            ),
        ),
    )
}

/// The schema made of the given parts.
pub open spec fn schema_of(p: <Parts as Wire>::Model) -> SchemaView {
    SchemaView {
        root_id: p.1.0,
        type_system: p.1.1.0,
        field_types: p.1.1.1.0,
        owned_right_types: p.1.1.1.1.0,
        public_right_types: p.1.1.1.1.1.0,
        genesis: p.1.1.1.1.1.1.0,
        transitions: p.1.1.1.1.1.1.1.1.0,
        script: p.1.1.1.1.1.1.1.1.1.0,
        override_rules: p.1.1.1.1.1.1.1.1.1.1,
    }
}

/// Joining byte strings does not depend on how they are grouped.
pub proof fn lemma_join(a: Seq<u8>, b: Seq<u8>, c: Seq<u8>)
    ensures
        (a + b) + c == a + (b + c),
{
    assert((a + b) + c =~= a + (b + c));
}

/// The parts of a schema have a byte form exactly when the schema has one.
pub proof fn lemma_parts_fit(v: SchemaView)
    ensures
        schema_fits(v) == Parts::fits(parts_of(v)),
        schema_of(parts_of(v)) == v,
{
    lemma_structs_bytes(v.type_system);
    lemma_field_types_bytes(v.field_types);
    lemma_right_types_bytes(v.owned_right_types);
    lemma_codes_bytes(v.public_right_types);
    RootNode::lemma_parts(v.genesis);
    lemma_transitions_bytes(v.transitions);
}

/// The parts of a schema have the byte form of the schema.
pub proof fn lemma_parts_bytes(v: SchemaView)
    ensures
        enc_schema(v) == Parts::enc(parts_of(v)),
{
    lemma_structs_bytes(v.type_system);
    lemma_field_types_bytes(v.field_types);
    lemma_right_types_bytes(v.owned_right_types);
    lemma_codes_bytes(v.public_right_types);
    lemma_transitions_bytes(v.transitions);
    let a0 = enc_len(0);
    let a1 = enc_root(v.root_id);
    let a2 = enc_type_system(v.type_system);
    let a3l = enc_len(v.field_types.len());
    let a3i = enc_field_type_items(v.field_types);
    let a4l = enc_len(v.owned_right_types.len());
    let a4i = enc_right_type_items(v.owned_right_types);
    let a5 = enc_codes(v.public_right_types);
    let a6 = enc_genesis(v.genesis);
    let a7 = enc_len(0);
    let a8l = enc_len(v.transitions.len());
    let a8i = enc_transition_items(v.transitions);
    let a9 = seq![0x00u8];
    let a10 = seq![override_code(v.override_rules)];
    let r9 = a9 + a10;
    let r8 = (a8l + a8i) + r9;
    let r7 = a7 + r8;
    let r6 = a6 + r7;
    let r5 = a5 + r6;
    let r4 = (a4l + a4i) + r5;
    let r3 = (a3l + a3i) + r4;
    let r2 = a2 + r3;
    let r1 = a1 + r2;
    let r0 = a0 + r1;
    assert(Tail::enc((v.transitions, (v.script, v.override_rules))) == r8);
    assert(Middle::enc(parts_of(v).1.1.1.1.1) == r5);
    assert(Parts::enc(parts_of(v)) == r0);
    let l1 = a0 + a1;
    let l2 = l1 + a2;
    let l3 = l2 + a3l + a3i;
    let l4 = l3 + a4l + a4i;
    let l5 = l4 + a5;
    let l6 = l5 + a6;
    let l7 = l6 + a7;
    let l8 = l7 + a8l + a8i;
    let l9 = l8 + a9;
    assert(enc_schema(v) == l9 + a10);
    lemma_join(l8, a9, a10);
    lemma_join(l7, a8l, a8i);
    lemma_join(l7, a8l + a8i, r9);
    lemma_join(l6, a7, r8);
    lemma_join(l5, a6, r7);
    lemma_join(l4, a5, r6);
    lemma_join(l3, a4l, a4i);
    lemma_join(l3, a4l + a4i, r5);
    lemma_join(l2, a3l, a3i);
    lemma_join(l2, a3l + a3i, r4);
    lemma_join(l1, a2, r3);
    lemma_join(a0, a1, r2);
}

/// Reads a schema off the front of `b`.
pub open spec fn parse_schema(b: Seq<u8>) -> Option<(SchemaView, int)> {
    match Parts::parse(b) {
        Some((p, n)) => Some((schema_of(p), n)),
        None => None,
    }
}

/// The schema that `b` is the byte form of, if there is one: `b` must hold
/// the byte form of a schema and nothing more, with every table in
/// increasing order of code.
pub open spec fn decode_schema(b: Seq<u8>) -> Option<SchemaView> {
    match parse_schema(b) {
        Some((v, n)) => if n == b.len() && v.wf() {
            Some(v)
        } else {
            None
        },
        None => None,
    }
}

/// The parser of schemata undoes their encoding, whatever follows it.
pub proof fn lemma_schema_parse_enc(v: SchemaView, rest: Seq<u8>)
    requires
        schema_fits(v),
    ensures
        parse_schema(enc_schema(v) + rest) == Some((v, enc_schema(v).len() as int)),
{
    lemma_parts_bytes(v);
    lemma_parts_fit(v);
    Parts::lemma_parse_enc(parts_of(v), rest);
}

/// Decoding undoes encoding: the byte form of a schema is read back as
/// that schema.
pub proof fn law_decode_undoes_encode(v: SchemaView)
    requires
        v.wf(),
        schema_fits(v),
    ensures
        decode_schema(enc_schema(v)) == Some(v),
{
    lemma_schema_parse_enc(v, Seq::empty());
    assert(enc_schema(v) + Seq::<u8>::empty() =~= enc_schema(v));
}

/// The parts of the schema made of given parts are those parts.
pub proof fn lemma_schema_parts(p: <Parts as Wire>::Model)
    ensures
        parts_of(schema_of(p)) == p,
{
}

/// What is read off the front of a byte string as a schema is the byte
/// form of that schema.
pub proof fn lemma_schema_enc_parse(b: Seq<u8>)
    requires
        parse_schema(b) is Some,
    ensures
        0 <= parse_schema(b).unwrap().1 <= b.len(),
        schema_fits(parse_schema(b).unwrap().0),
        enc_schema(parse_schema(b).unwrap().0) == b.subrange(0, parse_schema(b).unwrap().1),
{
    Parts::lemma_enc_parse(b);
    let p = Parts::parse(b).unwrap().0;
    lemma_schema_parts(p);
    lemma_parts_bytes(schema_of(p));
    lemma_parts_fit(schema_of(p));
}

/// Encoding undoes decoding: what is read back as a schema is the byte
/// form of that schema, so no two byte strings stand for one schema.
pub proof fn law_encode_undoes_decode(b: Seq<u8>)
    requires
        decode_schema(b) is Some,
    ensures
        decode_schema(b).unwrap().wf(),
        schema_fits(decode_schema(b).unwrap()),
        enc_schema(decode_schema(b).unwrap()) == b,
{
    lemma_schema_enc_parse(b);
    assert(b.subrange(0, b.len() as int) =~= b);
}

impl GenesisSchema {
    /// Decides [`GenesisSchema::wf`].
    pub fn is_wf(&self) -> (r: bool)
        ensures
            r == self.wf(),
    {
        entries_increase(&self.metadata.entries) && entries_increase(&self.owned_rights.entries)
            && codes_increase(&self.public_rights)
    }
}

impl TransitionSchema {
    /// Decides [`TransitionSchema::wf`].
    pub fn is_wf(&self) -> (r: bool)
        ensures
            r == self.wf(),
    {
        entries_increase(&self.metadata.entries) && entries_increase(&self.closes.entries)
            && entries_increase(&self.owned_rights.entries) && codes_increase(&self.public_rights)
    }
}

impl Schema {
    /// Decides [`Schema::wf`].
    pub fn is_wf(&self) -> (r: bool)
        ensures
            r == self.wf(),
    {
        proof {
            lemma_view_entries(self.field_types.entries@, 0);
            lemma_view_entries(self.owned_right_types.entries@, 0);
            lemma_view_entries(self.transitions.entries@, 0);
        }
        if !entries_increase(&self.field_types.entries) {
            return false;
        }
        if !entries_increase(&self.owned_right_types.entries) {
            return false;
        }
        if !codes_increase(&self.public_right_types) {
            return false;
        }
        if !self.genesis.is_wf() {
            return false;
        }
        if !entries_increase(&self.transitions.entries) {
            return false;
        }
        let ghost views = self@.transitions;
        let mut i: usize = 0;
        while i < self.transitions.entries.len()
            invariant
                i <= self.transitions.entries@.len(),
                views == view_entries(self.transitions.entries@),
                forall|j: int| 0 <= j < i ==> (#[trigger] views[j]).1.wf(),
            decreases self.transitions.entries@.len() - i,
        {
            assert(views[i as int].1 == self.transitions.entries@[i as int].1@);
            if !self.transitions.entries[i].1.is_wf() {
                return false;
            }
            i = i + 1;
        }
        true
    }

    /// Reads a schema back from its canonical byte form. Bytes that are
    /// not the byte form of a schema, in whole, give `None`.
    pub fn strict_deserialize(bytes: &Vec<u8>) -> (r: Option<Schema>)
        ensures
            match r {
                Some(schema) => decode_schema(bytes@) == Some(schema@),
                None => decode_schema(bytes@) is None,
            },
    {
        assert(after(bytes@, 0) =~= bytes@);
        let (parts, next) = match Parts::read(bytes, 0) {
            None => {
                return None;
            },
            Some(r) => r,
        };
        if next != bytes.len() {
            return None;
        }
        let (_, (root_id, (types, (field_types, (owned_right_types, middle))))) = parts;
        let (public_right_types, (genesis, (_, (transitions, (script, override_rules))))) = middle;
        let schema = Schema {
            root_id,
            type_system: TypeSystem { types },
            field_types: TypeMap { entries: field_types },
            owned_right_types: TypeMap { entries: owned_right_types },
            public_right_types,
            genesis,
            transitions: TypeMap { entries: transitions },
            script,
            override_rules,
        };
        proof {
            let p = Parts::parse(bytes@).unwrap().0;
            lemma_code_models(schema.public_right_types@);
            assert(schema@.type_system =~= p.1.1.0);
            assert(schema@.field_types =~= p.1.1.1.0);
            assert(schema@.owned_right_types =~= p.1.1.1.1.0);
            assert(schema@.transitions =~= p.1.1.1.1.1.1.1.1.0);
            assert(schema@ == schema_of(p));
        }
        if !schema.is_wf() {
            return None;
        }
        Some(schema)
    }
}

} // verus!
