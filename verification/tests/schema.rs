use lnpbp::bech32::Bech32ZipString;
use rgb121::codes::{FieldType, OwnedRightType, TransitionType};
use rgb121::error::{Error, Mismatch, NodeKind, Slot, Validity};
use rgb121::occurrences::{Bound, Occurrences};
use rgb121::schema::{schema, subschema, Schema, SCHEMA_ID_BECH32, SUBSCHEMA_ID_BECH32};
use rgb121::types::{PrimitiveType, StateSchema, TypeRef};
use strict_encoding::{StrictDecode, StrictEncode};

#[test]
fn schema_id() {
    let id = schema().schema_id().expect("the schema has a byte form");
    assert_eq!(id.to_string(), SCHEMA_ID_BECH32);
    assert_eq!(
        id.to_string(),
        "rgbsh1ykclt9qxkskqt88dwgccsp4w624k7adjwj06sknjkh04ygtc7rqsnykld7"
    );
}

#[test]
fn subschema_id() {
    let id = subschema().schema_id().expect("the subschema has a byte form");
    assert_eq!(id.to_string(), SUBSCHEMA_ID_BECH32);
    assert_eq!(
        id.to_string(),
        "rgbsh1ep4k4qvghntwptcn0gqmfpdvr8vz3amslvy4pc7s32u7h500l5hqxlzjsk"
    );
}

#[test]
fn schema_strict_encode() {
    let data = schema()
        .strict_serialize()
        .expect("RGB-121 schema serialization failed");

    let bech32data = data.bech32_zip_string();
    println!("{}", bech32data);

    let schema121 =
        Schema::strict_deserialize(&data).expect("RGB-121 schema deserialization failed");

    assert_eq!(schema(), schema121);
    assert_eq!(format!("{:#?}", schema()), format!("{:#?}", schema121));
    assert_eq!(
        bech32data,
        "z1qxz56wgwcfqqe894xuf8fzlcqqlc9q386zjgzfjg8sn5fapuytlkyxtmjv3g0994wej8k0pnmp7gy8wweln0\
        928035szpch64fhjf33kqr5ug7w0p58r7v2s2dr0ucm9vv3tp2rfp8df0wehq5wmg29dc3wat7lgtrucvuhya3a\
        tf0h0h5mskce6g79lghpjv6whxxrcuzfkfc3zcdz4rnnahey4wv43ejfn7eajpk0"
    );
}

#[test]
fn subschema_verify() {
    let status = subschema().schema_verify(&schema());
    assert_eq!(status.validity(), Validity::Valid);
}

#[test]
fn schema_is_built_the_same_every_time() {
    assert_eq!(schema(), schema());
    assert_eq!(subschema(), subschema());
    assert_eq!(schema().schema_id(), schema().schema_id());
    assert_eq!(subschema().schema_id(), subschema().schema_id());
    assert!(schema().is_wf());
    assert!(subschema().is_wf());
}

#[test]
fn subschema_names_the_schema_as_root() {
    assert_eq!(schema().root_id, None);
    assert_eq!(subschema().root_id, schema().schema_id());
    assert!(subschema().transitions.get(TransitionType::Engraving.code()).is_none());
    assert!(schema().transitions.get(TransitionType::Engraving.code()).is_some());
}

#[test]
fn schema_declares_the_documented_ranges() {
    let s = schema();
    assert_eq!(s.genesis.metadata.len(), 9);
    assert_eq!(s.genesis.metadata.get(FieldType::Name.code()), Some(&Occurrences::once()));
    assert_eq!(
        s.genesis.metadata.get(FieldType::Description.code()),
        Some(&Occurrences::none_or_once())
    );
    assert_eq!(s.genesis.metadata.get(FieldType::Data.code()), Some(&Occurrences::none_or_more()));
    assert_eq!(
        s.genesis.owned_rights.get(OwnedRightType::Engraving.code()),
        Some(&Occurrences::none_or_more())
    );
    let transfer = s.transitions.get(TransitionType::Transfer.code()).expect("transfer");
    assert_eq!(transfer.closes.get(OwnedRightType::Assets.code()), Some(&Occurrences::once_or_more()));
    assert_eq!(transfer.metadata.len(), 0);
    assert_eq!(
        s.field_types.get(FieldType::IssuedSupply.code()),
        Some(&TypeRef::primitive(PrimitiveType::U64))
    );
    assert_eq!(s.owned_right_types.get(OwnedRightType::Engraving.code()), Some(&StateSchema::DataContainer));
}

#[test]
fn byte_form_is_read_by_rgb_core() {
    let data = schema().strict_serialize().expect("bytes");
    let decoded = rgb::Schema::strict_deserialize(&data).expect("the RGB core library reads the bytes");
    assert_eq!(decoded.strict_serialize().expect("re-encoding"), data);
    assert_eq!(decoded.schema_id().to_string(), SCHEMA_ID_BECH32);
    assert_eq!(decoded.genesis.metadata.len(), 9);
    assert_eq!(decoded.transitions.len(), 3);

    let data = subschema().strict_serialize().expect("bytes");
    let decoded = rgb::Schema::strict_deserialize(&data).expect("the RGB core library reads the bytes");
    assert_eq!(decoded.strict_serialize().expect("re-encoding"), data);
    assert_eq!(decoded.schema_id().to_string(), SUBSCHEMA_ID_BECH32);
    assert_eq!(decoded.root_id.to_string(), SCHEMA_ID_BECH32);
}

#[test]
fn decoding_undoes_encoding() {
    let data = subschema().strict_serialize().expect("bytes");
    assert_eq!(Schema::strict_deserialize(&data), Some(subschema()));
    let mut custom = schema();
    custom.genesis.metadata.insert(0x0200, Occurrences::new(2, Bound::Limit(7)).expect("a range"));
    custom.public_right_types.push(5);
    custom.genesis.public_rights.push(5);
    let data = custom.strict_serialize().expect("bytes");
    assert_eq!(Schema::strict_deserialize(&data), Some(custom));
}

#[test]
fn decoding_refuses_what_is_no_byte_form() {
    let data = schema().strict_serialize().expect("bytes");
    let mut longer = data.clone();
    longer.push(0);
    assert_eq!(Schema::strict_deserialize(&longer), None);
    let mut shorter = data.clone();
    shorter.pop();
    assert_eq!(Schema::strict_deserialize(&shorter), None);
    assert_eq!(Schema::strict_deserialize(&Vec::new()), None);
    let mut flagged = data.clone();
    flagged[0] = 1;
    assert_eq!(Schema::strict_deserialize(&flagged), None);
    let mut unordered = schema();
    unordered.genesis.owned_rights.entries.swap(0, 1);
    let bytes = unordered.strict_serialize().expect("bytes");
    assert_eq!(Schema::strict_deserialize(&bytes), None);
}

#[test]
fn encoding_refuses_what_does_not_fit() {
    let mut s = schema();
    s.genesis.metadata.insert(
        FieldType::Data.code(),
        Occurrences { min: 0, max: Bound::Limit(0xffff) },
    );
    assert_eq!(s.strict_serialize(), None);
    assert_eq!(s.schema_id(), None);
    let mut s = schema();
    s.genesis.metadata.insert(
        FieldType::Data.code(),
        Occurrences { min: 0x1_0000, max: Bound::Unbounded },
    );
    assert_eq!(s.strict_serialize(), None);
    let mut s = schema();
    s.type_system.types[0].name = vec![0xc3, 0xa9];
    assert_eq!(s.strict_serialize(), None);
}

#[test]
fn narrower_subschema_still_passes() {
    let root = schema();
    let mut sub = subschema();
    sub.genesis.metadata.insert(FieldType::Data.code(), Occurrences::none_or_once());
    assert_eq!(sub.schema_verify(&root).validity(), Validity::Valid);
    sub.genesis.metadata.entries.retain(|e| e.0 != FieldType::ParentId.code());
    assert_eq!(sub.schema_verify(&root).validity(), Validity::Valid);
    sub.transitions.entries.clear();
    assert_eq!(sub.schema_verify(&root).validity(), Validity::Valid);
    assert_eq!(root.schema_verify(&root).validity(), Validity::Valid);
}

#[test]
fn wider_subschema_fails() {
    let root = schema();
    let mut sub = subschema();
    sub.genesis.metadata.insert(FieldType::Name.code(), Occurrences::none_or_once());
    let status = sub.schema_verify(&root);
    assert_eq!(status.validity(), Validity::Invalid);
    assert_eq!(
        status.failure,
        Some(Error::SchemaMismatch {
            node: NodeKind::Genesis,
            slot: Slot::Metadata,
            code: FieldType::Name.code(),
            reason: Mismatch::Widened,
        })
    );

    let mut sub = subschema();
    let transfer = TransitionType::Transfer.code();
    let mut node = sub.transitions.get(transfer).expect("transfer").clone();
    node.closes.insert(OwnedRightType::Assets.code(), Occurrences::none_or_more());
    sub.transitions.insert(transfer, node);
    assert_eq!(
        sub.schema_verify(&root).failure,
        Some(Error::SchemaMismatch {
            node: NodeKind::Transition(transfer),
            slot: Slot::Closes,
            code: OwnedRightType::Assets.code(),
            reason: Mismatch::Widened,
        })
    );
}

#[test]
fn subschema_with_new_codes_fails() {
    let root = schema();
    let mut sub = subschema();
    sub.genesis.owned_rights.insert(0x0001, Occurrences::none_or_once());
    assert_eq!(
        sub.schema_verify(&root).failure,
        Some(Error::SchemaMismatch {
            node: NodeKind::Genesis,
            slot: Slot::OwnedRights,
            code: 0x0001,
            reason: Mismatch::Undeclared,
        })
    );

    let mut sub = subschema();
    sub.field_types.insert(0x0777, TypeRef::u8());
    assert_eq!(
        sub.schema_verify(&root).failure,
        Some(Error::SchemaMismatch {
            node: NodeKind::Catalogue,
            slot: Slot::FieldTypes,
            code: 0x0777,
            reason: Mismatch::Undeclared,
        })
    );

    let mut sub = subschema();
    sub.field_types.insert(FieldType::Precision.code(), TypeRef::u16());
    assert_eq!(
        sub.schema_verify(&root).failure,
        Some(Error::SchemaMismatch {
            node: NodeKind::Catalogue,
            slot: Slot::FieldTypes,
            code: FieldType::Precision.code(),
            reason: Mismatch::Redefined,
        })
    );

    let mut sub = subschema();
    sub.public_right_types.push(9);
    assert_eq!(
        sub.schema_verify(&root).failure,
        Some(Error::SchemaMismatch {
            node: NodeKind::Catalogue,
            slot: Slot::PublicRightTypes,
            code: 9,
            reason: Mismatch::Undeclared,
        })
    );

    // The complete schema does not restrict the subschema: it has a
    // transition that the subschema lacks.
    assert_eq!(
        root.schema_verify(&subschema()).failure,
        Some(Error::SchemaMismatch {
            node: NodeKind::Catalogue,
            slot: Slot::Transitions,
            code: TransitionType::Engraving.code(),
            reason: Mismatch::Undeclared,
        })
    );
}

#[test]
fn schemata_are_consistent() {
    assert!(schema().is_consistent());
    assert!(subschema().is_consistent());
    let mut s = schema();
    s.genesis.metadata.insert(0x0300, Occurrences::once());
    assert!(!s.is_consistent());
    let mut s = schema();
    s.genesis.metadata.insert(FieldType::Name.code(), Occurrences { min: 2, max: Bound::Limit(1) });
    assert!(!s.is_consistent());
    let mut s = schema();
    s.genesis.public_rights.push(1);
    assert!(!s.is_consistent());
    s.public_right_types.push(1);
    assert!(s.is_consistent());
    let mut s = schema();
    let issue = TransitionType::Issue.code();
    let mut node = s.transitions.get(issue).expect("issue").clone();
    node.closes.insert(0x0009, Occurrences::once());
    s.transitions.insert(issue, node);
    assert!(!s.is_consistent());
}
