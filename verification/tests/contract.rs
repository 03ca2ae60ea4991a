use commit_verify::{CommitConceal, CommitVerify};
use lnpbp::chain::Chain;
use rgb121::codes::{FieldType, OwnedRightType, TransitionType};
use rgb121::contract::{
    Allocation, Assignments, CloseMethod, OutPoint, PriorAllocation, RevealedValue, Seal, Value,
};
use rgb121::create::{issue_of_blinded, AssetTerms, Contract, FileAttachment, OutpointValue, Rgb121};
use rgb121::error::{Error, Slot, Validity};
use rgb121::occurrences::Bound;
use rgb121::schema::schema;
use rgb121::text::AsciiString;
use rgb121::transfer::{
    build_transfer, transfer, transfer_of_blinded, Beneficiary, Change, ClosedAllocation,
};

fn text(s: &str) -> AsciiString {
    AsciiString::new(s.to_string()).expect("ASCII text")
}

fn outpoint(n: u8, vout: u32) -> OutPoint {
    OutPoint { txid: [n; 32], vout }
}

fn issue(allocations: Vec<OutpointValue>) -> Result<Contract, Error> {
    Contract::create_rgb121(
        Chain::Signet,
        text("Collectible"),
        None,
        8,
        None,
        vec![],
        vec![],
        allocations,
    )
}

fn closed(value: u64) -> ClosedAllocation {
    ClosedAllocation {
        prior: PriorAllocation { node_id: [9; 32], index: 0 },
        state: RevealedValue { value, blinding: [1; 32] },
    }
}

fn allocation(n: u8, value: u64) -> Allocation {
    Allocation { seal: Seal::Concealed([n; 32]), state: RevealedValue { value, blinding: [n; 32] } }
}

fn commitment(state: &RevealedValue) -> rgb::value::pedersen::Commitment {
    let blinding = amplify::Slice32::from(state.blinding).into();
    rgb::value::Revealed { value: state.value, blinding }.commit_conceal().commitment
}

#[test]
fn issue_records_the_supply() {
    let contract = issue(vec![OutpointValue { value: 1_000_000, outpoint: outpoint(5, 1) }])
        .expect("the issue succeeds");
    let genesis = &contract.genesis;
    assert_eq!(
        genesis.metadata.get(FieldType::IssuedSupply.code()),
        Some(&vec![Value::U64(1_000_000)])
    );
    assert_eq!(
        genesis.metadata.get(FieldType::Name.code()),
        Some(&vec![Value::AsciiString(text("Collectible"))])
    );
    assert_eq!(genesis.metadata.get(FieldType::Precision.code()), Some(&vec![Value::U8(8)]));
    assert_eq!(genesis.metadata.get(FieldType::Data.code()), Some(&vec![]));
    assert_eq!(genesis.metadata.get(FieldType::Description.code()), None);
    assert_eq!(genesis.metadata.get(FieldType::ParentId.code()), None);
    match genesis.metadata.get(FieldType::Timestamp.code()) {
        Some(values) => match values[..] {
            [Value::I64(t)] => assert!(t > 1_600_000_000),
            _ => panic!("one timestamp is expected"),
        },
        None => panic!("the timestamp is missing"),
    }
    match genesis.owned_rights.get(OwnedRightType::Assets.code()) {
        Some(Assignments::Value(assets)) => {
            assert_eq!(assets.len(), 1);
            assert_eq!(assets[0].state.value, 1_000_000);
            match assets[0].seal {
                Seal::Revealed { method, txid, vout, .. } => {
                    assert_eq!(method, CloseMethod::TapretFirst);
                    assert_eq!(txid, Some([5; 32]));
                    assert_eq!(vout, 1);
                }
                Seal::Concealed(_) => panic!("the seal of an issue is given openly"),
            }
            // A single allocation is balanced against the blinding factor one.
            let mut one = [0u8; 32];
            one[31] = 1;
            assert_eq!(assets[0].state.blinding, one);
        }
        _ => panic!("the assets are missing"),
    }
    assert_eq!(genesis.owned_rights.get(OwnedRightType::Engraving.code()), None);
    assert_eq!(genesis.owned_rights.len(), 1);
    assert!(genesis.public_rights.is_empty());
    assert_eq!(Some(genesis.schema_id), schema().schema_id());
    assert_eq!(contract.schema, schema());
    assert_eq!(contract.schema.validate_genesis(genesis).validity(), Validity::Valid);
}

#[test]
fn issue_with_terms_and_data() {
    let contract = Contract::create_rgb121(
        Chain::Testnet3,
        text("Painting"),
        Some(text("Oil on canvas")),
        0,
        Some(text("parent")),
        vec![],
        vec![vec![1, 2, 3], vec![], vec![9]],
        vec![
            OutpointValue { value: 1, outpoint: outpoint(1, 0) },
            OutpointValue { value: 2, outpoint: outpoint(2, 0) },
            OutpointValue { value: 3, outpoint: outpoint(3, 7) },
        ],
    )
    .expect("the issue succeeds");
    let genesis = &contract.genesis;
    let codes: Vec<u16> = genesis.metadata.entries.iter().map(|e| e.0).collect();
    assert_eq!(codes, vec![0x01, 0x03, 0x04, 0x05, 0x10, 0xA0, 0xC3]);
    assert_eq!(
        genesis.metadata.get(FieldType::Description.code()),
        Some(&vec![Value::AsciiString(text("Oil on canvas"))])
    );
    assert_eq!(
        genesis.metadata.get(FieldType::ParentId.code()),
        Some(&vec![Value::AsciiString(text("parent"))])
    );
    assert_eq!(
        genesis.metadata.get(FieldType::Data.code()),
        Some(&vec![Value::Bytes(vec![1, 2, 3]), Value::Bytes(vec![]), Value::Bytes(vec![9])])
    );
    assert_eq!(genesis.metadata.get(FieldType::IssuedSupply.code()), Some(&vec![Value::U64(6)]));
    match genesis.owned_rights.get(OwnedRightType::Assets.code()) {
        Some(Assignments::Value(assets)) => {
            assert_eq!(assets.len(), 3);
            let mut values: Vec<u64> = assets.iter().map(|a| a.state.value).collect();
            values.sort();
            assert_eq!(values, vec![1, 2, 3]);
            // The commitments to the allocations add up to the commitment
            // to the supply under the blinding factor one.
            let mut one = [0u8; 32];
            one[31] = 1;
            let supply = commitment(&RevealedValue { value: 6, blinding: one });
            let outputs = assets.iter().map(|a| commitment(&a.state)).collect();
            assert!(rgb::value::Confidential::verify_commit_sum(vec![supply], outputs));
        }
        _ => panic!("the assets are missing"),
    }
    assert_eq!(contract.schema.validate_genesis(genesis).validity(), Validity::Valid);
}

#[test]
fn issue_without_allocations() {
    let contract = issue(vec![]).expect("the issue succeeds");
    assert_eq!(
        contract.genesis.metadata.get(FieldType::IssuedSupply.code()),
        Some(&vec![Value::U64(0)])
    );
    assert_eq!(
        contract.genesis.owned_rights.get(OwnedRightType::Assets.code()),
        Some(&Assignments::Value(vec![]))
    );
    assert_eq!(contract.schema.validate_genesis(&contract.genesis).validity(), Validity::Valid);
}

#[test]
fn issue_fails_on_overflow() {
    let result = issue(vec![
        OutpointValue { value: u64::MAX, outpoint: outpoint(1, 0) },
        OutpointValue { value: 1, outpoint: outpoint(2, 0) },
    ]);
    assert_eq!(result.err(), Some(Error::ArithmeticOverflow));
    let result = issue(vec![
        OutpointValue { value: u64::MAX - 1, outpoint: outpoint(1, 0) },
        OutpointValue { value: 1, outpoint: outpoint(2, 0) },
    ]);
    assert!(result.is_ok());
}

#[test]
fn issue_attaches_the_last_file() {
    let files = vec![
        FileAttachment {
            file_path: "first.png".to_string(),
            mime: text("image/png"),
            salt: 1,
            content: Some(vec![1, 2, 3]),
        },
        FileAttachment {
            file_path: "second.txt".to_string(),
            mime: text("text/plain"),
            salt: 2,
            content: Some(b"hello".to_vec()),
        },
    ];
    let contract = Contract::create_rgb121(
        Chain::Signet,
        text("Collectible"),
        None,
        8,
        None,
        files,
        vec![],
        vec![
            OutpointValue { value: 10, outpoint: outpoint(1, 0) },
            OutpointValue { value: 20, outpoint: outpoint(2, 3) },
        ],
    )
    .expect("the issue succeeds");
    match contract.genesis.owned_rights.get(OwnedRightType::Engraving.code()) {
        Some(Assignments::Attachment(attached)) => {
            assert_eq!(attached.len(), 1);
            let digest = <bitcoin::hashes::sha256::Hash as bitcoin::hashes::Hash>::hash(b"hello");
            let id = rgb::AttachmentId::commit(&digest);
            assert_eq!(&attached[0].id[..], &id[..]);
            assert_ne!(attached[0].id, [0u8; 32]);
            assert_ne!(&attached[0].id[..], &digest[..]);
            assert_eq!(attached[0].mime.as_str(), "text/plain");
            assert_eq!(attached[0].salt, 2);
            match attached[0].seal {
                Seal::Revealed { method, txid, vout, .. } => {
                    assert_eq!(method, CloseMethod::TapretFirst);
                    assert_eq!(txid, Some([2; 32]));
                    assert_eq!(vout, 3);
                }
                Seal::Concealed(_) => panic!("the seal of an attachment is given openly"),
            }
        }
        _ => panic!("the attachment is missing"),
    }
    assert_eq!(contract.schema.validate_genesis(&contract.genesis).validity(), Validity::Valid);
}

#[test]
fn issue_fails_on_unreadable_file() {
    let files = vec![
        FileAttachment {
            file_path: "first.png".to_string(),
            mime: text("image/png"),
            salt: 1,
            content: Some(vec![1, 2, 3]),
        },
        FileAttachment {
            file_path: "missing.png".to_string(),
            mime: text("image/png"),
            salt: 2,
            content: None,
        },
        FileAttachment {
            file_path: "gone.png".to_string(),
            mime: text("image/png"),
            salt: 3,
            content: None,
        },
    ];
    let result = Contract::create_rgb121(
        Chain::Signet,
        text("Collectible"),
        None,
        8,
        None,
        files,
        vec![],
        vec![OutpointValue { value: 10, outpoint: outpoint(1, 0) }],
    );
    assert_eq!(result.err(), Some(Error::InvalidFileAttachment("missing.png".to_string())));
}

#[test]
fn genesis_with_unknown_or_miscounted_fields_fails() {
    let s = schema();
    let mut contract = issue(vec![OutpointValue { value: 5, outpoint: outpoint(1, 0) }]).expect("issue");
    contract.genesis.metadata.insert(0x7777, vec![Value::U8(1)]);
    let status = s.validate_genesis(&contract.genesis);
    assert_eq!(status.validity(), Validity::Invalid);
    assert_eq!(status.failure, Some(Error::UnknownType { slot: Slot::Metadata, code: 0x7777 }));

    let mut contract = issue(vec![OutpointValue { value: 5, outpoint: outpoint(1, 0) }]).expect("issue");
    contract.genesis.metadata.insert(
        FieldType::Name.code(),
        vec![Value::AsciiString(text("a")), Value::AsciiString(text("b"))],
    );
    assert_eq!(
        s.validate_genesis(&contract.genesis).failure,
        Some(Error::OccurrenceOutOfBounds {
            slot: Slot::Metadata,
            code: FieldType::Name.code(),
            actual: 2,
            expected_min: 1,
            expected_max: Bound::Limit(1),
        })
    );

    let mut contract = issue(vec![OutpointValue { value: 5, outpoint: outpoint(1, 0) }]).expect("issue");
    contract.genesis.metadata.entries.retain(|e| e.0 != FieldType::Precision.code());
    assert_eq!(
        s.validate_genesis(&contract.genesis).failure,
        Some(Error::OccurrenceOutOfBounds {
            slot: Slot::Metadata,
            code: FieldType::Precision.code(),
            actual: 0,
            expected_min: 1,
            expected_max: Bound::Limit(1),
        })
    );

    let mut contract = issue(vec![OutpointValue { value: 5, outpoint: outpoint(1, 0) }]).expect("issue");
    contract.genesis.owned_rights.insert(0x0001, Assignments::Value(vec![]));
    assert_eq!(
        s.validate_genesis(&contract.genesis).failure,
        Some(Error::UnknownType { slot: Slot::OwnedRights, code: 0x0001 })
    );

    let mut contract = issue(vec![OutpointValue { value: 5, outpoint: outpoint(1, 0) }]).expect("issue");
    contract.genesis.public_rights.push(3);
    assert_eq!(
        s.validate_genesis(&contract.genesis).failure,
        Some(Error::UnknownType { slot: Slot::PublicRights, code: 3 })
    );
}

#[test]
fn balanced_transfer_is_built() {
    let s = schema();
    let transition = build_transfer(
        &s,
        TransitionType::Transfer.code(),
        OwnedRightType::Assets.code(),
        vec![closed(1_000_000)],
        vec![allocation(1, 600_000), allocation(2, 400_000)],
    )
    .expect("the transfer balances");
    assert_eq!(transition.transition_type, TransitionType::Transfer.code());
    assert_eq!(transition.metadata.len(), 0);
    assert_eq!(
        transition.closes.get(OwnedRightType::Assets.code()),
        Some(&vec![PriorAllocation { node_id: [9; 32], index: 0 }])
    );
    assert_eq!(
        transition.owned_rights.get(OwnedRightType::Assets.code()),
        Some(&Assignments::Value(vec![allocation(1, 600_000), allocation(2, 400_000)]))
    );
    assert!(transition.public_rights.is_empty());
    assert_eq!(s.validate_transition(&transition).validity(), Validity::Valid);
}

#[test]
fn unbalanced_transfer_fails() {
    let s = schema();
    let assets = OwnedRightType::Assets.code();
    let result = build_transfer(
        &s,
        TransitionType::Transfer.code(),
        assets,
        vec![closed(1_000_000)],
        vec![allocation(1, 600_001), allocation(2, 400_000)],
    );
    assert_eq!(
        result.err(),
        Some(Error::UnbalancedTransition {
            right_type: assets,
            total_in: 1_000_000,
            total_out: 1_000_001,
        })
    );
    let result = build_transfer(
        &s,
        TransitionType::Transfer.code(),
        assets,
        vec![closed(1_000_000)],
        vec![allocation(1, 599_999), allocation(2, 400_000)],
    );
    assert_eq!(
        result.err(),
        Some(Error::UnbalancedTransition {
            right_type: assets,
            total_in: 1_000_000,
            total_out: 999_999,
        })
    );
    let result = build_transfer(&s, TransitionType::Transfer.code(), assets, vec![closed(7)], vec![]);
    assert_eq!(
        result.err(),
        Some(Error::UnbalancedTransition { right_type: assets, total_in: 7, total_out: 0 })
    );
}

#[test]
fn transfer_of_nothing_moves_nothing() {
    let s = schema();
    let assets = OwnedRightType::Assets.code();
    let transition = build_transfer(&s, TransitionType::Transfer.code(), assets, vec![closed(0)], vec![])
        .expect("a closed allocation of zero balances no output");
    assert_eq!(transition.owned_rights.len(), 0);
    assert_eq!(transition.closes.len(), 1);
    let transition = build_transfer(
        &s,
        TransitionType::Transfer.code(),
        assets,
        vec![closed(0), closed(0)],
        vec![allocation(1, 0)],
    )
    .expect("amounts of zero balance");
    assert_eq!(s.validate_transition(&transition).validity(), Validity::Valid);
}

#[test]
fn transfer_needs_something_to_close() {
    let s = schema();
    let assets = OwnedRightType::Assets.code();
    let engraving = OwnedRightType::Engraving.code();
    let result = build_transfer(&s, TransitionType::Transfer.code(), assets, vec![], vec![]);
    assert_eq!(result.err(), Some(Error::NothingToClose { right_type: assets }));
    let result = build_transfer(
        &s,
        TransitionType::Transfer.code(),
        engraving,
        vec![closed(1)],
        vec![allocation(1, 1)],
    );
    assert_eq!(result.err(), Some(Error::NothingToClose { right_type: engraving }));
    let result = build_transfer(
        &s,
        TransitionType::Issue.code(),
        assets,
        vec![closed(1)],
        vec![allocation(1, 1)],
    );
    assert_eq!(result.err(), Some(Error::NothingToClose { right_type: assets }));
}

#[test]
fn transfer_fails_on_overflow_and_unknown_type() {
    let s = schema();
    let assets = OwnedRightType::Assets.code();
    let result = build_transfer(
        &s,
        TransitionType::Transfer.code(),
        assets,
        vec![closed(u64::MAX), closed(1)],
        vec![allocation(1, 5)],
    );
    assert_eq!(result.err(), Some(Error::ArithmeticOverflow));
    let result = build_transfer(
        &s,
        TransitionType::Transfer.code(),
        assets,
        vec![closed(5)],
        vec![allocation(1, u64::MAX), allocation(2, u64::MAX)],
    );
    assert_eq!(result.err(), Some(Error::ArithmeticOverflow));
    let result = build_transfer(&s, 0x4242, assets, vec![closed(5)], vec![allocation(1, 5)]);
    assert_eq!(result.err(), Some(Error::UnknownType { slot: Slot::Transitions, code: 0x4242 }));
}

#[test]
fn engraving_transition_conforms() {
    let s = schema();
    let transition = build_transfer(
        &s,
        TransitionType::Engraving.code(),
        OwnedRightType::Assets.code(),
        vec![closed(3)],
        vec![allocation(1, 3)],
    )
    .expect("the schema provides for it");
    assert_eq!(s.validate_transition(&transition).validity(), Validity::Valid);
    // The subschema has no engraving.
    let sub = rgb121::schema::subschema();
    assert_eq!(
        sub.validate_transition(&transition).failure,
        Some(Error::UnknownType { slot: Slot::Transitions, code: TransitionType::Engraving.code() })
    );
}

#[test]
fn transition_with_unknown_or_miscounted_rights_fails() {
    let s = schema();
    let assets = OwnedRightType::Assets.code();
    let mut transition = build_transfer(
        &s,
        TransitionType::Transfer.code(),
        assets,
        vec![closed(3)],
        vec![allocation(1, 3)],
    )
    .expect("the transfer balances");
    transition.closes.entries.clear();
    assert_eq!(
        s.validate_transition(&transition).failure,
        Some(Error::OccurrenceOutOfBounds {
            slot: Slot::Closes,
            code: assets,
            actual: 0,
            expected_min: 1,
            expected_max: Bound::Unbounded,
        })
    );
    transition.metadata.insert(FieldType::Name.code(), vec![]);
    assert_eq!(
        s.validate_transition(&transition).failure,
        Some(Error::UnknownType { slot: Slot::Metadata, code: FieldType::Name.code() })
    );
}

#[test]
fn transfer_blinds_what_it_assigns() {
    let s = schema();
    let issued = issue(vec![OutpointValue { value: 1_000_000, outpoint: outpoint(5, 1) }]).expect("issue");
    let spent = match issued.genesis.owned_rights.get(OwnedRightType::Assets.code()) {
        Some(Assignments::Value(assets)) => assets[0].state,
        _ => panic!("the assets are missing"),
    };
    let closing = ClosedAllocation { prior: PriorAllocation { node_id: [7; 32], index: 0 }, state: spent };
    let transition = transfer(
        &s,
        vec![closing],
        vec![Beneficiary { value: 600_000, seal: [3; 32] }],
        vec![Change { value: 400_000, method: CloseMethod::TapretFirst, txid: None, vout: 1 }],
    )
    .expect("the transfer balances");
    assert_eq!(s.validate_transition(&transition).validity(), Validity::Valid);
    assert_eq!(
        transition.closes.get(OwnedRightType::Assets.code()),
        Some(&vec![PriorAllocation { node_id: [7; 32], index: 0 }])
    );
    match transition.owned_rights.get(OwnedRightType::Assets.code()) {
        Some(Assignments::Value(assigned)) => {
            assert_eq!(assigned.len(), 2);
            match assigned[0].seal {
                Seal::Revealed { method, txid, vout, .. } => {
                    assert_eq!(method, CloseMethod::TapretFirst);
                    assert_eq!(txid, None);
                    assert_eq!(vout, 1);
                }
                Seal::Concealed(_) => panic!("change goes to an open seal"),
            }
            assert_eq!(assigned[0].state.value, 400_000);
            assert_eq!(assigned[1].seal, Seal::Concealed([3; 32]));
            assert_eq!(assigned[1].state.value, 600_000);
            assert_ne!(assigned[0].state.blinding, assigned[1].state.blinding);
            let inputs = vec![commitment(&spent)];
            let outputs = assigned.iter().map(|a| commitment(&a.state)).collect();
            assert!(rgb::value::Confidential::verify_commit_sum(inputs, outputs));
        }
        _ => panic!("the assets are missing"),
    }
}

#[test]
fn transfer_checks_the_request_first() {
    let s = schema();
    let assets = OwnedRightType::Assets.code();
    let result = transfer(
        &s,
        vec![closed(1_000_000)],
        vec![Beneficiary { value: 600_001, seal: [3; 32] }],
        vec![Change { value: 400_000, method: CloseMethod::OpretFirst, txid: Some([4; 32]), vout: 0 }],
    );
    assert_eq!(
        result.err(),
        Some(Error::UnbalancedTransition {
            right_type: assets,
            total_in: 1_000_000,
            total_out: 1_000_001,
        })
    );
    let result = transfer(&s, vec![], vec![], vec![]);
    assert_eq!(result.err(), Some(Error::NothingToClose { right_type: assets }));
    let result = transfer(
        &s,
        vec![closed(5)],
        vec![Beneficiary { value: u64::MAX, seal: [3; 32] }],
        vec![Change { value: 1, method: CloseMethod::OpretFirst, txid: None, vout: 0 }],
    );
    assert_eq!(result.err(), Some(Error::ArithmeticOverflow));
}

#[test]
fn transfer_refuses_merged_outputs() {
    let s = schema();
    // Two payments to one seal are merged by the blinding into one
    // allocation, which is not what was asked for.
    let result = transfer(
        &s,
        vec![closed(10)],
        vec![Beneficiary { value: 6, seal: [3; 32] }, Beneficiary { value: 4, seal: [3; 32] }],
        vec![],
    );
    assert_eq!(result.err(), Some(Error::BlindingFailure));
}

#[test]
fn transfer_serves_every_output() {
    let s = schema();
    let transition = transfer(
        &s,
        vec![closed(10), closed(5)],
        vec![Beneficiary { value: 6, seal: [3; 32] }, Beneficiary { value: 0, seal: [4; 32] }],
        vec![
            Change { value: 4, method: CloseMethod::OpretFirst, txid: Some([8; 32]), vout: 2 },
            Change { value: 5, method: CloseMethod::TapretFirst, txid: None, vout: 0 },
        ],
    )
    .expect("the transfer balances");
    match transition.owned_rights.get(OwnedRightType::Assets.code()) {
        Some(Assignments::Value(assigned)) => {
            assert_eq!(assigned.len(), 4);
            let paid = |seal: [u8; 32], value: u64| {
                assigned.iter().any(|a| a.seal == Seal::Concealed(seal) && a.state.value == value)
            };
            assert!(paid([3; 32], 6));
            assert!(paid([4; 32], 0));
            let kept = |method: CloseMethod, txid: Option<[u8; 32]>, vout: u32, value: u64| {
                assigned.iter().any(|a| match a.seal {
                    Seal::Revealed { method: m, txid: t, vout: v, .. } => {
                        m == method && t == txid && v == vout && a.state.value == value
                    }
                    Seal::Concealed(_) => false,
                })
            };
            assert!(kept(CloseMethod::OpretFirst, Some([8; 32]), 2, 4));
            assert!(kept(CloseMethod::TapretFirst, None, 0, 5));
        }
        _ => panic!("the assets are missing"),
    }
    assert!(transition.is_wf());
    assert_eq!(transition.closes.get(OwnedRightType::Assets.code()).map(|c| c.len()), Some(2));
}

#[test]
fn nodes_built_by_the_library_are_in_order() {
    let contract = issue(vec![OutpointValue { value: 5, outpoint: outpoint(1, 0) }]).expect("issue");
    assert!(contract.genesis.is_wf());
    let mut genesis = contract.genesis;
    genesis.metadata.entries.swap(0, 1);
    assert!(!genesis.is_wf());
}

#[test]
fn transfer_refuses_inputs_without_blinding_factor() {
    let s = schema();
    let pay = vec![Beneficiary { value: 10, seal: [3; 32] }];
    let mut spent = closed(10);
    spent.state.blinding = [0xff; 32];
    assert_eq!(transfer(&s, vec![spent], pay.clone(), vec![]).err(), Some(Error::BlindingFailure));
    spent.state.blinding = [0; 32];
    assert_eq!(transfer(&s, vec![spent], pay.clone(), vec![]).err(), Some(Error::BlindingFailure));
    spent.state.blinding = [1; 32];
    assert!(transfer(&s, vec![spent], pay, vec![]).is_ok());
}


#[test]
fn text_is_ascii_and_bounded() {
    assert_eq!(AsciiString::new("plain text".to_string()).map(|t| t.as_str().len()), Some(10));
    assert!(AsciiString::new(String::new()).is_some());
    assert_eq!(AsciiString::new("caf\u{e9}".to_string()), None);
    assert!(AsciiString::new("a".repeat(0xffff)).is_some());
    assert_eq!(AsciiString::new("a".repeat(0x1_0000)), None);
    assert_eq!(text("abc").duplicate(), text("abc"));
}

fn payments(values: &[u64]) -> Vec<Beneficiary> {
    values.iter().map(|v| Beneficiary { value: *v, seal: [3; 32] }).collect()
}

fn came_back(values: &[u64]) -> Vec<Allocation> {
    values.iter().map(|v| allocation(3, *v)).collect()
}

#[test]
fn transfer_of_blinded_takes_what_was_asked_for_in_any_order() {
    let s = schema();
    let asked = payments(&[1, 2, 2, 2, 3]);
    let transition =
        transfer_of_blinded(&s, vec![closed(10)], &asked, &vec![], Some(came_back(&[2, 3, 2, 1, 2])))
            .expect("the allocations are the payments");
    assert_eq!(
        transition.owned_rights.get(OwnedRightType::Assets.code()),
        Some(&Assignments::Value(came_back(&[2, 3, 2, 1, 2])))
    );
    assert_eq!(s.validate_transition(&transition).validity(), Validity::Valid);
}

#[test]
fn transfer_of_blinded_refuses_what_was_not_asked_for() {
    let s = schema();
    let asked = payments(&[1, 2, 2, 2, 3]);
    // As many allocations, the same sum, each of them asked for and each
    // payment found among them, but not as often as asked for.
    let result =
        transfer_of_blinded(&s, vec![closed(10)], &asked, &vec![], Some(came_back(&[1, 1, 2, 3, 3])));
    assert_eq!(result.err(), Some(Error::BlindingFailure));
    let result = transfer_of_blinded(&s, vec![closed(10)], &asked, &vec![], None);
    assert_eq!(result.err(), Some(Error::BlindingFailure));
    let result =
        transfer_of_blinded(&s, vec![closed(10)], &asked, &vec![], Some(came_back(&[1, 2, 2, 2])));
    assert_eq!(result.err(), Some(Error::BlindingFailure));
    let result = transfer_of_blinded(
        &s,
        vec![closed(10)],
        &asked,
        &vec![],
        Some(vec![allocation(3, 1), allocation(3, 2), allocation(3, 2), allocation(3, 2), allocation(4, 3)]),
    );
    assert_eq!(result.err(), Some(Error::BlindingFailure));
    let kept = vec![Change { value: 10, method: CloseMethod::TapretFirst, txid: None, vout: 1 }];
    let open = |method: CloseMethod, vout: u32| Allocation {
        seal: Seal::Revealed { method, txid: None, vout, blinding: 77 },
        state: RevealedValue { value: 10, blinding: [5; 32] },
    };
    let result = transfer_of_blinded(
        &s,
        vec![closed(10)],
        &vec![],
        &kept,
        Some(vec![open(CloseMethod::OpretFirst, 1)]),
    );
    assert_eq!(result.err(), Some(Error::BlindingFailure));
    let result = transfer_of_blinded(
        &s,
        vec![closed(10)],
        &vec![],
        &kept,
        Some(vec![open(CloseMethod::TapretFirst, 1)]),
    );
    assert!(result.is_ok());
}

#[test]
fn transfer_of_blinded_still_checks_the_balance() {
    let s = schema();
    let assets = OwnedRightType::Assets.code();
    let asked = payments(&[4, 5]);
    let result = transfer_of_blinded(&s, vec![closed(10)], &asked, &vec![], Some(came_back(&[5, 4])));
    assert_eq!(
        result.err(),
        Some(Error::UnbalancedTransition { right_type: assets, total_in: 10, total_out: 9 })
    );
    let result = transfer_of_blinded(&s, vec![], &asked, &vec![], Some(came_back(&[5, 4])));
    assert_eq!(result.err(), Some(Error::NothingToClose { right_type: assets }));
}

fn terms() -> AssetTerms {
    AssetTerms {
        name: text("Collectible"),
        description: None,
        precision: 8,
        parent_id: None,
        data: vec![],
    }
}

fn granted(n: u8, vout: u32, value: u64) -> Allocation {
    Allocation {
        seal: Seal::Revealed {
            method: CloseMethod::TapretFirst,
            txid: Some([n; 32]),
            vout,
            blinding: 1234,
        },
        state: RevealedValue { value, blinding: [n; 32] },
    }
}

#[test]
fn issue_of_blinded_builds_the_genesis() {
    let s = schema();
    let id = s.schema_id().expect("identifier");
    let asked = vec![
        OutpointValue { value: 3, outpoint: outpoint(1, 0) },
        OutpointValue { value: 4, outpoint: outpoint(2, 5) },
    ];
    let files = vec![FileAttachment {
        file_path: "a.txt".to_string(),
        mime: text("text/plain"),
        salt: 9,
        content: Some(vec![1]),
    }];
    let genesis = issue_of_blinded(
        id,
        Chain::Signet,
        terms(),
        1_700_000_000,
        &files,
        &asked,
        Some(vec![granted(2, 5, 4), granted(1, 0, 3)]),
        42,
    )
    .expect("the allocations are the ones asked for");
    assert_eq!(genesis.metadata.get(FieldType::IssuedSupply.code()), Some(&vec![Value::U64(7)]));
    assert_eq!(
        genesis.metadata.get(FieldType::Timestamp.code()),
        Some(&vec![Value::I64(1_700_000_000)])
    );
    assert_eq!(
        genesis.owned_rights.get(OwnedRightType::Assets.code()),
        Some(&Assignments::Value(vec![granted(2, 5, 4), granted(1, 0, 3)]))
    );
    match genesis.owned_rights.get(OwnedRightType::Engraving.code()) {
        Some(Assignments::Attachment(attached)) => {
            assert_eq!(
                attached[0].seal,
                Seal::Revealed {
                    method: CloseMethod::TapretFirst,
                    txid: Some([2; 32]),
                    vout: 5,
                    blinding: 42,
                }
            );
            assert_eq!(attached[0].salt, 9);
        }
        _ => panic!("the attachment is missing"),
    }
    assert_eq!(genesis.schema_id, id);
    assert_eq!(s.validate_genesis(&genesis).validity(), Validity::Valid);
}

#[test]
fn issue_of_blinded_fails_in_order() {
    let id = schema().schema_id().expect("identifier");
    let unreadable = vec![FileAttachment {
        file_path: "gone.txt".to_string(),
        mime: text("text/plain"),
        salt: 9,
        content: None,
    }];
    let too_much = vec![
        OutpointValue { value: u64::MAX, outpoint: outpoint(1, 0) },
        OutpointValue { value: 1, outpoint: outpoint(2, 0) },
    ];
    let result =
        issue_of_blinded(id, Chain::Signet, terms(), 0, &unreadable, &too_much, None, 0);
    assert_eq!(result.err(), Some(Error::ArithmeticOverflow));
    let asked = vec![
        OutpointValue { value: 2, outpoint: outpoint(1, 0) },
        OutpointValue { value: 2, outpoint: outpoint(1, 0) },
        OutpointValue { value: 5, outpoint: outpoint(1, 0) },
    ];
    let result = issue_of_blinded(id, Chain::Signet, terms(), 0, &unreadable, &asked, None, 0);
    assert_eq!(result.err(), Some(Error::InvalidFileAttachment("gone.txt".to_string())));
    let result = issue_of_blinded(id, Chain::Signet, terms(), 0, &vec![], &asked, None, 0);
    assert_eq!(result.err(), Some(Error::BlindingFailure));
    let twice_five = Some(vec![granted(1, 0, 2), granted(1, 0, 5), granted(1, 0, 5)]);
    let result = issue_of_blinded(id, Chain::Signet, terms(), 0, &vec![], &asked, twice_five, 0);
    assert_eq!(result.err(), Some(Error::BlindingFailure));
    let concealed = Some(vec![granted(1, 0, 2), granted(1, 0, 2), allocation(1, 5)]);
    let result = issue_of_blinded(id, Chain::Signet, terms(), 0, &vec![], &asked, concealed, 0);
    assert_eq!(result.err(), Some(Error::BlindingFailure));
    let served = Some(vec![granted(1, 0, 5), granted(1, 0, 2), granted(1, 0, 2)]);
    let result = issue_of_blinded(id, Chain::Signet, terms(), 0, &vec![], &asked, served, 0);
    assert!(result.is_ok());
}
