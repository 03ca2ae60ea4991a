//! Primary issue of an asset: the genesis of its contract.

use crate::amount::{checked_total, HasAmount, total};
use crate::codes::{FieldType, OwnedRightType};
use crate::contract::{
    Allocation, Assignments, Attachment, CloseMethod, count_of, Countable, Genesis, OutPoint, Seal,
    Value, ValueView,
};
use crate::encoding::{enc_schema, lemma_root_schema_fits};
use crate::error::Error;
use crate::request::{
    asked, does_serve_issue, law_served_issue_balances, on_distinct_seals, serves_issue,
};
use crate::schema::{genesis_view, Schema, schema, schema_view, SchemaId};
use crate::text::AsciiString;
use crate::trusted::{
    attachment_commitment, blind_issue, commit_attachment, opened, reveal_outpoint,
    schema_commitment, sha256_digest, sha256_of, unix_time,
};
use crate::typemap::{as_map, has_code, increasing, lemma_as_map_entry, position, TypeMap};
use crate::validation::{genesis_conforms, rights_conform, slots_conform};
use vstd::prelude::*;

verus! {

/// An amount of the asset to be assigned to a transaction output.
#[derive(Clone, Copy, Debug, PartialEq, Eq, Hash)]
pub struct OutpointValue {
    /// Assigned amount of the asset.
    pub value: u64,
    /// Transaction output that the amount is assigned to.
    pub outpoint: OutPoint,
}

impl HasAmount for OutpointValue {
    open spec fn spec_amount(&self) -> u64 {
        self.value
    }

    fn amount(&self) -> (r: u64) {
        self.value
    }
}

/// A file to attach to the genesis.
#[derive(Debug, PartialEq, Eq)]
pub struct FileAttachment {
    /// Path to the media file.
    pub file_path: String,
    /// Media type of the file.
    pub mime: AsciiString,
    /// Salt of the attachment.
    pub salt: u64,
    /// What the file holds, or `None` where it could not be read.
    pub content: Option<Vec<u8>>,
}

/// What the issuer says of a new asset.
#[derive(Debug, PartialEq, Eq)]
pub struct AssetTerms {
    /// Asset name.
    pub name: AsciiString,
    /// Asset description.
    pub description: Option<AsciiString>,
    /// Number of digits reserved for the fractional part of an amount.
    pub precision: u8,
    /// Identifier of the parent asset.
    pub parent_id: Option<AsciiString>,
    /// Data attached to the asset.
    pub data: Vec<Vec<u8>>,
}

/// The metadata of a node, as models: for each field type in use, in
/// increasing order of code, the values held.
pub open spec fn metadata_view(metadata: TypeMap<Vec<Value>>) -> Seq<(u16, Seq<ValueView>)> {
    metadata.entries@.map_values(
        |e: (u16, Vec<Value>)| (e.0, e.1@.map_values(|v: Value| v@)),
    )
}

/// One entry, or none.
pub open spec fn optional_text(code: u16, text: Option<AsciiString>) -> Seq<
    (u16, Seq<ValueView>),
> {
    match text {
        Some(s) => seq![(code, seq![ValueView::AsciiString(s@)])],
        None => Seq::empty(),
    }
}

/// The metadata of the genesis of an asset issued under the given terms at
/// the time `timestamp` with the total supply `supply`.
pub open spec fn issued_metadata(terms: AssetTerms, timestamp: i64, supply: u64) -> Seq<
    (u16, Seq<ValueView>),
> {
    seq![
        (FieldType::Name.spec_code(), seq![ValueView::AsciiString(terms.name@)]),
        (FieldType::Precision.spec_code(), seq![ValueView::U8(terms.precision)]),
        (FieldType::Timestamp.spec_code(), seq![ValueView::I64(timestamp)]),
    ] + optional_text(FieldType::Description.spec_code(), terms.description) + seq![
        (
            FieldType::Data.spec_code(),
            terms.data@.map_values(|d: Vec<u8>| ValueView::Bytes(d@)),
        ),
        (FieldType::IssuedSupply.spec_code(), seq![ValueView::U64(supply)]),
    ] + optional_text(FieldType::ParentId.spec_code(), terms.parent_id)
}

/// The genesis is that of an asset issued under `terms` at the time
/// `timestamp`: it records the terms, the time and the total of the
/// amounts allocated, assigns the allocations `assets` and, where there is
/// one, the attachment `engraving`, and grants no public right.
pub open spec fn is_genesis_of(
    genesis: Genesis,
    schema_id: SchemaId,
    chain: lnpbp::chain::Chain,
    terms: AssetTerms,
    timestamp: i64,
    assets: Seq<Allocation>,
    engraving: Option<Attachment>,
) -> bool {
    &&& genesis.schema_id == schema_id
    &&& genesis.chain == chain
    &&& total(assets) <= u64::MAX
    &&& metadata_view(genesis.metadata) == issued_metadata(terms, timestamp, total(assets) as u64)
    &&& genesis.public_rights@.len() == 0
    &&& genesis.owned_rights.entries@.len() == if engraving is Some {
        2nat
    } else {
        1nat
    }
    &&& genesis.owned_rights.entries@[0].0 == OwnedRightType::Assets.spec_code()
    &&& genesis.owned_rights.entries@[0].1 matches Assignments::Value(v)
    &&& v@ == assets
    &&& engraving matches Some(a) ==> {
        &&& genesis.owned_rights.entries@[1].0 == OwnedRightType::Engraving.spec_code()
        &&& genesis.owned_rights.entries@[1].1 matches Assignments::Attachment(w)
        &&& w@ == seq![a]
    }
}

/// Why no genesis can allocate `assets` for the amounts `issued` that were
/// asked for, or `None` where it can: a sum exceeds 64 bits, or the amounts
/// allocated do not add up to the amounts asked for.
pub open spec fn issue_failure(issued: Seq<OutpointValue>, assets: Seq<Allocation>) -> Option<Error> {
    if total(issued) > u64::MAX || total(assets) > u64::MAX {
        Some(Error::ArithmeticOverflow)
    } else if total(issued) != total(assets) {
        Some(
            Error::UnbalancedTransition {
                right_type: OwnedRightType::Assets.spec_code(),
                total_in: total(issued) as u64,
                total_out: total(assets) as u64,
            },
        )
    } else {
        None
    }
}

/// The metadata fields of one text.
fn text_field(text: AsciiString) -> (r: Vec<Value>)
    ensures
        r@.map_values(|v: Value| v@) == seq![ValueView::AsciiString(text@)],
{
    let r = vec![Value::AsciiString(text)];
    assert(r@.map_values(|v: Value| v@) =~= seq![ValueView::AsciiString(text@)]);
    r
}

/// The metadata fields of the attached data.
fn data_fields(data: Vec<Vec<u8>>) -> (r: Vec<Value>)
    ensures
        r@.map_values(|v: Value| v@) == data@.map_values(|d: Vec<u8>| ValueView::Bytes(d@)),
{
    let ghost all = data@;
    let mut data = data;
    let mut r: Vec<Value> = Vec::new();
    while data.len() > 0
        invariant
            data@.len() <= all.len(),
            r@.len() + data@.len() == all.len(),
            forall|i: int| 0 <= i < data@.len() ==> data@[i] == all[i],
            forall|i: int|
                0 <= i < r@.len() ==> (#[trigger] r@[i])@ == ValueView::Bytes(
                    all[all.len() - 1 - i]@,
                ),
        decreases data@.len(),
    {
        let last = data.pop().unwrap();
        r.push(Value::Bytes(last));
    }
    let ghost reversed = r@;
    let mut out: Vec<Value> = Vec::new();
    while r.len() > 0
        invariant
            reversed.len() == all.len(),
            r@.len() + out@.len() == all.len(),
            forall|i: int| 0 <= i < r@.len() ==> r@[i] == reversed[i],
            forall|i: int|
                0 <= i < reversed.len() ==> (#[trigger] reversed[i])@ == ValueView::Bytes(
                    all[all.len() - 1 - i]@,
                ),
            forall|i: int| 0 <= i < out@.len() ==> (#[trigger] out@[i])@ == ValueView::Bytes(all[i]@),
        decreases r@.len(),
    {
        let ghost k = r@.len() - 1;
        let last = r.pop().unwrap();
        assert(last == reversed[k]);
        out.push(last);
    }
    assert(out@.map_values(|v: Value| v@) =~= all.map_values(|d: Vec<u8>| ValueView::Bytes(d@)));
    out
}

/// Builds the genesis of an asset issued under `terms` at the time
/// `timestamp`, from the amounts `issued` that were asked for and the
/// allocations `assets` made for them.
///
/// The supply recorded in the metadata is the total of the allocations, and
/// that total is the total asked for. The genesis conforms to the complete
/// schema.
pub fn genesis_of(
    schema_id: SchemaId,
    chain: lnpbp::chain::Chain,
    terms: AssetTerms,
    timestamp: i64,
    issued: &Vec<OutpointValue>,
    assets: Vec<Allocation>,
    engraving: Option<Attachment>,
) -> (r: Result<Genesis, Error>)
    ensures
        r is Ok <==> issue_failure(issued@, assets@) is None,
        r matches Err(e) ==> Some(e) == issue_failure(issued@, assets@),
        r matches Ok(g) ==> is_genesis_of(g, schema_id, chain, terms, timestamp, assets@, engraving)
            && g.wf() && genesis_conforms(genesis_view(), g),
{
    let supply = match checked_total(issued) {
        Some(t) => t,
        None => {
            return Err(Error::ArithmeticOverflow);
        },
    };
    let assigned = match checked_total(&assets) {
        Some(t) => t,
        None => {
            return Err(Error::ArithmeticOverflow);
        },
    };
    if supply != assigned {
        return Err(
            Error::UnbalancedTransition {
                right_type: OwnedRightType::Assets.code(),
                total_in: supply,
                total_out: assigned,
            },
        );
    }
    let ghost wanted = issued_metadata(terms, timestamp, supply);
    let ghost assets_seq = assets@;
    let ghost attached = engraving;
    let AssetTerms { name, description, precision, parent_id, data } = terms;
    let mut metadata: TypeMap<Vec<Value>> = TypeMap::new();
    metadata.entries.push((FieldType::Name.code(), text_field(name)));
    metadata.entries.push((FieldType::Precision.code(), vec![Value::U8(precision)]));
    metadata.entries.push((FieldType::Timestamp.code(), vec![Value::I64(timestamp)]));
    if let Some(text) = description {
        metadata.entries.push((FieldType::Description.code(), text_field(text)));
    }
    metadata.entries.push((FieldType::Data.code(), data_fields(data)));
    metadata.entries.push((FieldType::IssuedSupply.code(), vec![Value::U64(supply)]));
    if let Some(text) = parent_id {
        metadata.entries.push((FieldType::ParentId.code(), text_field(text)));
    }
    let mut owned_rights: TypeMap<Assignments> = TypeMap::new();
    owned_rights.entries.push((OwnedRightType::Assets.code(), Assignments::Value(assets)));
    if let Some(attachment) = engraving {
        owned_rights.entries.push(
            (OwnedRightType::Engraving.code(), Assignments::Attachment(vec![attachment])),
        );
    }
    let genesis = Genesis { schema_id, chain, metadata, owned_rights, public_rights: Vec::new() };
    proof {
        let got = metadata_view(genesis.metadata);
        assert(got.len() == wanted.len());
        assert forall|i: int| 0 <= i < got.len() implies got[i] == wanted[i] by {
            assert(got[i].1 =~= wanted[i].1);
        }
        assert(got =~= wanted);
        lemma_issued_genesis_conforms(genesis, terms, timestamp, supply);
        assert(genesis.owned_rights.entries@[0].1 matches Assignments::Value(v) && v@
            == assets_seq);
        if let Some(a) = attached {
            assert(genesis.owned_rights.entries@[1].1 matches Assignments::Attachment(w)
                && w@ =~= seq![a]);
        }
    }
    Ok(genesis)
}

/// A genesis that holds the metadata of an issue, assets and at most an
/// engraving conforms to the schema of the genesis.
pub proof fn lemma_issued_genesis_conforms(
    genesis: Genesis,
    terms: AssetTerms,
    timestamp: i64,
    supply: u64,
)
    requires
        metadata_view(genesis.metadata) == issued_metadata(terms, timestamp, supply),
        genesis.public_rights@.len() == 0,
        1 <= genesis.owned_rights.entries@.len() <= 2,
        genesis.owned_rights.entries@[0].0 == OwnedRightType::Assets.spec_code(),
        genesis.owned_rights.entries@.len() == 2 ==> genesis.owned_rights.entries@[1].0
            == OwnedRightType::Engraving.spec_code(),
    ensures
        genesis.wf(),
        genesis_conforms(genesis_view(), genesis),
{
    let table = genesis_view().metadata;
    let items = genesis.metadata.entries@;
    let views = metadata_view(genesis.metadata);
    assert(views.len() == items.len());
    assert forall|i: int| 0 <= i < items.len() implies (#[trigger] items[i]).0 == views[i].0
        && items[i].1.spec_count() == views[i].1.len() by {
        assert(views[i] == (items[i].0, items[i].1@.map_values(|v: Value| v@)));
    }
    let d: int = if terms.description is Some { 1 } else { 0 };
    let p: int = if terms.parent_id is Some { 1 } else { 0 };
    assert(views.len() == 5 + d + p);
    assert(views[0].0 == 0x01 && views[0].1.len() == 1);
    assert(views[1].0 == 0x03 && views[1].1.len() == 1);
    assert(views[2].0 == 0x04 && views[2].1.len() == 1);
    if d == 1 {
        assert(views[3].0 == 0x05 && views[3].1.len() == 1);
    }
    assert(views[3 + d].0 == 0x10);
    assert(views[4 + d].0 == 0xA0 && views[4 + d].1.len() == 1);
    if p == 1 {
        assert(views[5 + d].0 == 0xC3 && views[5 + d].1.len() == 1);
    }
    assert(increasing(items)) by {
        assert forall|i: int, j: int| 0 <= i < j < items.len() implies (#[trigger] items[i]).0 < (
        #[trigger] items[j]).0 by {
            assert(items[i].0 == views[i].0);
            assert(items[j].0 == views[j].0);
        }
    }
    assert forall|i: int| 0 <= i < table.len() implies has_code(table, (#[trigger] table[i]).0)
        && as_map(table)[table[i].0] == table[i].1 by {
        lemma_as_map_entry(table, i);
    }
    assert forall|i: int| 0 <= i < items.len() implies count_of(items, (#[trigger] items[i]).0)
        == items[i].1.spec_count() && has_code(items, items[i].0) by {
        lemma_as_map_entry(items, i);
    }
    assert(table[0].0 == items[0].0);
    assert(table[2].0 == items[1].0);
    assert(table[3].0 == items[2].0);
    assert(table[5].0 == items[3 + d].0);
    assert(table[7].0 == items[4 + d].0);
    if d == 1 {
        assert(table[4].0 == items[3].0);
    }
    if p == 1 {
        assert(table[8].0 == items[5 + d].0);
    }
    assert forall|code: u16| has_code(items, code) implies has_code(table, code) by {
        let i = position(items, code);
        assert(items[i].0 == code);
    }
    assert forall|code: u16| #[trigger] has_code(table, code) implies as_map(table)[code].admits(
        count_of(items, code),
    ) by {
        let j = position(table, code);
        assert(table[j].0 == code);
        if has_code(items, code) {
            let i = position(items, code);
            assert(items[i].0 == code);
        }
    }
    assert(slots_conform(table, items));
    let owned_table = genesis_view().owned_rights;
    let owned = genesis.owned_rights.entries@;
    assert(increasing(owned));
    assert forall|i: int| 0 <= i < owned_table.len() implies has_code(
        owned_table,
        (#[trigger] owned_table[i]).0,
    ) && as_map(owned_table)[owned_table[i].0] == owned_table[i].1 by {
        lemma_as_map_entry(owned_table, i);
    }
    assert(owned_table[0].0 == owned[0].0);
    if owned.len() == 2 {
        assert(owned_table[1].0 == owned[1].0);
    }
    assert forall|code: u16| has_code(owned, code) implies has_code(owned_table, code) by {
        let i = position(owned, code);
        assert(owned[i].0 == code);
    }
    assert forall|code: u16| #[trigger] has_code(owned_table, code) implies as_map(
        owned_table,
    )[code].admits(count_of(owned, code)) by {
        let j = position(owned_table, code);
        assert(owned_table[j].0 == code);
    }
    assert(slots_conform(owned_table, owned));
    assert(rights_conform(genesis_view().public_rights, genesis.public_rights@));
}

/// A contract: the schema that it is issued under, and its genesis.
#[derive(Debug)]
pub struct Contract {
    pub schema: Schema,
    pub genesis: Genesis,
}

/// The position of the first file, from position `from` on, that could not
/// be read.
pub open spec fn first_unreadable(files: Seq<FileAttachment>, from: int) -> Option<int>
    decreases files.len() - from,
{
    if from < 0 || from >= files.len() {
        None
    } else if files[from].content is None {
        Some(from)
    } else {
        first_unreadable(files, from + 1)
    }
}

/// What the genesis attaches for the given files and allocations: nothing
/// where there is no file or no allocation; else the last file, under the
/// commitment to the digest of what it holds, on a seal on the transaction
/// output of the last allocation.
pub open spec fn engraving_matches(
    engraving: Option<Attachment>,
    files: Seq<FileAttachment>,
    allocations: Seq<OutpointValue>,
) -> bool {
    if files.len() == 0 || allocations.len() == 0 {
        engraving is None
    } else {
        &&& engraving matches Some(a)
        &&& files.last().content matches Some(bytes)
        &&& a.id@ == attachment_commitment(sha256_digest(bytes@))
        &&& a.mime@ == files.last().mime@
        &&& a.salt == files.last().salt
        &&& a.seal.is_on(allocations.last().outpoint)
    }
}

/// The seal of an attachment: the seal on the given transaction output, to
/// be closed by a Taproot commitment, with the given blinding.
pub open spec fn engraving_seal(outpoint: OutPoint, blinding: u64) -> Seal {
    Seal::Revealed {
        method: CloseMethod::TapretFirst,
        txid: Some(outpoint.txid),
        vout: outpoint.vout,
        blinding,
    }
}

/// The genesis is that of the issue of an asset under `terms` at the time
/// `timestamp`, with the given files and the allocations `assets` made for
/// the amounts asked for: it records the terms, the time and the supply,
/// assigns the allocations, attaches what the files call for on a seal with
/// the blinding `seal_blinding`, and conforms to the complete schema.
pub open spec fn is_genesis_of_issue(
    genesis: Genesis,
    schema_id: SchemaId,
    chain: lnpbp::chain::Chain,
    terms: AssetTerms,
    timestamp: i64,
    files: Seq<FileAttachment>,
    allocations: Seq<OutpointValue>,
    assets: Seq<Allocation>,
    seal_blinding: u64,
) -> bool {
    &&& genesis.wf()
    &&& genesis_conforms(genesis_view(), genesis)
    &&& exists|engraving: Option<Attachment>|
        #![trigger is_genesis_of(genesis, schema_id, chain, terms, timestamp, assets, engraving)]
        is_genesis_of(genesis, schema_id, chain, terms, timestamp, assets, engraving)
            && engraving_matches(engraving, files, allocations) && (engraving matches Some(a)
            ==> a.seal == engraving_seal(allocations.last().outpoint, seal_blinding))
}

/// The contract is the primary issue of an asset under `terms` with the
/// given files and allocations: it is issued under the complete schema, and
/// its genesis records the terms and some time, allocates to each
/// transaction output asked for the amount asked for, as often as it was
/// asked for, attaches what the files call for, and conforms to the schema.
pub open spec fn is_issue(
    contract: Contract,
    chain: lnpbp::chain::Chain,
    terms: AssetTerms,
    files: Seq<FileAttachment>,
    allocations: Seq<OutpointValue>,
) -> bool {
    &&& contract.schema@ == schema_view()
    &&& contract.genesis.schema_id@ == schema_commitment(enc_schema(schema_view()))
    &&& exists|timestamp: i64, assets: Seq<Allocation>, seal_blinding: u64|
        #![trigger is_genesis_of_issue(contract.genesis, contract.genesis.schema_id, chain, terms, timestamp, files, allocations, assets, seal_blinding)]
        is_genesis_of_issue(
            contract.genesis,
            contract.genesis.schema_id,
            chain,
            terms,
            timestamp,
            files,
            allocations,
            assets,
            seal_blinding,
        ) && serves_issue(assets, allocations) && total(assets) == total(allocations)
}

/// Looks for a file that could not be read.
fn find_unreadable(files: &Vec<FileAttachment>) -> (r: Option<usize>)
    ensures
        match r {
            Some(i) => first_unreadable(files@, 0) == Some(i as int) && i < files@.len(),
            None => first_unreadable(files@, 0) is None && forall|i: int|
                0 <= i < files@.len() ==> (#[trigger] files@[i]).content is Some,
        },
{
    let mut i: usize = 0;
    while i < files.len()
        invariant
            i <= files@.len(),
            first_unreadable(files@, 0) == first_unreadable(files@, i as int),
            forall|j: int| 0 <= j < i ==> (#[trigger] files@[j]).content is Some,
        decreases files@.len() - i,
    {
        if files[i].content.is_none() {
            return Some(i);
        }
        i = i + 1;
    }
    None
}

/// Builds the genesis of the issue of an asset from what the blinding of
/// the amounts handed back: `blinded` holds the allocations that came
/// back, or `None` where some amount came back concealed, and
/// `seal_blinding` is the blinding of the seal of an attachment.
///
/// The issue fails, in this order: where the amounts asked for add up to
/// more than 64 bits hold; where a file could not be read, with the path
/// of the first such file; where the blinding failed, that is where nothing
/// usable came back or the allocations are not the ones that were asked
/// for, each as often as it was asked for. Else the genesis is built; it
/// records as supply the sum of the amounts asked for.
pub fn issue_of_blinded(
    schema_id: SchemaId,
    chain: lnpbp::chain::Chain,
    terms: AssetTerms,
    timestamp: i64,
    files: &Vec<FileAttachment>,
    allocations: &Vec<OutpointValue>,
    blinded: Option<Vec<Allocation>>,
    seal_blinding: u64,
) -> (r: Result<Genesis, Error>)
    ensures
        total(allocations@) > u64::MAX ==> r matches Err(Error::ArithmeticOverflow),
        total(allocations@) <= u64::MAX && first_unreadable(files@, 0) is Some ==> (r matches Err(
            Error::InvalidFileAttachment(path),
        ) && path@ == files@[first_unreadable(files@, 0)->0].file_path@),
        total(allocations@) <= u64::MAX && first_unreadable(files@, 0) is None && (blinded is None
            || !serves_issue(blinded->0@, allocations@)) ==> r matches Err(Error::BlindingFailure),
        total(allocations@) <= u64::MAX && first_unreadable(files@, 0) is None && blinded is Some
            && serves_issue(blinded->0@, allocations@) ==> (r matches Ok(g)
            && is_genesis_of_issue(
            g,
            schema_id,
            chain,
            terms,
            timestamp,
            files@,
            allocations@,
            blinded->0@,
            seal_blinding,
        )),
{
    if checked_total(allocations).is_none() {
        return Err(Error::ArithmeticOverflow);
    }
    if let Some(i) = find_unreadable(files) {
        return Err(Error::InvalidFileAttachment(files[i].file_path.clone()));
    }
    let assets = match blinded {
        Some(assets) => assets,
        None => {
            return Err(Error::BlindingFailure);
        },
    };
    if !does_serve_issue(&assets, allocations) {
        return Err(Error::BlindingFailure);
    }
    proof {
        law_served_issue_balances(assets@, allocations@);
    }
    let engraving = if files.len() > 0 && allocations.len() > 0 {
        let file = &files[files.len() - 1];
        let last = &allocations[allocations.len() - 1];
        match &file.content {
            Some(bytes) => Some(
                Attachment {
                    seal: Seal::Revealed {
                        method: CloseMethod::TapretFirst,
                        txid: Some(last.outpoint.txid),
                        vout: last.outpoint.vout,
                        blinding: seal_blinding,
                    },
                    id: commit_attachment(&sha256_of(bytes)),
                    mime: file.mime.duplicate(),
                    salt: file.salt,
                },
            ),
            None => None,
        }
    } else {
        None
    };
    let ghost assigned = assets@;
    let ghost attached = engraving;
    match genesis_of(schema_id, chain, terms, timestamp, allocations, assets, engraving) {
        Ok(genesis) => {
            proof {
                assert(is_genesis_of(
                    genesis,
                    schema_id,
                    chain,
                    terms,
                    timestamp,
                    assigned,
                    attached,
                ));
                assert(engraving_matches(attached, files@, allocations@));
            }
            Ok(genesis)
        },
        Err(e) => Err(e),
    }
}

/// The operations on consignments that are specific to RGB-121.
pub trait Rgb121: Sized {
    /// Whether `self` is the primary issue of an asset under `terms` with
    /// the given files and allocations.
    spec fn issues(
        &self,
        chain: lnpbp::chain::Chain,
        terms: AssetTerms,
        files: Seq<FileAttachment>,
        allocations: Seq<OutpointValue>,
    ) -> bool;

    /// Performs the primary issue of an asset.
    ///
    /// It fails where the amounts add up to more than 64 bits hold, and
    /// else where one of the files could not be read, with the path of the
    /// first such file. The time of issue is read from the clock, and the
    /// amounts are blinded at random; the genesis is then built from what
    /// the blinding hands back. An issue that passes the two checks fails
    /// only where the blinding does, and succeeds where no two of the
    /// allocations go to one transaction output.
    fn create_rgb121(
        chain: lnpbp::chain::Chain,
        name: AsciiString,
        description: Option<AsciiString>,
        precision: u8,
        parent_id: Option<AsciiString>,
        file_attachments: Vec<FileAttachment>,
        bytes_data_vec: Vec<Vec<u8>>,
        allocations: Vec<OutpointValue>,
    ) -> (r: Result<Self, Error>)
        ensures
            total(allocations@) > u64::MAX ==> r matches Err(Error::ArithmeticOverflow),
            total(allocations@) <= u64::MAX && first_unreadable(file_attachments@, 0) is Some
                ==> (r matches Err(Error::InvalidFileAttachment(path)) && path@
                == file_attachments@[first_unreadable(file_attachments@, 0)->0].file_path@),
            total(allocations@) <= u64::MAX && first_unreadable(file_attachments@, 0) is None
                ==> r is Ok || r matches Err(Error::BlindingFailure),
            total(allocations@) <= u64::MAX && first_unreadable(file_attachments@, 0) is None
                && on_distinct_seals(asked(allocations@)) ==> r is Ok,
            r matches Ok(c) ==> c.issues(
                chain,
                (AssetTerms { name, description, precision, parent_id, data: bytes_data_vec }),
                file_attachments@,
                allocations@,
            ),
    ;
}

impl Rgb121 for Contract {
    open spec fn issues(
        &self,
        chain: lnpbp::chain::Chain,
        terms: AssetTerms,
        files: Seq<FileAttachment>,
        allocations: Seq<OutpointValue>,
    ) -> bool {
        is_issue(*self, chain, terms, files, allocations)
    }

    fn create_rgb121(
        chain: lnpbp::chain::Chain,
        name: AsciiString,
        description: Option<AsciiString>,
        precision: u8,
        parent_id: Option<AsciiString>,
        file_attachments: Vec<FileAttachment>,
        bytes_data_vec: Vec<Vec<u8>>,
        allocations: Vec<OutpointValue>,
    ) -> (r: Result<Contract, Error>) {
        let terms = AssetTerms { name, description, precision, parent_id, data: bytes_data_vec };
        let now = unix_time();
        let supply = match checked_total(&allocations) {
            Some(t) => t,
            None => {
                return Err(Error::ArithmeticOverflow);
            },
        };
        let blinded = opened(&blind_issue(supply, &allocations));
        let seal_blinding: u64 = if file_attachments.len() > 0 && allocations.len() > 0 {
            match reveal_outpoint(&allocations[allocations.len() - 1].outpoint) {
                Seal::Revealed { method, txid, vout, blinding } => blinding,
                Seal::Concealed(_) => 0,
            }
        } else {
            0
        };
        let schema = schema();
        proof {
            lemma_root_schema_fits();
        }
        let schema_id = match schema.schema_id() {
            Some(id) => id,
            None => vstd::pervasive::unreached(),
        };
        let ghost came = blinded;
        proof {
            if came is Some && serves_issue(came->0@, allocations@) {
                law_served_issue_balances(came->0@, allocations@);
            }
        }
        match issue_of_blinded(
            schema_id,
            chain,
            terms,
            now,
            &file_attachments,
            &allocations,
            blinded,
            seal_blinding,
        ) {
            Ok(genesis) => {
                let contract = Contract { schema, genesis };
                proof {
                    assert(is_genesis_of_issue(
                        contract.genesis,
                        contract.genesis.schema_id,
                        chain,
                        terms,
                        now,
                        file_attachments@,
                        allocations@,
                        came->0@,
                        seal_blinding,
                    ));
                }
                Ok(contract)
            },
            Err(e) => Err(e),
        }
    }
}

} // verus!
