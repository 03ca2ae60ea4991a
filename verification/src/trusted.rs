//! The calls into the crates that this library builds on.
//!
//! Nothing in this file is proved. Each function says in its contract what
//! the crate behind it is taken to do; where a result is a function of the
//! arguments alone and too long to write out, it is named by a
//! specification function without a body.

use crate::contract::{Allocation, CloseMethod, OutPoint, RevealedValue, Seal};
use crate::create::OutpointValue;
use crate::request::{asked, on_distinct_seals, serves_issue, serves_transfer};
use crate::transfer::{Beneficiary, Change};
use amplify::{Slice32, Wrapper};
use bitcoin::{hashes, Txid};
use bitcoin::hashes::sha256;
use bp::seals::txout;
use commit_verify::{CommitVerify, TaggedHash};
use rgb::{seal, TypedAssignments, value};
use rgb::fungible::allocation::IntoSealValueMap;
use vstd::prelude::*;

verus! {

/// The assignments of one right type, as the RGB library holds them.
#[verifier::external_type_specification]
#[verifier::external_body]
pub struct ExTypedAssignments(rgb::TypedAssignments);

/// The seals, amounts and blinding factors of the amounts that the
/// assignments hold, in their order.
pub uninterp spec fn held(assignments: rgb::TypedAssignments) -> Seq<Allocation>;

/// Whether none of the amounts that the assignments hold is concealed.
pub uninterp spec fn all_open(assignments: rgb::TypedAssignments) -> bool;

/// The identifier that commits to the byte form `bytes` of a schema.
pub uninterp spec fn schema_commitment(bytes: Seq<u8>) -> Seq<u8>;

/// The text form of the schema identifier `id`.
pub uninterp spec fn schema_id_text(id: Seq<u8>) -> Seq<char>;

/// The SHA-256 digest of `bytes`.
pub uninterp spec fn sha256_digest(bytes: Seq<u8>) -> Seq<u8>;

/// The attachment identifier that commits to the digest `digest` of a file.
pub uninterp spec fn attachment_commitment(digest: Seq<u8>) -> Seq<u8>;

/// The order of the group of the curve secp256k1.
pub open spec fn curve_order() -> nat {
    0xFFFFFFFFFFFFFFFFFFFFFFFFFFFFFFFEBAAEDCE6AF48A03BBFD25E8CD0364141nat
}

/// The number that the bytes stand for, the most significant byte first.
pub open spec fn big_endian(bytes: Seq<u8>) -> nat
    decreases bytes.len(),
{
    if bytes.len() == 0 {
        0
    } else {
        big_endian(bytes.drop_last()) * 256 + bytes.last() as nat
    }
}

/// Whether `bytes` are a blinding factor, that is a secret key of the
/// curve: 32 bytes that stand for a number above zero and below the order
/// of the curve.
pub open spec fn is_blinding_factor(bytes: Seq<u8>) -> bool {
    bytes.len() == 32 && 0 < big_endian(bytes) < curve_order()
}

/// The sum of the numbers that the blinding factors stand for.
pub open spec fn sum_of_factors(factors: Seq<Seq<u8>>) -> nat
    decreases factors.len(),
{
    if factors.len() == 0 {
        0
    } else {
        sum_of_factors(factors.drop_last()) + big_endian(factors.last())
    }
}

/// Whether the blinding factors `factors` add up to a blinding factor:
/// whether their sum is no multiple of the order of the curve.
pub open spec fn blinding_factors_add_up(factors: Seq<Seq<u8>>) -> bool {
    sum_of_factors(factors) % curve_order() != 0
}

/// `rgb::SchemaId::commit`: the tagged SHA-256 hash, under the tag of schema
/// identifiers, of the given bytes. It is a function of the bytes alone.
#[verifier::external_body]
pub(crate) fn commit_schema(bytes: &Vec<u8>) -> (r: [u8; 32])
    ensures
        r@ == schema_commitment(bytes@),
{
    hashes::Hash::into_inner(rgb::SchemaId::commit(bytes).into_inner())
}

/// The `Display` of `rgb::SchemaId`: the Bech32 text of the identifier with
/// the prefix `rgbsh`. It is a function of the identifier alone.
#[verifier::external_body]
pub(crate) fn render_schema_id(id: &[u8; 32]) -> (r: String)
    ensures
        r@ == schema_id_text(id@),
{
    rgb::SchemaId::from_array(*id).to_string()
}

/// `bitcoin::hashes::sha256::Hash::hash`: the SHA-256 digest of the given
/// bytes.
#[verifier::external_body]
pub(crate) fn sha256_of(bytes: &Vec<u8>) -> (r: [u8; 32])
    ensures
        r@ == sha256_digest(bytes@),
{
    hashes::Hash::into_inner(<sha256::Hash as hashes::Hash>::hash(bytes))
}

/// `rgb::AttachmentId::commit` on a SHA-256 digest: the tagged hash, under
/// the tag of attachment identifiers, of the 32 bytes of the digest.
#[verifier::external_body]
pub(crate) fn commit_attachment(digest: &[u8; 32]) -> (r: [u8; 32])
    ensures
        r@ == attachment_commitment(digest@),
{
    let digest: sha256::Hash = hashes::Hash::from_inner(*digest);
    hashes::Hash::into_inner(rgb::AttachmentId::commit(&digest).into_inner())
}

/// `chrono::Utc::now` and `timestamp`: the seconds since the Unix epoch on
/// the clock of the machine. Nothing is known of the result. The call
/// panics on a machine whose clock stands before 1970, which no
/// precondition can leave out.
#[verifier::external_body]
pub(crate) fn unix_time() -> i64 {
    chrono::Utc::now().timestamp()
}

/// `RevealedSeal::from` on a transaction output: the seal on that output,
/// to be closed by a Taproot commitment, with a random blinding factor.
#[verifier::external_body]
pub(crate) fn reveal_outpoint(outpoint: &OutPoint) -> (r: Seal)
    ensures
        r.is_on(*outpoint),
{
    let txid: Txid = hashes::Hash::from_inner(outpoint.txid);
    let seal = seal::Revealed::from(bitcoin::OutPoint::new(txid, outpoint.vout));
    let method = match seal.method {
        txout::CloseMethod::OpretFirst => CloseMethod::OpretFirst,
        _ => CloseMethod::TapretFirst,
    };
    let txid = seal.txid.map(hashes::Hash::into_inner);
    Seal::Revealed { method, txid, vout: seal.vout, blinding: seal.blinding }
}

/// `OutpointValueVec::into_seal_value_map` and then
/// `TypedAssignments::zero_balanced` against the single input `supply` with
/// the blinding factor one: each amount is assigned to a seal on its
/// transaction output, with random blinding factors that add up to one.
/// Allocations on one seal are merged, so that only requests on distinct
/// transaction outputs are sure to be met one by one; no amount comes back
/// concealed. A failure of the blinding sum, of negligible probability,
/// panics.
#[verifier::external_body]
pub(crate) fn blind_issue(supply: u64, allocations: &Vec<OutpointValue>) -> (r: TypedAssignments)
    ensures
        all_open(r),
        on_distinct_seals(asked(allocations@)) ==> serves_issue(held(r), allocations@),
{
    let ours: Vec<rgb::fungible::allocation::OutpointValue> = allocations.iter().map(|a| {
        let txid: Txid = hashes::Hash::from_inner(a.outpoint.txid);
        let outpoint = bitcoin::OutPoint::new(txid, a.outpoint.vout);
        rgb::fungible::allocation::OutpointValue { value: a.value, outpoint }
    }).collect();
    let blinding = rgb::secp256k1zkp::key::ONE_KEY.into();
    let input = value::Revealed { value: supply, blinding };
    TypedAssignments::zero_balanced(vec![input], ours.into_seal_value_map(), Default::default())
}

/// `SecretKey::from_slice` of the curve library: whether the 32 bytes are a
/// secret key, that is whether they stand, the most significant byte
/// first, for a number above zero and below the order of the curve.
#[verifier::external_body]
pub(crate) fn is_secret_key(bytes: &[u8; 32]) -> (r: bool)
    ensures
        r == is_blinding_factor(bytes@),
{
    let curve = rgb::secp256k1zkp::Secp256k1::without_caps();
    rgb::secp256k1zkp::SecretKey::from_slice(&curve, bytes).is_ok()
}

/// `Secp256k1::blind_sum` of the curve library on the blinding factors of
/// the inputs: whether their sum modulo the order of the curve is a secret
/// key again, that is whether it is not zero. The sum panics on bytes that
/// are no secret key, which the precondition leaves out.
#[verifier::external_body]
pub(crate) fn have_blinding_sum(inputs: &Vec<RevealedValue>) -> (r: bool)
    requires
        forall|i: int| 0 <= i < inputs@.len() ==> is_blinding_factor((#[trigger] inputs@[i]).blinding@),
    ensures
        r == blinding_factors_add_up(inputs@.map_values(|i: RevealedValue| i.blinding@)),
{
    let keys = inputs.iter().map(|i| rgb::secp256k1zkp::SecretKey(i.blinding)).collect();
    rgb::secp256k1zkp::Secp256k1::without_caps().blind_sum(keys, vec![]).is_ok()
}

/// `RevealedSeal::from` on the seal of each change output and then
/// `TypedAssignments::zero_balanced` on the amounts that a transition
/// closes, the change and the payments: each amount is assigned to its
/// seal, the change seals with random blinding, and the blinding factors of
/// the amounts are random but add up to those of the inputs. Allocations on
/// one seal are merged, so that only requests on distinct seals are sure to
/// be met one by one; no amount comes back concealed. The blinding sum
/// panics on inputs that are no secret keys or that add up to none, which
/// the precondition leaves out; with random factors in the sum it fails,
/// and panics, with negligible probability.
#[verifier::external_body]
pub(crate) fn blind_transfer(
    inputs: &Vec<RevealedValue>,
    change: &Vec<Change>,
    beneficiaries: &Vec<Beneficiary>,
) -> (r: TypedAssignments)
    requires
        forall|i: int| 0 <= i < inputs@.len() ==> is_blinding_factor((#[trigger] inputs@[i]).blinding@),
        inputs@.len() > 0 ==> blinding_factors_add_up(
            inputs@.map_values(|i: RevealedValue| i.blinding@),
        ),
    ensures
        all_open(r),
        on_distinct_seals(asked(beneficiaries@) + asked(change@)) ==> serves_transfer(
            held(r),
            beneficiaries@,
            change@,
        ),
{
    let inputs = inputs.iter().map(|i| {
        value::Revealed { value: i.value, blinding: Slice32::from_inner(i.blinding).into() }
    }).collect();
    let ours = change.iter().map(|c| {
        let method = match c.method {
            CloseMethod::OpretFirst => txout::CloseMethod::OpretFirst,
            CloseMethod::TapretFirst => txout::CloseMethod::TapretFirst,
        };
        let txid = c.txid.map(hashes::Hash::from_inner);
        (txout::ExplicitSeal { method, txid, vout: c.vout }.into(), c.value)
    }).collect();
    let theirs = beneficiaries.iter().map(|b| (seal::Confidential::from_array(b.seal).into(), b.value));
    TypedAssignments::zero_balanced(inputs, ours, theirs.collect())
}

/// `TypedAssignments::to_value_assignments`, with `revealed_seal`,
/// `to_confidential_seal` and `as_revealed_state` on each assignment: the
/// seals, amounts and blinding factors of the assignments, in their order;
/// `None` where some amount is concealed.
#[verifier::external_body]
pub(crate) fn opened(assignments: &TypedAssignments) -> (r: Option<Vec<Allocation>>)
    ensures
        r is Some <==> all_open(*assignments),
        r matches Some(v) ==> v@ == held(*assignments),
{
    assignments.to_value_assignments().into_iter().map(|a| {
        let state = a.as_revealed_state()?;
        let seal = match a.revealed_seal() {
            None => Seal::Concealed(hashes::Hash::into_inner(a.to_confidential_seal().into_inner())),
            Some(s) => Seal::Revealed {
                method: match s.method {
                    txout::CloseMethod::OpretFirst => CloseMethod::OpretFirst,
                    _ => CloseMethod::TapretFirst,
                },
                txid: s.txid.map(hashes::Hash::into_inner), vout: s.vout, blinding: s.blinding,
            },
        };
        let blinding = state.blinding.into_inner().into_inner();
        Some(Allocation { seal, state: RevealedValue { value: state.value, blinding } })
    }).collect()
}

} // verus!
