//! Schemata and contract operations for RGB-121 collectible assets.
//!
//! The crate holds
//! - the schema catalogue: the complete schema [`schema::schema`] and the
//!   subschema [`schema::subschema`] without engraving;
//! - the checks: that a genesis or a state transition conforms to a schema
//!   ([`validation`]), and that a schema restricts its root ([`subschema`]);
//! - the builders: of the genesis of a new asset ([`create`]) and of the
//!   state transitions that move it ([`transfer`]), with the test that the
//!   blinded allocations are the ones that were asked for ([`request`]);
//! - the canonical byte form of a schema ([`encoding`], [`decoding`]), which
//!   its identifier commits to;
//! - what holds of all of them ([`laws`]).
//!
//! Amounts are blinded, and hashes are computed, by the RGB and Bitcoin
//! libraries; the calls into them are gathered in [`trusted`].

pub mod amount;
pub mod codes;
pub mod contract;
pub mod create;
pub mod decoding;
pub mod encoding;
pub mod error;
pub mod laws;
pub mod occurrences;
pub mod request;
pub mod schema;
pub mod subschema;
pub mod text;
pub mod transfer;
pub mod trusted;
pub mod typemap;
pub mod types;
pub mod validation;
pub mod wire;

pub use codes::{FieldType, OwnedRightType, TransitionType};
pub use create::{issue_of_blinded, AssetTerms, Contract, FileAttachment, OutpointValue, Rgb121};
pub use error::{Error, Status, Validity};
pub use occurrences::{Bound, Occurrences, OccurrencesError};
pub use schema::{schema, subschema, Schema, SchemaId, SCHEMA_ID_BECH32, SUBSCHEMA_ID_BECH32};
pub use text::AsciiString;
pub use transfer::{
    build_transfer, transfer, transfer_of_blinded, Beneficiary, Change, ClosedAllocation,
};
pub use typemap::TypeMap;
