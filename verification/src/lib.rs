//! ecbx: the source-fact type layer for ECB (European Central Bank) data:
//! data types, the SDMX identity shape, offline conversion of documents into
//! observations, and a fail-closed authorization decision.
//!
//! What it does: turns the source facts of the inventory into checked
//! types, and refuses three overreaches outright: promoting curve points,
//! passing a declared dimension order off as the official one, and
//! authorizing without evidence.
//!
//! What it does not do: network collection, authentication, caching,
//! redistribution, storage, unit conversion, derived indicators.

pub mod authz;
pub mod error;
pub mod parse;
pub mod pit;
mod text;
pub mod value;

pub use authz::{
    current_authorization, decide_authorization, ensure_authorized, registered_evidence,
    EcbAuthorization, EcbAuthorizationEvidence,
};
pub use error::{EcbError, EcbErrorKind, EcbResult};
pub use parse::{
    describe_json_error, json_document_error, observations_from_wire, JsonCategory, WireDocument,
    WireObservation,
};
pub use pit::{
    publication_for_period, publication_semantics, AvailabilityEvidence, PitEligibility,
    TimePrecision,
};
pub use value::{
    attest_official_dimension_order, claim_fiscal_write_authority, ensure_not_curve_product,
    reject_curve_promotion, validate_dataflow_id, validate_observation, validate_series_identity,
    Date, EcbDataType, EcbDataflowId, EcbDimension, EcbMissingReason, EcbObservation, EcbProtocol,
    EcbSeriesIdentity, EcbValue, Frequency, Period, Unit,
};
