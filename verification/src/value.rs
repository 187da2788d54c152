//! Value objects: dates, periods, identities and observations.
//!
//! Each submodule has one concern; dependencies run one way,
//! `error <- value::*`, with no cycle among the submodules.

pub mod date;
pub mod observation;
pub mod period;
pub mod series;

pub use date::Date;
pub use observation::{
    reject_curve_promotion, validate_observation, EcbMissingReason, EcbObservation, EcbValue, Unit,
};
pub use period::{Frequency, Period};
pub use series::{
    attest_official_dimension_order, claim_fiscal_write_authority, ensure_not_curve_product,
    validate_dataflow_id, validate_series_identity, EcbDataType, EcbDataflowId, EcbDimension,
    EcbProtocol, EcbSeriesIdentity,
};
