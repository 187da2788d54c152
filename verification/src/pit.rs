//! Publication semantics for point-in-time use.
//!
//! The source publishes no official release calendar here, so every
//! observation is known only to the day, its availability is inferred, and
//! it is not eligible for formal point-in-time use.

use vstd::prelude::*;

use crate::value::date::Date;

verus! {

/// How precisely the publication time is known.
#[non_exhaustive]
#[derive(Debug, Clone, Copy, PartialEq, Eq, Hash)]
pub enum TimePrecision {
    /// Known to the day.
    Date,
    /// Known to the instant.
    Instant,
}

/// What the availability time rests on.
#[non_exhaustive]
#[derive(Debug, Clone, Copy, PartialEq, Eq, Hash)]
pub enum AvailabilityEvidence {
    /// An official publication record.
    Official,
    /// A published release calendar.
    Calendar,
    /// Inferred, with no record behind it.
    Inferred,
}

/// Whether the observation may be used as a formal point-in-time fact.
#[non_exhaustive]
#[derive(Debug, Clone, Copy, PartialEq, Eq, Hash)]
pub enum PitEligibility {
    /// Formally eligible.
    Formal,
    /// Not eligible.
    NotEligible,
}

/// The publication semantics of this source: known to the day, inferred,
/// not eligible.
#[must_use]
pub fn publication_semantics() -> (r: (TimePrecision, AvailabilityEvidence, PitEligibility))
    ensures
        r == (TimePrecision::Date, AvailabilityEvidence::Inferred, PitEligibility::NotEligible),
{
    (TimePrecision::Date, AvailabilityEvidence::Inferred, PitEligibility::NotEligible)
}

/// The publication semantics returned together with the given period day,
/// which takes no part in the decision.
#[must_use]
pub fn publication_for_period(period: Date) -> (r: (
    Date,
    TimePrecision,
    AvailabilityEvidence,
    PitEligibility,
))
    ensures
        r == (period, TimePrecision::Date, AvailabilityEvidence::Inferred, PitEligibility::NotEligible),
{
    let (precision, evidence, eligibility) = publication_semantics();
    (period, precision, evidence, eligibility)
}

} // verus!
