//! Fail-closed authorization decision.
//!
//! The decision is a read-only conclusion about whether this source's scope
//! may be accessed; it changes no registered state. The source has no owner
//! sign-off on file, so its registered evidence is absent and the current
//! decision is always `Denied`.

use vstd::prelude::*;

use crate::error::{fails_with, EcbError, EcbErrorKind, EcbResult};
use crate::text::{is_blank, str_is_blank, text_of};
use crate::value::date::Date;

verus! {

/// An authorization verdict.
#[non_exhaustive]
#[derive(Debug, Clone, PartialEq, Eq)]
pub enum EcbAuthorization {
    /// Access is authorized for `scope`.
    Authorized {
        /// The authorized scope.
        scope: String,
    },
    /// Access is denied.
    Denied {
        /// Why access is denied.
        reason: String,
    },
}

impl EcbAuthorization {
    /// Whether the verdict authorizes access.
    #[must_use]
    pub fn is_authorized(&self) -> (r: bool)
        ensures
            r == (self is Authorized),
    {
        match self {
            EcbAuthorization::Authorized { .. } => true,
            EcbAuthorization::Denied { .. } => false,
        }
    }

    /// Why access is denied; `None` when it is authorized.
    #[must_use]
    pub fn denial_reason(&self) -> (r: Option<&str>)
        ensures
            match self {
                EcbAuthorization::Authorized { .. } => r is None,
                EcbAuthorization::Denied { reason } => r matches Some(t) && t@ == reason@,
            },
    {
        match self {
            EcbAuthorization::Authorized { .. } => None,
            EcbAuthorization::Denied { reason } => Some(reason.as_str()),
        }
    }
}

/// The offline record of an authorization evidence. Signer, scope and
/// validity may each be unknown.
#[derive(Debug, Clone, PartialEq, Eq)]
pub struct EcbAuthorizationEvidence {
    /// Where the evidence is filed.
    pub reference: String,
    /// Who signed it, if known.
    pub signer: Option<String>,
    /// The scope it grants, if known.
    pub scope: Option<String>,
    /// The last day it is valid, if known.
    pub valid_until: Option<Date>,
}

impl EcbAuthorizationEvidence {
    /// Records an evidence as given; nothing is decided here.
    pub fn new(
        reference: &str,
        signer: Option<&str>,
        scope: Option<&str>,
        valid_until: Option<Date>,
    ) -> (r: EcbAuthorizationEvidence)
        ensures
            r.reference@ == reference@,
            match signer {
                Some(s) => r.signer matches Some(t) && t@ == s@,
                None => r.signer is None,
            },
            match scope {
                Some(s) => r.scope matches Some(t) && t@ == s@,
                None => r.scope is None,
            },
            r.valid_until == valid_until,
    {
        EcbAuthorizationEvidence {
            reference: text_of(reference),
            signer: match signer {
                Some(s) => Some(text_of(s)),
                None => None,
            },
            scope: match scope {
                Some(s) => Some(text_of(s)),
                None => None,
            },
            valid_until,
        }
    }
}

/// `a` is a day before `b`.
pub open spec fn day_before(a: Date, b: Date) -> bool {
    ||| a@.0 < b@.0
    ||| a@.0 == b@.0 && a@.1 < b@.1
    ||| a@.0 == b@.0 && a@.1 == b@.1 && a@.2 < b@.2
}

/// The evidence names a signer and a scope (neither blank) and a validity
/// that has not run out on `today`.
pub open spec fn grants(evidence: EcbAuthorizationEvidence, today: Date) -> bool {
    &&& evidence.signer is Some
    &&& !is_blank(evidence.signer->0@)
    &&& evidence.scope is Some
    &&& !is_blank(evidence.scope->0@)
    &&& evidence.valid_until is Some
    &&& !day_before(evidence.valid_until->0, today)
}

/// An evidence that names a signer and a scope grants access exactly up to
/// and including the last day of its validity: it grants on `today` if and
/// only if that day is `today` or later in the calendar. In particular a
/// validity that ended in an earlier year, or an earlier month of the same
/// year, never grants.
pub proof fn lemma_validity_runs_through_its_last_day(
    evidence: EcbAuthorizationEvidence,
    today: Date,
)
    requires
        evidence.signer is Some,
        !is_blank(evidence.signer->0@),
        evidence.scope is Some,
        !is_blank(evidence.scope->0@),
        evidence.valid_until is Some,
    ensures
        grants(evidence, today) <==> ({
            let last = evidence.valid_until->0;
            ||| last@.0 > today@.0
            ||| last@.0 == today@.0 && last@.1 > today@.1
            ||| last@.0 == today@.0 && last@.1 == today@.1 && last@.2 >= today@.2
        }),
        evidence.valid_until->0@.0 < today@.0 ==> !grants(evidence, today),
        evidence.valid_until->0@.0 == today@.0 && evidence.valid_until->0@.1 < today@.1
            ==> !grants(evidence, today),
{
}

/// Why an evidence grants nothing on `today`, checked in this order: no
/// signer, no scope, no validity, a validity that has run out.
pub open spec fn evidence_denial(evidence: EcbAuthorizationEvidence, today: Date) -> Seq<char> {
    if !(evidence.signer is Some && !is_blank(evidence.signer->0@)) {
        "证据未载明签署者：判定 fail-closed"@
    } else if !(evidence.scope is Some && !is_blank(evidence.scope->0@)) {
        "证据未载明授权范围：判定 fail-closed"@
    } else if evidence.valid_until is None {
        "证据未载明有效期：判定 fail-closed"@
    } else {
        "证据已过有效期：判定 fail-closed"@
    }
}

/// Why access is denied when there is no evidence at all.
pub open spec fn no_evidence_denial() -> Seq<char> {
    "无 Owner 签核文件：authorization = unknown，判定 fail-closed"@
}

fn is_day_before(a: Date, b: Date) -> (r: bool)
    ensures
        r == day_before(a, b),
{
    a.year() < b.year() || (a.year() == b.year() && a.month() < b.month()) || (a.year() == b.year()
        && a.month() == b.month() && a.day() < b.day())
}

/// Fail-closed decision: access is authorized only with an evidence that
/// names a signer, a scope and a validity still running on `today`; every
/// other case, an absent evidence first, is denied.
pub fn decide_authorization(evidence: Option<&EcbAuthorizationEvidence>, today: Date) -> (r:
    EcbAuthorization)
    ensures
        match evidence {
            Some(e) => if grants(*e, today) {
                r matches EcbAuthorization::Authorized { scope } && scope@ == e.scope->0@
            } else {
                r matches EcbAuthorization::Denied { reason } && reason@ == evidence_denial(
                    *e,
                    today,
                )
            },
            None => r matches EcbAuthorization::Denied { reason } && reason@ == no_evidence_denial(),
        },
        r matches EcbAuthorization::Denied { reason } ==> !is_blank(reason@),
        r is Authorized <==> (evidence matches Some(e) && e.signer is Some && !is_blank(
            e.signer->0@,
        ) && e.scope is Some && !is_blank(e.scope->0@) && e.valid_until is Some && ({
            let last = e.valid_until->0;
            ||| last@.0 > today@.0
            ||| last@.0 == today@.0 && last@.1 > today@.1
            ||| last@.0 == today@.0 && last@.1 == today@.1 && last@.2 >= today@.2
        })),
{
    let evidence = match evidence {
        Some(e) => e,
        None => {
            let reason = text_of("无 Owner 签核文件：authorization = unknown，判定 fail-closed");
            proof {
                reveal_strlit("无 Owner 签核文件：authorization = unknown，判定 fail-closed");
                assert(!crate::text::is_white_space(reason@[0]));
            }
            return EcbAuthorization::Denied { reason };
        },
    };
    let signed = match &evidence.signer {
        Some(s) => !str_is_blank(s.as_str()),
        None => false,
    };
    if !signed {
        let reason = text_of("证据未载明签署者：判定 fail-closed");
        proof {
            reveal_strlit("证据未载明签署者：判定 fail-closed");
            assert(!crate::text::is_white_space(reason@[0]));
        }
        return EcbAuthorization::Denied { reason };
    }
    let scope = match &evidence.scope {
        Some(s) => {
            if str_is_blank(s.as_str()) {
                None
            } else {
                Some(text_of(s.as_str()))
            }
        },
        None => None,
    };
    let scope = match scope {
        Some(s) => s,
        None => {
            let reason = text_of("证据未载明授权范围：判定 fail-closed");
            proof {
                reveal_strlit("证据未载明授权范围：判定 fail-closed");
                assert(!crate::text::is_white_space(reason@[0]));
            }
            return EcbAuthorization::Denied { reason };
        },
    };
    let until = match evidence.valid_until {
        Some(d) => d,
        None => {
            let reason = text_of("证据未载明有效期：判定 fail-closed");
            proof {
                reveal_strlit("证据未载明有效期：判定 fail-closed");
                assert(!crate::text::is_white_space(reason@[0]));
            }
            return EcbAuthorization::Denied { reason };
        },
    };
    if is_day_before(until, today) {
        let reason = text_of("证据已过有效期：判定 fail-closed");
        proof {
            reveal_strlit("证据已过有效期：判定 fail-closed");
            assert(!crate::text::is_white_space(reason@[0]));
        }
        return EcbAuthorization::Denied { reason };
    }
    EcbAuthorization::Authorized { scope }
}

/// The evidence registered for this source: none (no owner sign-off is on
/// file, and none is made up here).
#[must_use]
pub fn registered_evidence() -> (r: Option<EcbAuthorizationEvidence>)
    ensures
        r is None,
{
    None
}

/// The current decision for this source: with no registered evidence it is
/// always `Denied`.
#[must_use]
pub fn current_authorization(today: Date) -> (r: EcbAuthorization)
    ensures
        r matches EcbAuthorization::Denied { reason } && reason@ == no_evidence_denial(),
        r matches EcbAuthorization::Denied { reason } ==> !is_blank(reason@),
{
    let evidence = registered_evidence();
    decide_authorization(evidence.as_ref(), today)
}

/// Turns a `Denied` verdict into an `AuthorizationDenied` error that carries
/// its reason.
pub fn ensure_authorized(verdict: &EcbAuthorization) -> (r: EcbResult<()>)
    ensures
        verdict is Authorized ==> r is Ok,
        verdict matches EcbAuthorization::Denied { reason } ==> fails_with(
            r,
            EcbErrorKind::AuthorizationDenied,
            reason@,
        ),
{
    match verdict {
        EcbAuthorization::Authorized { .. } => Ok(()),
        EcbAuthorization::Denied { reason } => Err(
            EcbError::AuthorizationDenied(text_of(reason.as_str())),
        ),
    }
}

} // verus!
