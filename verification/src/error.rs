//! Error kinds and the error type.
//!
//! The kinds follow how a caller should react: authorization refusals,
//! routing refusals, write-authority refusals and semantic refusals each have
//! a variant of their own, so no caller needs to match on message text.

use vstd::prelude::*;

verus! {

/// Error kind: how the caller should react.
#[non_exhaustive]
#[derive(Debug, Clone, Copy, PartialEq, Eq, Hash)]
pub enum EcbErrorKind {
    /// Malformed or out-of-range input (fix the data; retrying is pointless).
    Invalid,
    /// A required item is absent.
    Missing,
    /// The authorization decision did not pass (the fail-closed outcome).
    AuthorizationDenied,
    /// The product does not belong here and was routed elsewhere.
    RoutedElsewhere,
    /// A write that claims an authority held elsewhere.
    WriteAuthorityDenied,
    /// Parsable, but semantically not accepted.
    SemanticallyRejected,
    /// A planned capability that does not exist yet.
    NotApplicable,
    /// A broken invariant (a bug in this library).
    Invariant,
}

/// The error of this library: a kind and a human-readable reason.
#[non_exhaustive]
#[derive(Debug)]
pub enum EcbError {
    /// Invalid input.
    Invalid(String),
    /// A required item is absent.
    Missing(String),
    /// The authorization decision did not pass.
    AuthorizationDenied(String),
    /// The product belongs elsewhere.
    RoutedElsewhere(String),
    /// A write authority that is held elsewhere.
    WriteAuthorityDenied(String),
    /// Semantically not accepted.
    SemanticallyRejected(String),
    /// A planned capability that does not exist yet.
    NotApplicable(String),
    /// A broken invariant.
    Invariant(String),
}

/// Result type of this library.
pub type EcbResult<T> = Result<T, EcbError>;

/// The prefix that the rendered message of an error of kind `kind` starts with.
pub open spec fn kind_prefix(kind: EcbErrorKind) -> Seq<char> {
    match kind {
        EcbErrorKind::Invalid => "输入非法："@,
        EcbErrorKind::Missing => "缺少必需项："@,
        EcbErrorKind::AuthorizationDenied => "授权判定未通过："@,
        EcbErrorKind::RoutedElsewhere => "不属于本域，已路由他处："@,
        EcbErrorKind::WriteAuthorityDenied => "越权写入被拒绝："@,
        EcbErrorKind::SemanticallyRejected => "语义不被接受："@,
        EcbErrorKind::NotApplicable => "规划能力尚未实现："@,
        EcbErrorKind::Invariant => "不变量被破坏："@,
    }
}

/// `r` is an error of kind `kind` whose reason reads `reason`.
pub open spec fn fails_with<T>(r: EcbResult<T>, kind: EcbErrorKind, reason: Seq<char>) -> bool {
    &&& r is Err
    &&& r->Err_0.spec_kind() == kind
    &&& r->Err_0.reason() == reason
}

impl EcbError {
    /// The kind of this error.
    pub open spec fn spec_kind(&self) -> EcbErrorKind {
        match self {
            EcbError::Invalid(_) => EcbErrorKind::Invalid,
            EcbError::Missing(_) => EcbErrorKind::Missing,
            EcbError::AuthorizationDenied(_) => EcbErrorKind::AuthorizationDenied,
            EcbError::RoutedElsewhere(_) => EcbErrorKind::RoutedElsewhere,
            EcbError::WriteAuthorityDenied(_) => EcbErrorKind::WriteAuthorityDenied,
            EcbError::SemanticallyRejected(_) => EcbErrorKind::SemanticallyRejected,
            EcbError::NotApplicable(_) => EcbErrorKind::NotApplicable,
            EcbError::Invariant(_) => EcbErrorKind::Invariant,
        }
    }

    /// The reason carried by this error.
    pub open spec fn reason(&self) -> Seq<char> {
        match self {
            EcbError::Invalid(m) => m@,
            EcbError::Missing(m) => m@,
            EcbError::AuthorizationDenied(m) => m@,
            EcbError::RoutedElsewhere(m) => m@,
            EcbError::WriteAuthorityDenied(m) => m@,
            EcbError::SemanticallyRejected(m) => m@,
            EcbError::NotApplicable(m) => m@,
            EcbError::Invariant(m) => m@,
        }
    }

    /// The kind, so that callers branch on how to react instead of on text.
    #[must_use]
    #[verifier::when_used_as_spec(spec_kind)]
    pub fn kind(&self) -> (r: EcbErrorKind)
        ensures
            r == self.spec_kind(),
    {
        match self {
            EcbError::Invalid(_) => EcbErrorKind::Invalid,
            EcbError::Missing(_) => EcbErrorKind::Missing,
            EcbError::AuthorizationDenied(_) => EcbErrorKind::AuthorizationDenied,
            EcbError::RoutedElsewhere(_) => EcbErrorKind::RoutedElsewhere,
            EcbError::WriteAuthorityDenied(_) => EcbErrorKind::WriteAuthorityDenied,
            EcbError::SemanticallyRejected(_) => EcbErrorKind::SemanticallyRejected,
            EcbError::NotApplicable(_) => EcbErrorKind::NotApplicable,
            EcbError::Invariant(_) => EcbErrorKind::Invariant,
        }
    }

    /// Whether retrying can help. Nothing here touches a network, so only a
    /// broken invariant is worth a retry.
    #[must_use]
    pub fn is_retryable(&self) -> (r: bool)
        ensures
            r == (self.spec_kind() == EcbErrorKind::Invariant),
    {
        match self.kind() {
            EcbErrorKind::Invariant => true,
            _ => false,
        }
    }

    /// The reason carried by this error.
    pub fn reason_text(&self) -> (r: &str)
        ensures
            r@ == self.reason(),
    {
        match self {
            EcbError::Invalid(m) => m.as_str(),
            EcbError::Missing(m) => m.as_str(),
            EcbError::AuthorizationDenied(m) => m.as_str(),
            EcbError::RoutedElsewhere(m) => m.as_str(),
            EcbError::WriteAuthorityDenied(m) => m.as_str(),
            EcbError::SemanticallyRejected(m) => m.as_str(),
            EcbError::NotApplicable(m) => m.as_str(),
            EcbError::Invariant(m) => m.as_str(),
        }
    }

    /// The human-readable message: the kind's prefix, then the reason. It
    /// holds nothing but the reason that the library put there, never the
    /// raw input it rejected.
    pub fn message(&self) -> (r: String)
        ensures
            r@ == kind_prefix(self.spec_kind()) + self.reason(),
    {
        let mut r = String::new();
        match self.kind() {
            EcbErrorKind::Invalid => r.append("输入非法："),
            EcbErrorKind::Missing => r.append("缺少必需项："),
            EcbErrorKind::AuthorizationDenied => r.append("授权判定未通过："),
            EcbErrorKind::RoutedElsewhere => r.append("不属于本域，已路由他处："),
            EcbErrorKind::WriteAuthorityDenied => r.append("越权写入被拒绝："),
            EcbErrorKind::SemanticallyRejected => r.append("语义不被接受："),
            EcbErrorKind::NotApplicable => r.append("规划能力尚未实现："),
            EcbErrorKind::Invariant => r.append("不变量被破坏："),
        }
        r.append(self.reason_text());
        r
    }
}

} // verus!
