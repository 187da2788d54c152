//! Observations: the source unit, the named missing value and the
//! observation itself.
//!
//! The source unit is kept verbatim: unit conversion and derived indicators
//! belong downstream.

use vstd::prelude::*;
use vstd::std_specs::cmp::PartialEqSpecImpl;

use crate::error::{fails_with, EcbError, EcbErrorKind, EcbResult};
use crate::text::{is_blank, push_char, str_eq, str_is_blank, text_of, trim, trim_str};
use crate::value::date::{iso_fields, lemma_date_eq, lemma_iso_text_fields, Date};
use crate::value::period::{lemma_key_injective, Frequency, Period};
use crate::value::series::{
    dims_view, ensure_not_curve_product, escape_text, lemma_dims_key_no_colon,
    lemma_escape_no_separator, lemma_series_id_injective, lemma_split_at_separator, reports,
    series_fault, validate_series_identity, EcbDataType, EcbSeriesIdentity,
};

verus! {

/// The unit as the source writes it. No unit set is built in (the source
/// inventory gives none) and nothing is converted.
#[derive(Debug, Clone, PartialEq, Eq, Hash)]
pub struct Unit(String);

impl View for Unit {
    type V = Seq<char>;

    /// The unit text.
    closed spec fn view(&self) -> Seq<char> {
        self.0@
    }
}

impl Unit {
    /// Builds a unit from the source text, trimmed; a blank text is refused.
    pub fn try_new(text: &str) -> (r: EcbResult<Unit>)
        ensures
            is_blank(text@) ==> fails_with(r, EcbErrorKind::Missing, "源侧单位为空"@),
            !is_blank(text@) ==> (r matches Ok(u) && u@ == trim(text@)),
    {
        if str_is_blank(text) {
            return Err(EcbError::Missing(text_of("源侧单位为空")));
        }
        Ok(Unit(trim_str(text)))
    }

    /// The source unit text.
    #[must_use]
    pub fn text(&self) -> (r: &str)
        ensures
            r@ == self@,
    {
        self.0.as_str()
    }
}

/// Why a value is missing. This is the library's own classification, not
/// the source's status code list: a status given by the source is carried
/// verbatim.
#[non_exhaustive]
#[derive(Debug, Clone, PartialEq, Eq, Hash)]
pub enum EcbMissingReason {
    /// The source gave a status mark (kept verbatim).
    SourceStatus(String),
    /// The source gave no usable status mark.
    Unspecified,
}

impl EcbMissingReason {
    /// The readable description of this reason.
    pub open spec fn describe_text(&self) -> Seq<char> {
        match self {
            EcbMissingReason::SourceStatus(status) => status@,
            EcbMissingReason::Unspecified => "源侧未给出状态标记"@,
        }
    }

    /// The readable description: the status verbatim, or a fixed sentence.
    #[must_use]
    pub fn describe(&self) -> (r: &str)
        ensures
            r@ == self.describe_text(),
    {
        match self {
            EcbMissingReason::SourceStatus(status) => status.as_str(),
            EcbMissingReason::Unspecified => "源侧未给出状态标记",
        }
    }
}

/// The bit pattern of an IEEE 754 binary64 number (`f64::to_bits`) is that
/// of a finite number: its exponent field is not all ones.
pub open spec fn is_finite_bits(bits: u64) -> bool {
    (bits >> 52u64) & 0x7ffu64 != 0x7ffu64
}

/// An observed value, or a missing one with its reason. A missing value is
/// never turned into zero.
#[non_exhaustive]
#[derive(Debug, Clone)]
pub enum EcbValue {
    /// The number the source gave, as the bit pattern of an IEEE 754
    /// binary64 number (`f64::to_bits`).
    Value(u64),
    /// Missing, with its reason.
    Missing(EcbMissingReason),
}

impl EcbValue {
    /// The number, when there is one.
    #[must_use]
    pub fn value(&self) -> (r: Option<u64>)
        ensures
            r == match self {
                EcbValue::Value(bits) => Some(*bits),
                EcbValue::Missing(_) => None::<u64>,
            },
    {
        match self {
            EcbValue::Value(bits) => Some(*bits),
            EcbValue::Missing(_) => None,
        }
    }

    /// Whether the value is missing.
    #[must_use]
    pub fn is_missing(&self) -> (r: bool)
        ensures
            r == (self is Missing),
    {
        match self {
            EcbValue::Missing(_) => true,
            EcbValue::Value(_) => false,
        }
    }

    /// The reason a value is missing; `None` when there is a value.
    #[must_use]
    pub fn missing_reason(&self) -> (r: Option<&EcbMissingReason>)
        ensures
            r == match self {
                EcbValue::Value(_) => None::<&EcbMissingReason>,
                EcbValue::Missing(reason) => Some(reason),
            },
    {
        match self {
            EcbValue::Value(_) => None,
            EcbValue::Missing(reason) => Some(reason),
        }
    }
}

/// The bit pattern is that of a NaN: all ones in the exponent and a
/// fraction that is not zero.
pub open spec fn is_nan_bits(bits: u64) -> bool {
    !is_finite_bits(bits) && bits & 0x000f_ffff_ffff_ffffu64 != 0
}

/// The bit patterns name numbers that IEEE 754 `==` (the `==` of `f64`)
/// finds equal: neither is a NaN, and they are either both zeros, of
/// either sign, or the same pattern.
pub open spec fn same_number(a: u64, b: u64) -> bool {
    &&& !is_nan_bits(a)
    &&& !is_nan_bits(b)
    &&& (a & 0x7fff_ffff_ffff_ffffu64 == 0 && b & 0x7fff_ffff_ffff_ffffu64 == 0) || a == b
}

/// Two missing reasons are equal: the same variant, with the same status text.
pub open spec fn same_reason(a: EcbMissingReason, b: EcbMissingReason) -> bool {
    match (a, b) {
        (EcbMissingReason::SourceStatus(x), EcbMissingReason::SourceStatus(y)) => x@ == y@,
        (EcbMissingReason::Unspecified, EcbMissingReason::Unspecified) => true,
        _ => false,
    }
}

/// Two values are equal: two numbers equal as `f64` (so `0.0 == -0.0`, and a
/// NaN equals nothing), or two missing values with equal reasons.
pub open spec fn same_value(a: EcbValue, b: EcbValue) -> bool {
    match (a, b) {
        (EcbValue::Value(x), EcbValue::Value(y)) => same_number(x, y),
        (EcbValue::Missing(r), EcbValue::Missing(t)) => same_reason(r, t),
        _ => false,
    }
}

/// Whether two bit patterns name numbers that `f64`'s `==` finds equal.
fn numbers_equal(a: u64, b: u64) -> (r: bool)
    ensures
        r == same_number(a, b),
{
    let a_nan = (a >> 52u64) & 0x7ffu64 == 0x7ffu64 && a & 0x000f_ffff_ffff_ffffu64 != 0;
    let b_nan = (b >> 52u64) & 0x7ffu64 == 0x7ffu64 && b & 0x000f_ffff_ffff_ffffu64 != 0;
    if a_nan || b_nan {
        return false;
    }
    (a & 0x7fff_ffff_ffff_ffffu64 == 0 && b & 0x7fff_ffff_ffff_ffffu64 == 0) || a == b
}

impl PartialEq for EcbValue {
    fn eq(&self, other: &Self) -> (r: bool) {
        match (self, other) {
            (EcbValue::Value(x), EcbValue::Value(y)) => numbers_equal(*x, *y),
            (EcbValue::Missing(r), EcbValue::Missing(t)) => match (r, t) {
                (EcbMissingReason::SourceStatus(x), EcbMissingReason::SourceStatus(y)) => str_eq(
                    x.as_str(),
                    y.as_str(),
                ),
                (EcbMissingReason::Unspecified, EcbMissingReason::Unspecified) => true,
                _ => false,
            },
            _ => false,
        }
    }
}

impl PartialEqSpecImpl for EcbValue {
    open spec fn obeys_eq_spec() -> bool {
        true
    }

    open spec fn eq_spec(&self, other: &EcbValue) -> bool {
        same_value(*self, *other)
    }
}

/// One source observation of the ECB.
#[derive(Debug, Clone, PartialEq)]
pub struct EcbObservation {
    /// Series identity (`dataflow + DSD + dimension key + indicator + subject`).
    pub series: EcbSeriesIdentity,
    /// Data type.
    pub data_type: EcbDataType,
    /// Frequency.
    pub frequency: Frequency,
    /// Business period.
    pub period: Period,
    /// Value, or missing with a named reason.
    pub value: EcbValue,
    /// Source unit, verbatim.
    pub unit: Unit,
    /// Revision mark; `None` wherever the source publishes no vintage.
    pub vintage: Option<Date>,
}

/// The vintage part of a source identity: the date's text, or `none`.
pub open spec fn vintage_text(vintage: Option<Date>) -> Seq<char> {
    match vintage {
        Some(date) => date.iso(),
        None => seq!['n', 'o', 'n', 'e'],
    }
}

/// What is wrong with an observation whose period is valid, checked in this
/// order: a value that is not finite, the series identity, then a missing
/// reason that claims a source status but holds a blank one.
pub open spec fn observation_fault(observation: EcbObservation) -> Option<(EcbErrorKind, Seq<char>)> {
    if observation.value matches EcbValue::Value(bits) && !is_finite_bits(bits) {
        Some((EcbErrorKind::Invalid, "观测值必须是有限数值"@))
    } else if series_fault(observation.series) is Some {
        series_fault(observation.series)
    } else if observation.value matches EcbValue::Missing(EcbMissingReason::SourceStatus(status))
        && is_blank(status@) {
        Some((EcbErrorKind::SemanticallyRejected, "缺失原因声明为源侧状态，但状态原文为空"@))
    } else {
        None
    }
}

/// The outcome of checking an observation: an invalid period first (an
/// `Invalid` error with the period's reason), then [`observation_fault`].
pub open spec fn checks<T>(r: EcbResult<T>, observation: EcbObservation) -> bool {
    &&& !observation.period.is_valid() ==> fails_with(
        r,
        EcbErrorKind::Invalid,
        observation.period.fault_text(),
    )
    &&& observation.period.is_valid() ==> reports(r, observation_fault(observation))
}

impl EcbObservation {
    /// The full source identity: `series id:period key:vintage`.
    pub open spec fn source_series_id_text(self) -> Seq<char> {
        self.series.series_id_text() + seq![':'] + self.period.key_text() + seq![':']
            + vintage_text(self.vintage)
    }

    /// Builds an observation and checks it (see [`validate_observation`]).
    pub fn new(
        series: EcbSeriesIdentity,
        data_type: EcbDataType,
        frequency: Frequency,
        period: Period,
        value: EcbValue,
        unit: Unit,
        vintage: Option<Date>,
    ) -> (r: EcbResult<EcbObservation>)
        ensures
            checks(
                r,
                EcbObservation { series, data_type, frequency, period, value, unit, vintage },
            ),
            r matches Ok(o) ==> o == (EcbObservation {
                series,
                data_type,
                frequency,
                period,
                value,
                unit,
                vintage,
            }),
    {
        let observation = EcbObservation {
            series,
            data_type,
            frequency,
            period,
            value,
            unit,
            vintage,
        };
        validate_observation(&observation)?;
        Ok(observation)
    }

    /// The full source identity, period and vintage included.
    #[must_use]
    pub fn source_series_id(&self) -> (r: String)
        ensures
            r@ == self.source_series_id_text(),
    {
        let mut r = self.series.series_id();
        push_char(&mut r, ':');
        r.append(self.period.key().as_str());
        push_char(&mut r, ':');
        match self.vintage {
            Some(date) => r.append(date.to_iso().as_str()),
            None => {
                push_char(&mut r, 'n');
                push_char(&mut r, 'o');
                push_char(&mut r, 'n');
                push_char(&mut r, 'e');
            },
        }
        assert(r@ =~= self.source_series_id_text());
        r
    }
}

/// Cutting two texts at the last `sep`: when neither tail holds `sep`,
/// equal joins have equal heads and equal tails.
proof fn lemma_split_at_last_separator(
    x1: Seq<char>,
    y1: Seq<char>,
    x2: Seq<char>,
    y2: Seq<char>,
    sep: char,
)
    requires
        !y1.contains(sep),
        !y2.contains(sep),
        x1 + seq![sep] + y1 == x2 + seq![sep] + y2,
    ensures
        x1 == x2,
        y1 == y2,
{
    let h1 = x1 + seq![sep];
    let h2 = x2 + seq![sep];
    let j1 = h1 + y1;
    let j2 = h2 + y2;
    assert(j1.len() == j2.len());
    if y1.len() < y2.len() {
        let n = x1.len() as int;
        assert(j1[n] == h1[n]);
        assert(n >= h2.len());
        assert(j2[n] == y2[n - h2.len()]);
        assert(y2.contains(y2[n - h2.len()]));
    } else if y2.len() < y1.len() {
        let n = x2.len() as int;
        assert(j2[n] == h2[n]);
        assert(n >= h1.len());
        assert(j1[n] == y1[n - h1.len()]);
        assert(y1.contains(y1[n - h1.len()]));
    } else {
        assert(x1 =~= j1.subrange(0, x1.len() as int));
        assert(x2 =~= j2.subrange(0, x2.len() as int));
        assert(y1 =~= j1.skip(x1.len() as int + 1));
        assert(y2 =~= j2.skip(x2.len() as int + 1));
    }
}

/// A series identity text followed by `:` and a tail: equal joins have
/// equal identity texts and equal tails.
proof fn lemma_split_after_series(
    sa: EcbSeriesIdentity,
    ta: Seq<char>,
    sb: EcbSeriesIdentity,
    tb: Seq<char>,
)
    requires
        sa.series_id_text() + seq![':'] + ta == sb.series_id_text() + seq![':'] + tb,
    ensures
        sa.series_id_text() == sb.series_id_text(),
        ta == tb,
{
    let ea = escape_text(sa.dataflow.dataflow@);
    let eb = escape_text(sb.dataflow.dataflow@);
    let da = escape_text(sa.dataflow.dsd@);
    let db = escape_text(sb.dataflow.dsd@);
    let ka = sa.dataflow.dimension_key_text();
    let kb = sb.dataflow.dimension_key_text();
    let ia = escape_text(sa.indicator@);
    let ib = escape_text(sb.indicator@);
    let ua = escape_text(sa.subject@);
    let ub = escape_text(sb.subject@);
    lemma_escape_no_separator(sa.dataflow.dataflow@);
    lemma_escape_no_separator(sb.dataflow.dataflow@);
    lemma_escape_no_separator(sa.dataflow.dsd@);
    lemma_escape_no_separator(sb.dataflow.dsd@);
    lemma_escape_no_separator(sa.indicator@);
    lemma_escape_no_separator(sb.indicator@);
    lemma_escape_no_separator(sa.subject@);
    lemma_escape_no_separator(sb.subject@);
    lemma_dims_key_no_colon(sa.dataflow.dimensions@);
    lemma_dims_key_no_colon(sb.dataflow.dimensions@);
    let ra4 = ua + seq![':'] + ta;
    let rb4 = ub + seq![':'] + tb;
    let ra3 = ia + seq![':'] + ra4;
    let rb3 = ib + seq![':'] + rb4;
    let ra2 = ka + seq![':'] + ra3;
    let rb2 = kb + seq![':'] + rb3;
    let ra1 = da + seq![':'] + ra2;
    let rb1 = db + seq![':'] + rb2;
    assert(sa.series_id_text() + seq![':'] + ta =~= ea + seq![':'] + ra1);
    assert(sb.series_id_text() + seq![':'] + tb =~= eb + seq![':'] + rb1);
    lemma_split_at_separator(ea, ra1, eb, rb1, ':');
    lemma_split_at_separator(da, ra2, db, rb2, ':');
    lemma_split_at_separator(ka, ra3, kb, rb3, ':');
    lemma_split_at_separator(ia, ra4, ib, rb4, ':');
    lemma_split_at_separator(ua, ta, ub, tb, ':');
    assert(sa.series_id_text() =~= sb.series_id_text());
}

/// The vintage part of an identity holds no `:`, and tells its vintage
/// apart: `none` has four characters, a valid date's text ten, spelling the
/// date's parts.
proof fn lemma_vintage_text(v: Option<Date>)
    requires
        v matches Some(d) ==> d.is_valid(),
    ensures
        !vintage_text(v).contains(':'),
        v is None ==> vintage_text(v).len() == 4,
        v matches Some(d) ==> vintage_text(v).len() == 10 && iso_fields(vintage_text(v)) == d@,
{
    let s = vintage_text(v);
    match v {
        None => {
            assert forall|i: int| 0 <= i < s.len() implies s[i] != ':' by {}
        },
        Some(d) => {
            lemma_iso_text_fields(d@.0, d@.1, d@.2);
            assert forall|i: int| 0 <= i < s.len() implies s[i] != ':' by {
                if i < 4 {
                    assert(s.subrange(0, 4)[i] == s[i]);
                } else if 4 < i < 7 {
                    assert(s.subrange(5, 7)[i - 5] == s[i]);
                } else if 7 < i {
                    assert(s.subrange(8, 10)[i - 8] == s[i]);
                }
            }
        },
    }
}

/// Two observations with the same source identity agree on all that the
/// identity names: the series (each component by its text, the dimensions
/// in order), the period and the vintage. Separators cannot collide,
/// whatever the components hold.
pub proof fn lemma_source_series_id_injective(a: EcbObservation, b: EcbObservation)
    requires
        a.period.is_valid(),
        b.period.is_valid(),
        a.vintage matches Some(d) ==> d.is_valid(),
        b.vintage matches Some(d) ==> d.is_valid(),
        a.source_series_id_text() == b.source_series_id_text(),
    ensures
        a.series.dataflow.dataflow@ == b.series.dataflow.dataflow@,
        a.series.dataflow.dsd@ == b.series.dataflow.dsd@,
        dims_view(a.series.dataflow.dimensions@) == dims_view(b.series.dataflow.dimensions@),
        a.series.indicator@ == b.series.indicator@,
        a.series.subject@ == b.series.subject@,
        a.period == b.period,
        a.vintage == b.vintage,
{
    let va = vintage_text(a.vintage);
    let vb = vintage_text(b.vintage);
    let ta = a.period.key_text() + seq![':'] + va;
    let tb = b.period.key_text() + seq![':'] + vb;
    assert(a.source_series_id_text() =~= a.series.series_id_text() + seq![':'] + ta);
    assert(b.source_series_id_text() =~= b.series.series_id_text() + seq![':'] + tb);
    lemma_split_after_series(a.series, ta, b.series, tb);
    lemma_series_id_injective(a.series, b.series);
    lemma_vintage_text(a.vintage);
    lemma_vintage_text(b.vintage);
    lemma_split_at_last_separator(a.period.key_text(), va, b.period.key_text(), vb, ':');
    lemma_key_injective(a.period, b.period);
    if let Some(x) = a.vintage {
        if let Some(y) = b.vintage {
            lemma_date_eq(x, y);
        }
    }
}

/// Checks an observation for completeness and internal consistency: a valid
/// period, a finite value, a valid series identity, and a named source
/// status that is not blank.
pub fn validate_observation(observation: &EcbObservation) -> (r: EcbResult<()>)
    ensures
        checks(r, *observation),
{
    observation.period.validate()?;
    if let EcbValue::Value(bits) = observation.value {
        if (bits >> 52u64) & 0x7ffu64 == 0x7ffu64 {
            return Err(EcbError::Invalid(text_of("观测值必须是有限数值")));
        }
    }
    validate_series_identity(&observation.series)?;
    if let EcbValue::Missing(EcbMissingReason::SourceStatus(status)) = &observation.value {
        if str_is_blank(status.as_str()) {
            return Err(
                EcbError::SemanticallyRejected(
                    text_of("缺失原因声明为源侧状态，但状态原文为空"),
                ),
            );
        }
    }
    Ok(())
}

/// Refuses to promote a curve-point observation to an ordinary one: curve
/// points are mapped elsewhere, never promoted here.
pub fn reject_curve_promotion(observation: &EcbObservation) -> (r: EcbResult<()>)
    ensures
        !observation.data_type.is_curve() ==> r is Ok,
        observation.data_type.is_curve() ==> fails_with(
            r,
            EcbErrorKind::RoutedElsewhere,
            observation.data_type.code_text()
                + " 是曲线点：须经 yieldx 映射批准后方可进内核，本库不晋级"@,
        ),
{
    ensure_not_curve_product(&observation.data_type)
}

} // verus!
