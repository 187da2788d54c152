//! Offline conversion of a decoded document into observations.
//!
//! The document is `{ "_synthetic": <bool>, "_note": <string>,
//! "observations": [ ... ] }`; decoding the JSON text into
//! [`WireDocument`] (refusing unknown fields) happens before this module.
//! Two hard rules hold here: one failing observation fails the whole
//! document (no partial result), and a repeated identity is refused, never
//! deduplicated and never overwritten.

use vstd::prelude::*;

use crate::error::{fails_with, EcbError, EcbErrorKind, EcbResult};
use crate::text::{decimal, is_blank, push_decimal, str_is_blank, text_of, trim};
use crate::value::date::{date_text_fault, Date};
use crate::value::observation::{
    is_finite_bits, EcbMissingReason, EcbObservation, EcbValue, Unit,
};
use crate::value::period::{period_text_fault, Frequency, Period};
use crate::value::series::{
    dims_key_text, escape_text, identity_fault, series_fault, EcbDataType, EcbDataflowId, EcbDimension,
    EcbSeriesIdentity,
};

verus! {

/// One observation as the document writes it.
pub struct WireObservation {
    /// Dataflow name.
    pub dataflow: String,
    /// DSD name.
    pub dsd: String,
    /// Dimensions, in the declared order.
    pub dimensions: Vec<EcbDimension>,
    /// Indicator.
    pub indicator: String,
    /// Subject.
    pub subject: String,
    /// Data type code (one of the seven).
    pub data_type: String,
    /// Frequency name.
    pub freq: String,
    /// Period key.
    pub period: String,
    /// The value as the bit pattern of an IEEE 754 binary64 number; `None`
    /// when the document gives none.
    pub value: Option<u64>,
    /// The source's observation status, which names the reason of a missing value.
    pub obs_status: Option<String>,
    /// Source unit.
    pub unit: String,
    /// Revision date, where the source publishes one.
    pub vintage_date: Option<String>,
}

/// A whole document.
pub struct WireDocument {
    /// The synthetic-sample mark; it must be `true`.
    pub synthetic: bool,
    /// What the synthetic sample is; it must not be blank.
    pub note: String,
    /// The observations.
    pub observations: Vec<WireObservation>,
}

/// `s` is the key of some valid period.
pub open spec fn is_period_key(s: Seq<char>) -> bool {
    exists|p: Period| #[trigger] p.is_valid() && p.key_text() == s
}

/// `s` is the text of some valid date.
pub open spec fn is_date_text(s: Seq<char>) -> bool {
    exists|d: Date| #[trigger] d.is_valid() && d.iso() == s
}

/// `s` is the code of a data type.
pub open spec fn is_type_code(s: Seq<char>) -> bool {
    exists|t: EcbDataType| #[trigger] t.code_text() == s
}

/// `s` is the name of a frequency.
pub open spec fn is_frequency_name(s: Seq<char>) -> bool {
    exists|f: Frequency| #[trigger] f.name_text() == s
}

/// The first check that a wire observation fails, in the order of
/// conversion: its kind and its reason.
pub open spec fn wire_fault(w: WireObservation) -> Option<(EcbErrorKind, Seq<char>)> {
    let identity = identity_fault(w.dataflow@, w.dsd@, w.dimensions@);
    if identity is Some {
        identity
    } else if is_blank(w.indicator@) {
        Some((EcbErrorKind::Missing, "indicator 为空"@))
    } else if is_blank(w.subject@) {
        Some((EcbErrorKind::Missing, "subject 为空"@))
    } else if !is_type_code(w.data_type@) {
        Some((EcbErrorKind::Invalid, "未知数据类型码："@ + w.data_type@))
    } else if !is_frequency_name(w.freq@) {
        Some((EcbErrorKind::Invalid, "未知频率："@ + w.freq@))
    } else if !is_period_key(w.period@) {
        Some((EcbErrorKind::Invalid, period_text_fault(w.period@)))
    } else if is_blank(w.unit@) {
        Some((EcbErrorKind::Missing, "源侧单位为空"@))
    } else if w.vintage_date is Some && !is_date_text(w.vintage_date->0@) {
        Some((EcbErrorKind::Invalid, date_text_fault(w.vintage_date->0@)))
    } else if w.value is Some && !is_finite_bits(w.value->0) {
        Some((EcbErrorKind::Invalid, "观测值必须是有限数值"@))
    } else {
        None
    }
}

/// Each field of a wire observation passes its own check: the dataflow
/// identity, a non-blank indicator and subject, a known type code, a known
/// frequency name, the key of a valid period, a non-blank unit, the text of
/// a valid date as vintage (when there is one) and a finite value (when
/// there is one). No check relates two fields, such as the frequency and
/// the period's granularity.
pub open spec fn fields_pass(w: WireObservation) -> bool {
    &&& identity_fault(w.dataflow@, w.dsd@, w.dimensions@) is None
    &&& !is_blank(w.indicator@)
    &&& !is_blank(w.subject@)
    &&& is_type_code(w.data_type@)
    &&& is_frequency_name(w.freq@)
    &&& is_period_key(w.period@)
    &&& !is_blank(w.unit@)
    &&& (w.vintage_date matches Some(t) ==> is_date_text(t@))
    &&& (w.value matches Some(bits) ==> is_finite_bits(bits))
}

/// A wire observation is refused exactly when one of its fields fails its
/// own check: any pairing of a known frequency with a valid period is
/// accepted (a weekly balance sheet on a day key, say).
pub proof fn lemma_wire_acceptance(w: WireObservation)
    ensures
        wire_fault(w) is None <==> ({
            &&& identity_fault(w.dataflow@, w.dsd@, w.dimensions@) is None
            &&& !is_blank(w.indicator@)
            &&& !is_blank(w.subject@)
            &&& is_type_code(w.data_type@)
            &&& is_frequency_name(w.freq@)
            &&& is_period_key(w.period@)
            &&& !is_blank(w.unit@)
            &&& (w.vintage_date matches Some(t) ==> is_date_text(t@))
            &&& (w.value matches Some(bits) ==> is_finite_bits(bits))
        }),
        wire_fault(w) is None <==> fields_pass(w),
{
}

/// The reason of a missing value: the source status when it is not blank.
pub open spec fn missing_reason_of(status: Option<String>) -> EcbMissingReason {
    if status is Some && !is_blank(status->0@) {
        EcbMissingReason::SourceStatus(status->0)
    } else {
        EcbMissingReason::Unspecified
    }
}

/// `o` is the observation that the wire observation `w` converts to.
pub open spec fn built_from(o: EcbObservation, w: WireObservation) -> bool {
    &&& o.series.dataflow.dataflow@ == w.dataflow@
    &&& o.series.dataflow.dsd@ == w.dsd@
    &&& o.series.dataflow.dimensions@ == w.dimensions@
    &&& o.series.indicator@ == w.indicator@
    &&& o.series.subject@ == w.subject@
    &&& o.data_type.code_text() == w.data_type@
    &&& o.frequency.name_text() == w.freq@
    &&& o.period.is_valid()
    &&& o.period.key_text() == w.period@
    &&& o.unit@ == trim(w.unit@)
    &&& match w.vintage_date {
        None => o.vintage is None,
        Some(t) => o.vintage matches Some(d) && d.is_valid() && d.iso() == t@,
    }
    &&& match w.value {
        Some(bits) => o.value == EcbValue::Value(bits),
        None => o.value == EcbValue::Missing(missing_reason_of(w.obs_status)),
    }
}

/// The source identity that a wire observation converts to.
pub open spec fn wire_identity(w: WireObservation) -> Seq<char> {
    escape_text(w.dataflow@) + seq![':'] + escape_text(w.dsd@) + seq![':'] + dims_key_text(
        w.dimensions@,
    ) + seq![':'] + escape_text(w.indicator@) + seq![':'] + escape_text(w.subject@) + seq![':']
        + w.period@ + seq![':'] + match w.vintage_date {
        None => seq!['n', 'o', 'n', 'e'],
        Some(t) => t@,
    }
}

/// The observation converted from a wire observation has the identity of it.
pub proof fn lemma_built_identity(o: EcbObservation, w: WireObservation)
    requires
        built_from(o, w),
    ensures
        o.source_series_id_text() == wire_identity(w),
{
    assert(o.source_series_id_text() =~= wire_identity(w));
}

/// `r` is what converting `w` gives: the observation built from it, or the
/// error of its first failing check.
pub open spec fn converts(r: EcbResult<EcbObservation>, w: WireObservation) -> bool {
    match wire_fault(w) {
        None => r matches Ok(o) && built_from(o, w),
        Some(f) => fails_with(r, f.0, f.1),
    }
}

/// The observation at `index` fails, or repeats the identity of an earlier one.
pub open spec fn wire_bad_at(ws: Seq<WireObservation>, index: int) -> bool {
    ||| wire_fault(ws[index]) is Some
    ||| exists|j: int| 0 <= j < index && #[trigger] wire_identity(ws[j]) == wire_identity(ws[index])
}

/// The first observation at or after `index` that fails or repeats an identity.
pub open spec fn first_bad_wire(ws: Seq<WireObservation>, index: int) -> Option<int>
    decreases ws.len() - index,
{
    if index < 0 || index >= ws.len() {
        None
    } else if wire_bad_at(ws, index) {
        Some(index)
    } else {
        first_bad_wire(ws, index + 1)
    }
}

/// When no observation at or after `index` fails or repeats an earlier
/// identity, there is no first bad one.
proof fn lemma_first_bad_wire_none(ws: Seq<WireObservation>, index: int)
    requires
        0 <= index <= ws.len(),
        forall|k: int| index <= k < ws.len() ==> !#[trigger] wire_bad_at(ws, k),
    ensures
        first_bad_wire(ws, index) is None,
    decreases ws.len() - index,
{
    if index < ws.len() {
        assert(!wire_bad_at(ws, index));
        lemma_first_bad_wire_none(ws, index + 1);
    }
}

/// A document whose observations each pass their own checks, with
/// pairwise distinct identities, has no bad observation.
proof fn lemma_clean_document(ws: Seq<WireObservation>)
    requires
        forall|i: int| 0 <= i < ws.len() ==> fields_pass(#[trigger] ws[i]),
        forall|i: int, j: int|
            0 <= i < j < ws.len() ==> wire_identity(#[trigger] ws[i]) != wire_identity(
                #[trigger] ws[j],
            ),
    ensures
        first_bad_wire(ws, 0) is None,
{
    assert forall|k: int| 0 <= k < ws.len() implies !#[trigger] wire_bad_at(ws, k) by {
        lemma_wire_acceptance(ws[k]);
        assert(fields_pass(ws[k]));
        if exists|j: int| 0 <= j < k && #[trigger] wire_identity(ws[j]) == wire_identity(ws[k]) {
            let j = choose|j: int|
                0 <= j < k && #[trigger] wire_identity(ws[j]) == wire_identity(ws[k]);
            assert(wire_identity(ws[j]) != wire_identity(ws[k]));
        }
    }
    lemma_first_bad_wire_none(ws, 0);
}

/// The position prefix put in front of the reason of an observation's error.
pub open spec fn position_prefix(index: int) -> Seq<char> {
    "第 "@ + decimal(index as nat) + " 条观测："@
}

/// The category of a JSON decoding failure (the categories of
/// `serde_json::error::Category`).
#[derive(Debug, Clone, Copy, PartialEq, Eq)]
pub enum JsonCategory {
    /// Reading or writing bytes failed.
    Io,
    /// The text is not syntactically valid JSON.
    Syntax,
    /// The data does not fit the document's shape.
    Data,
    /// The text ended too early.
    Eof,
}

impl JsonCategory {
    /// The category's name.
    pub open spec fn name_text(self) -> Seq<char> {
        match self {
            JsonCategory::Io => "Io"@,
            JsonCategory::Syntax => "Syntax"@,
            JsonCategory::Data => "Data"@,
            JsonCategory::Eof => "Eof"@,
        }
    }

    /// The category's name.
    pub fn name(&self) -> (r: &'static str)
        ensures
            r@ == self.name_text(),
    {
        match self {
            JsonCategory::Io => "Io",
            JsonCategory::Syntax => "Syntax",
            JsonCategory::Data => "Data",
            JsonCategory::Eof => "Eof",
        }
    }
}

/// The reason given for a JSON text that cannot be decoded: the line, the
/// column and the category, and nothing of the text itself.
pub open spec fn json_document_reason(line: nat, column: nat, category: JsonCategory) -> Seq<char> {
    "JSON 文档不可解析（行 "@ + decimal(line) + " 列 "@ + decimal(column) + "，分类 "@
        + category.name_text() + "）：请检查字段名、类型与取值形态"@
}

/// The error for a document whose JSON text cannot be decoded. It names
/// the line, the column and the category only: the offending text is never
/// echoed, so neither a credential nor a configuration line can leak into
/// the message.
pub fn json_document_error(line: usize, column: usize, category: JsonCategory) -> (r: EcbError)
    ensures
        r.spec_kind() == EcbErrorKind::Invalid,
        r.reason() == json_document_reason(line as nat, column as nat, category),
{
    let mut m = String::new();
    m.append("JSON 文档不可解析（行 ");
    push_decimal(&mut m, line as u64);
    m.append(" 列 ");
    push_decimal(&mut m, column as u64);
    m.append("，分类 ");
    m.append(category.name());
    m.append("）：请检查字段名、类型与取值形态");
    EcbError::Invalid(m)
}

/// The decoding error of `serde_json`, carried through opaquely.
#[verifier::external_type_specification]
#[verifier::external_body]
pub struct ExJsonError(serde_json::Error);

/// The line that `serde_json::Error::line` reports for `error`; it is a
/// field of the error value, so the same error gives the same line.
pub uninterp spec fn json_line_of(error: serde_json::Error) -> usize;

/// The column that `serde_json::Error::column` reports for `error`.
pub uninterp spec fn json_column_of(error: serde_json::Error) -> usize;

/// The category that `serde_json::Error::classify` reports for `error`.
pub uninterp spec fn json_category_of(error: serde_json::Error) -> JsonCategory;

/// The line at which `serde_json` detected the error (`Error::line`, which
/// returns a field of the error). The contract says only that the result
/// is the error's line, [`json_line_of`]; which number that is (the
/// documentation calls it one-based, but an error without a position has
/// 0) is not claimed.
#[verifier::external_body]
fn json_error_line(error: &serde_json::Error) -> (r: usize)
    ensures
        r == json_line_of(*error),
{
    error.line()
}

/// The column at which `serde_json` detected the error (`Error::column`,
/// a field of the error): the result is the error's column,
/// [`json_column_of`]; which number that is (it may be 0) is not claimed.
#[verifier::external_body]
fn json_error_column(error: &serde_json::Error) -> (r: usize)
    ensures
        r == json_column_of(*error),
{
    error.column()
}

/// The category of the error (`Error::classify`, decided by the error's
/// code alone), variant for variant: the result is the error's category,
/// [`json_category_of`]; which category an error has is not claimed.
#[verifier::external_body]
fn json_error_category(error: &serde_json::Error) -> (r: JsonCategory)
    ensures
        r == json_category_of(*error),
{
    match error.classify() {
        serde_json::error::Category::Io => JsonCategory::Io,
        serde_json::error::Category::Syntax => JsonCategory::Syntax,
        serde_json::error::Category::Data => JsonCategory::Data,
        serde_json::error::Category::Eof => JsonCategory::Eof,
    }
}

/// Turns a JSON decoding error into this library's error: an `Invalid`
/// error whose reason names the error's line, column and category, and
/// nothing of the offending text.
pub fn describe_json_error(error: serde_json::Error) -> (r: EcbError)
    ensures
        r.spec_kind() == EcbErrorKind::Invalid,
        r.reason() == json_document_reason(
            json_line_of(error) as nat,
            json_column_of(error) as nat,
            json_category_of(error),
        ),
{
    let line = json_error_line(&error);
    let column = json_error_column(&error);
    let category = json_error_category(&error);
    json_document_error(line, column, category)
}

/// The same error with the observation's position put in front of its
/// reason; the kind is kept.
fn annotate(index: usize, error: EcbError) -> (r: EcbError)
    ensures
        r.spec_kind() == error.spec_kind(),
        r.reason() == position_prefix(index as int) + error.reason(),
{
    let mut message = String::new();
    message.append("第 ");
    push_decimal(&mut message, index as u64);
    message.append(" 条观测：");
    message.append(error.reason_text());
    match error {
        EcbError::Invalid(_) => EcbError::Invalid(message),
        EcbError::Missing(_) => EcbError::Missing(message),
        EcbError::AuthorizationDenied(_) => EcbError::AuthorizationDenied(message),
        EcbError::RoutedElsewhere(_) => EcbError::RoutedElsewhere(message),
        EcbError::WriteAuthorityDenied(_) => EcbError::WriteAuthorityDenied(message),
        EcbError::SemanticallyRejected(_) => EcbError::SemanticallyRejected(message),
        EcbError::NotApplicable(_) => EcbError::NotApplicable(message),
        EcbError::Invariant(_) => EcbError::Invariant(message),
    }
}

/// Converts one wire observation, check by check.
fn convert(wire: WireObservation) -> (r: EcbResult<EcbObservation>)
    ensures
        converts(r, wire),
{
    let ghost w = wire;
    let WireObservation {
        dataflow,
        dsd,
        dimensions,
        indicator,
        subject,
        data_type,
        freq,
        period,
        value,
        obs_status,
        unit,
        vintage_date,
    } = wire;
    let dataflow = EcbDataflowId::try_new(dataflow.as_str(), dsd.as_str(), dimensions)?;
    let series = EcbSeriesIdentity::try_new(dataflow, indicator.as_str(), subject.as_str())?;
    let data_type = EcbDataType::from_code(data_type.as_str())?;
    let frequency = Frequency::from_name(freq.as_str())?;
    let period = Period::parse(period.as_str())?;
    let unit = Unit::try_new(unit.as_str())?;
    let vintage = match vintage_date {
        Some(text) => Some(Date::parse(text.as_str())?),
        None => None,
    };
    let value = match value {
        Some(bits) => EcbValue::Value(bits),
        None => EcbValue::Missing(
            match obs_status {
                Some(status) => {
                    if !str_is_blank(status.as_str()) {
                        EcbMissingReason::SourceStatus(status)
                    } else {
                        EcbMissingReason::Unspecified
                    }
                },
                None => EcbMissingReason::Unspecified,
            },
        ),
    };
    let ghost candidate = EcbObservation {
        series,
        data_type,
        frequency,
        period,
        value,
        unit,
        vintage,
    };
    proof {
        assert(is_type_code(w.data_type@)) by {
            assert(data_type.code_text() == w.data_type@);
        }
        assert(is_frequency_name(w.freq@)) by {
            assert(frequency.name_text() == w.freq@);
        }
        assert(is_period_key(w.period@)) by {
            assert(period.is_valid() && period.key_text() == w.period@);
        }
        if let Some(t) = w.vintage_date {
            let d = vintage->0;
            assert(is_date_text(t@)) by {
                assert(d.is_valid() && d.iso() == t@);
            }
        }
        assert(series.dataflow.fault() is None);
        assert(series_fault(series) is None);
        assert(candidate.period.is_valid());
        if w.value is None {
            assert(value == EcbValue::Missing(missing_reason_of(w.obs_status)));
        }
    }
    EcbObservation::new(series, data_type, frequency, period, value, unit, vintage)
}

/// Converts a whole decoded document. The document must be marked
/// synthetic and carry a note that is not blank; the observations keep the
/// document's order, and the first failing observation fails the whole
/// document (its error carries its position).
pub fn observations_from_wire(document: WireDocument) -> (r: EcbResult<Vec<EcbObservation>>)
    ensures
        !document.synthetic ==> fails_with(
            r,
            EcbErrorKind::SemanticallyRejected,
            "离线解析只接受显式标注 `_synthetic = true` 的合成样本：本层不得把未标注输入当作源数据"@,
        ),
        document.synthetic && is_blank(document.note@) ==> fails_with(
            r,
            EcbErrorKind::Missing,
            "`_note` 为空：合成样本必须说明「不是真实源数据」"@,
        ),
        document.synthetic && !is_blank(document.note@) ==> match first_bad_wire(
            document.observations@,
            0,
        ) {
            None => r matches Ok(v) && v@.len() == document.observations@.len() && forall|i: int|
                0 <= i < v@.len() ==> built_from(#[trigger] v@[i], document.observations@[i]),
            Some(i) => match wire_fault(document.observations@[i]) {
                Some(f) => fails_with(r, f.0, position_prefix(i) + f.1),
                None => fails_with(
                    r,
                    EcbErrorKind::SemanticallyRejected,
                    "第 "@ + decimal(i as nat) + " 条观测身份重复："@ + wire_identity(
                        document.observations@[i],
                    ) + "（本库选择拒绝而非去重）"@,
                ),
            },
        },
        r matches Ok(v) ==> forall|i: int, j: int|
            0 <= i < j < v@.len() ==> #[trigger] v@[i].source_series_id_text()
                != #[trigger] v@[j].source_series_id_text(),
        document.synthetic && !is_blank(document.note@) && (forall|i: int|
            0 <= i < document.observations@.len() ==> fields_pass(
                #[trigger] document.observations@[i],
            )) && (forall|i: int, j: int|
            0 <= i < j < document.observations@.len() ==> wire_identity(
                #[trigger] document.observations@[i],
            ) != wire_identity(#[trigger] document.observations@[j])) ==> (r matches Ok(v)
            && v@.len() == document.observations@.len()),
{
    proof {
        let ws = document.observations@;
        if (forall|i: int| 0 <= i < ws.len() ==> fields_pass(#[trigger] ws[i])) && (forall|
            i: int,
            j: int,
        |
            0 <= i < j < ws.len() ==> wire_identity(#[trigger] ws[i]) != wire_identity(
                #[trigger] ws[j],
            )) {
            lemma_clean_document(ws);
        }
    }
    let WireDocument { synthetic, note, observations: wires } = document;
    if !synthetic {
        return Err(
            EcbError::SemanticallyRejected(
                text_of(
                    "离线解析只接受显式标注 `_synthetic = true` 的合成样本：本层不得把未标注输入当作源数据",
                ),
            ),
        );
    }
    if str_is_blank(note.as_str()) {
        return Err(
            EcbError::Missing(text_of("`_note` 为空：合成样本必须说明「不是真实源数据」")),
        );
    }
    let ghost ws = wires@;
    let mut rest = wires;
    let mut observations: Vec<EcbObservation> = Vec::new();
    let mut seen: Vec<String> = Vec::new();
    let mut index: usize = 0;
    let total = rest.len();
    while index < total
        invariant
            document.synthetic,
            !is_blank(document.note@),
            ws == document.observations@,
            total == ws.len(),
            index <= total,
            rest@ == ws.skip(index as int),
            observations@.len() == index,
            seen@.len() == index,
            forall|k: int| 0 <= k < index ==> built_from(#[trigger] observations@[k], ws[k]),
            forall|k: int| 0 <= k < index ==> #[trigger] seen@[k]@ == wire_identity(ws[k]),
            forall|k: int|
                0 <= k < index ==> #[trigger] observations@[k].source_series_id_text() == seen@[k]@,
            forall|i: int, j: int|
                0 <= i < j < index ==> #[trigger] observations@[i].source_series_id_text()
                    != #[trigger] observations@[j].source_series_id_text(),
            first_bad_wire(ws, 0) == first_bad_wire(ws, index as int),
        decreases total - index,
    {
        let wire = rest.remove(0);
        assert(wire == ws[index as int]);
        let observation = match convert(wire) {
            Ok(o) => o,
            Err(error) => {
                proof {
                    assert(wire_bad_at(ws, index as int));
                }
                let annotated = annotate(index, error);
                return Err(annotated);
            },
        };
        let identity = observation.source_series_id();
        proof {
            lemma_built_identity(observation, ws[index as int]);
        }
        let mut k: usize = 0;
        while k < seen.len()
            invariant
                document.synthetic,
                !is_blank(document.note@),
                ws == document.observations@,
                total == ws.len(),
                index < total,
                wire_fault(ws[index as int]) is None,
                forall|j: int| 0 <= j < index ==> #[trigger] seen@[j]@ == wire_identity(ws[j]),
                first_bad_wire(ws, 0) == first_bad_wire(ws, index as int),
                seen@.len() == index,
                k <= index,
                identity@ == wire_identity(ws[index as int]),
                forall|j: int| 0 <= j < k ==> seen@[j]@ != identity@,
            decreases seen.len() - k,
        {
            if seen[k] == identity {
                let mut m = String::new();
                m.append("第 ");
                push_decimal(&mut m, index as u64);
                m.append(" 条观测身份重复：");
                m.append(identity.as_str());
                m.append("（本库选择拒绝而非去重）");
                return Err(EcbError::SemanticallyRejected(m));
            }
            k = k + 1;
        }
        proof {
            assert(!wire_bad_at(ws, index as int)) by {
                assert forall|j: int| 0 <= j < index implies #[trigger] wire_identity(ws[j])
                    != wire_identity(ws[index as int]) by {
                    assert(seen@[j]@ == wire_identity(ws[j]));
                }
            }
        }
        seen.push(identity);
        observations.push(observation);
        index = index + 1;
    }
    Ok(observations)
}

} // verus!
