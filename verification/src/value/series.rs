//! Data types, protocol names and the SDMX identity shape.
//!
//! The identity is `dataflow + DSD + normalized dimension key`, extended by
//! `indicator + subject` here and by `period + vintage` on an observation.
//!
//! Two refusals live in this file: a caller's declared dimension order is
//! never passed off as the official code list ([`attest_official_dimension_order`]),
//! and curve points of the YC dataflow are never promoted here
//! ([`EcbDataType::is_curve_product`], [`ensure_not_curve_product`]).

use vstd::prelude::*;

use crate::error::{fails_with, EcbError, EcbErrorKind, EcbResult};
use crate::text::{
    chars_of, decimal, is_blank, push_char, push_decimal, str_eq, str_is_blank, trim, trim_str,
};

verus! {

/// The seven data types of the ECB source.
#[non_exhaustive]
#[derive(Debug, Clone, Copy, PartialEq, Eq, Hash)]
pub enum EcbDataType {
    /// `ZERO_SPOT`: zero-coupon spot curve.
    ZeroSpot,
    /// `FORWARD`: implied forwards.
    Forward,
    /// `POLICY_RATE`: MRO/DFR/MLF.
    PolicyRate,
    /// `RFR_OVERNIGHT`: €STR.
    RfrOvernight,
    /// `CB_BALANCE_SHEET`: weekly balance sheet.
    CbBalanceSheet,
    /// `MONEY_STOCK`: M0/M1/M2 (BSI).
    MoneyStock,
    /// `DEPOSIT_FACILITY`: standing facilities.
    DepositFacility,
}

impl EcbDataType {
    /// All seven, in the order of the source inventory.
    pub const ALL: [EcbDataType; 7] = [
        EcbDataType::ZeroSpot,
        EcbDataType::Forward,
        EcbDataType::PolicyRate,
        EcbDataType::RfrOvernight,
        EcbDataType::CbBalanceSheet,
        EcbDataType::MoneyStock,
        EcbDataType::DepositFacility,
    ];

    /// The type code, verbatim.
    pub open spec fn code_text(self) -> Seq<char> {
        match self {
            EcbDataType::ZeroSpot => "ZERO_SPOT"@,
            EcbDataType::Forward => "FORWARD"@,
            EcbDataType::PolicyRate => "POLICY_RATE"@,
            EcbDataType::RfrOvernight => "RFR_OVERNIGHT"@,
            EcbDataType::CbBalanceSheet => "CB_BALANCE_SHEET"@,
            EcbDataType::MoneyStock => "MONEY_STOCK"@,
            EcbDataType::DepositFacility => "DEPOSIT_FACILITY"@,
        }
    }

    /// The description, verbatim.
    pub open spec fn description_text(self) -> Seq<char> {
        match self {
            EcbDataType::ZeroSpot => "零息即期曲线"@,
            EcbDataType::Forward => "隐含远期"@,
            EcbDataType::PolicyRate => "MRO/DFR/MLF"@,
            EcbDataType::RfrOvernight => "€STR"@,
            EcbDataType::CbBalanceSheet => "周报资产负债表"@,
            EcbDataType::MoneyStock => "M0/M1/M2（BSI）"@,
            EcbDataType::DepositFacility => "存贷便利"@,
        }
    }

    /// `ZERO_SPOT` and `FORWARD` are curve points of the YC dataflow.
    pub open spec fn is_curve(self) -> bool {
        self == EcbDataType::ZeroSpot || self == EcbDataType::Forward
    }

    /// The type code.
    #[must_use]
    pub fn code(&self) -> (r: &'static str)
        ensures
            r@ == self.code_text(),
    {
        match self {
            EcbDataType::ZeroSpot => "ZERO_SPOT",
            EcbDataType::Forward => "FORWARD",
            EcbDataType::PolicyRate => "POLICY_RATE",
            EcbDataType::RfrOvernight => "RFR_OVERNIGHT",
            EcbDataType::CbBalanceSheet => "CB_BALANCE_SHEET",
            EcbDataType::MoneyStock => "MONEY_STOCK",
            EcbDataType::DepositFacility => "DEPOSIT_FACILITY",
        }
    }

    /// The description.
    #[must_use]
    pub fn description(&self) -> (r: &'static str)
        ensures
            r@ == self.description_text(),
    {
        match self {
            EcbDataType::ZeroSpot => "零息即期曲线",
            EcbDataType::Forward => "隐含远期",
            EcbDataType::PolicyRate => "MRO/DFR/MLF",
            EcbDataType::RfrOvernight => "€STR",
            EcbDataType::CbBalanceSheet => "周报资产负债表",
            EcbDataType::MoneyStock => "M0/M1/M2（BSI）",
            EcbDataType::DepositFacility => "存贷便利",
        }
    }

    /// Whether this type is a curve point, which must be mapped elsewhere
    /// before it may enter the kernel.
    #[must_use]
    pub fn is_curve_product(&self) -> (r: bool)
        ensures
            r == self.is_curve(),
    {
        match self {
            EcbDataType::ZeroSpot | EcbDataType::Forward => true,
            _ => false,
        }
    }

    /// The data type with this exact code.
    pub fn from_code(code: &str) -> (r: EcbResult<EcbDataType>)
        ensures
            r matches Ok(t) ==> t.code_text() == code@,
            r matches Err(e) ==> e.spec_kind() == EcbErrorKind::Invalid && e.reason() == "未知数据类型码："@
                + code@ && forall|t: EcbDataType| #[trigger] t.code_text() != code@,
            forall|t: EcbDataType| #[trigger] t.code_text() == code@ ==> r == Ok::<
                EcbDataType,
                EcbError,
            >(t),
    {
        let r = if str_eq(code, "ZERO_SPOT") {
            Ok(EcbDataType::ZeroSpot)
        } else if str_eq(code, "FORWARD") {
            Ok(EcbDataType::Forward)
        } else if str_eq(code, "POLICY_RATE") {
            Ok(EcbDataType::PolicyRate)
        } else if str_eq(code, "RFR_OVERNIGHT") {
            Ok(EcbDataType::RfrOvernight)
        } else if str_eq(code, "CB_BALANCE_SHEET") {
            Ok(EcbDataType::CbBalanceSheet)
        } else if str_eq(code, "MONEY_STOCK") {
            Ok(EcbDataType::MoneyStock)
        } else if str_eq(code, "DEPOSIT_FACILITY") {
            Ok(EcbDataType::DepositFacility)
        } else {
            let mut m = String::new();
            m.append("未知数据类型码：");
            m.append(code);
            Err(EcbError::Invalid(m))
        };
        proof {
            if let Ok(t) = r {
                assert forall|u: EcbDataType| #[trigger] u.code_text() == code@ implies r == Ok::<
                    EcbDataType,
                    EcbError,
                >(u) by {
                    lemma_data_type_codes_distinct(t, u);
                }
            }
        }
        r
    }
}

/// Distinct data types have distinct codes.
pub proof fn lemma_data_type_codes_distinct(a: EcbDataType, b: EcbDataType)
    ensures
        a.code_text() == b.code_text() ==> a == b,
{
    reveal_strlit("ZERO_SPOT");
    reveal_strlit("FORWARD");
    reveal_strlit("POLICY_RATE");
    reveal_strlit("RFR_OVERNIGHT");
    reveal_strlit("CB_BALANCE_SHEET");
    reveal_strlit("MONEY_STOCK");
    reveal_strlit("DEPOSIT_FACILITY");
    if a.code_text() == b.code_text() && a != b {
        assert(a.code_text().len() == b.code_text().len());
        assert(a.code_text()[0] == b.code_text()[0]);
    }
}

/// Protocol names (names only: no endpoint is held here).
#[non_exhaustive]
#[derive(Debug, Clone, Copy, PartialEq, Eq, Hash)]
pub enum EcbProtocol {
    /// SDMX-JSON.
    SdmxJson,
    /// SDMX-ML.
    SdmxMl,
    /// CSV.
    Csv,
}

impl EcbProtocol {
    /// Every protocol name.
    pub const ALL: [EcbProtocol; 3] = [EcbProtocol::SdmxJson, EcbProtocol::SdmxMl, EcbProtocol::Csv];

    /// The protocol's name, verbatim.
    pub open spec fn name_text(self) -> Seq<char> {
        match self {
            EcbProtocol::SdmxJson => "SDMX-JSON"@,
            EcbProtocol::SdmxMl => "SDMX-ML"@,
            EcbProtocol::Csv => "CSV"@,
        }
    }

    /// The protocol's name.
    #[must_use]
    pub fn name(&self) -> (r: &'static str)
        ensures
            r@ == self.name_text(),
    {
        match self {
            EcbProtocol::SdmxJson => "SDMX-JSON",
            EcbProtocol::SdmxMl => "SDMX-ML",
            EcbProtocol::Csv => "CSV",
        }
    }

    /// The protocol with this exact (case-sensitive) name.
    pub fn from_name(name: &str) -> (r: EcbResult<EcbProtocol>)
        ensures
            r matches Ok(p) ==> p.name_text() == name@,
            r matches Err(e) ==> e.spec_kind() == EcbErrorKind::Invalid && e.reason() == "未知协议名："@
                + name@ && forall|p: EcbProtocol| #[trigger] p.name_text() != name@,
            forall|p: EcbProtocol| #[trigger] p.name_text() == name@ ==> r == Ok::<
                EcbProtocol,
                EcbError,
            >(p),
    {
        let r = if str_eq(name, "SDMX-JSON") {
            Ok(EcbProtocol::SdmxJson)
        } else if str_eq(name, "SDMX-ML") {
            Ok(EcbProtocol::SdmxMl)
        } else if str_eq(name, "CSV") {
            Ok(EcbProtocol::Csv)
        } else {
            let mut m = String::new();
            m.append("未知协议名：");
            m.append(name);
            Err(EcbError::Invalid(m))
        };
        proof {
            reveal_strlit("SDMX-JSON");
            reveal_strlit("SDMX-ML");
            reveal_strlit("CSV");
            if let Ok(p) = r {
                assert forall|q: EcbProtocol| #[trigger] q.name_text() == name@ implies r == Ok::<
                    EcbProtocol,
                    EcbError,
                >(q) by {
                    if p != q {
                        assert(p.name_text().len() == q.name_text().len());
                        assert(p.name_text()[5] == q.name_text()[5]);
                    }
                }
            }
        }
        r
    }
}

/// The escaped form of one character of an identity component: the
/// separators `:`, `.`, `=` and the escape mark `%` are percent-encoded,
/// every other character stands for itself.
pub open spec fn escape_char(c: char) -> Seq<char> {
    if c == '%' {
        seq!['%', '2', '5']
    } else if c == ':' {
        seq!['%', '3', 'A']
    } else if c == '.' {
        seq!['%', '2', 'E']
    } else if c == '=' {
        seq!['%', '3', 'D']
    } else {
        seq![c]
    }
}

/// The escaped form of an identity component.
pub open spec fn escape_text(s: Seq<char>) -> Seq<char>
    decreases s.len(),
{
    if s.len() == 0 {
        Seq::empty()
    } else {
        escape_char(s[0]) + escape_text(s.drop_first())
    }
}

/// Escaping a text and one more character appends that character's escape.
proof fn lemma_escape_push(s: Seq<char>, c: char)
    ensures
        escape_text(s.push(c)) == escape_text(s) + escape_char(c),
    decreases s.len(),
{
    if s.len() == 0 {
        assert(s.push(c).drop_first() =~= Seq::<char>::empty());
        assert(s.push(c)[0] == c);
        assert(escape_text(Seq::<char>::empty()) == Seq::<char>::empty());
        assert(escape_text(s) == Seq::<char>::empty());
        assert(escape_text(s.push(c)) =~= escape_char(c) + Seq::<char>::empty());
    } else {
        lemma_escape_push(s.drop_first(), c);
        assert(s.push(c).drop_first() =~= s.drop_first().push(c));
        assert(escape_text(s.push(c)) =~= escape_text(s) + escape_char(c));
    }
}

/// Escaped text never holds one of the three separators.
pub proof fn lemma_escape_no_separator(s: Seq<char>)
    ensures
        !escape_text(s).contains(':'),
        !escape_text(s).contains('.'),
        !escape_text(s).contains('='),
    decreases s.len(),
{
    if s.len() > 0 {
        lemma_escape_no_separator(s.drop_first());
        let e = escape_text(s);
        let h = escape_char(s[0]);
        let t = escape_text(s.drop_first());
        assert forall|i: int| 0 <= i < e.len() implies e[i] != ':' && e[i] != '.' && e[i] != '='
            by {
            if i < h.len() {
                assert(e[i] == h[i]);
            } else {
                assert(e[i] == t[i - h.len()]);
                assert(t.contains(t[i - h.len()]));
            }
        }
    }
}

/// Escaping is injective: distinct components have distinct escaped forms.
pub proof fn lemma_escape_injective(a: Seq<char>, b: Seq<char>)
    requires
        escape_text(a) == escape_text(b),
    ensures
        a == b,
    decreases a.len(),
{
    if a.len() == 0 {
        if b.len() > 0 {
            assert(escape_text(b).len() > 0);
        }
        assert(a =~= b);
    } else if b.len() == 0 {
        assert(escape_text(a).len() > 0);
    } else {
        let ha = escape_char(a[0]);
        let hb = escape_char(b[0]);
        let e = escape_text(a);
        assert(e[0] == ha[0]);
        assert(escape_text(b)[0] == hb[0]);
        if ha.len() == 3 {
            assert(e[1] == ha[1] && e[2] == ha[2]);
        }
        if hb.len() == 3 {
            assert(escape_text(b)[1] == hb[1] && escape_text(b)[2] == hb[2]);
        }
        assert(ha.len() == hb.len());
        assert(ha =~= e.subrange(0, ha.len() as int));
        assert(hb =~= escape_text(b).subrange(0, hb.len() as int));
        assert(a[0] == b[0]);
        assert(escape_text(a.drop_first()) =~= e.skip(ha.len() as int));
        assert(escape_text(b.drop_first()) =~= escape_text(b).skip(hb.len() as int));
        lemma_escape_injective(a.drop_first(), b.drop_first());
        assert(a =~= seq![a[0]] + a.drop_first());
        assert(b =~= seq![b[0]] + b.drop_first());
    }
}

/// A component that holds none of `%`, `:`, `.`, `=` is its own escaped
/// form: plain keys are left unchanged.
pub proof fn lemma_escape_plain(s: Seq<char>)
    requires
        !s.contains('%'),
        !s.contains(':'),
        !s.contains('.'),
        !s.contains('='),
    ensures
        escape_text(s) == s,
    decreases s.len(),
{
    if s.len() > 0 {
        let t = s.drop_first();
        assert forall|c: char| c == '%' || c == ':' || c == '.' || c == '=' implies !t.contains(c)
            by {
            if t.contains(c) {
                let i = choose|i: int| 0 <= i < t.len() && t[i] == c;
                assert(s[i + 1] == c);
            }
        }
        lemma_escape_plain(t);
        assert(s.contains(s[0]));
        assert(escape_text(s) =~= s);
    }
}

/// Cutting two texts at the first `sep`: when neither head holds `sep`,
/// equal joins have equal heads and equal tails.
pub proof fn lemma_split_at_separator(
    x1: Seq<char>,
    y1: Seq<char>,
    x2: Seq<char>,
    y2: Seq<char>,
    sep: char,
)
    requires
        !x1.contains(sep),
        !x2.contains(sep),
        x1 + seq![sep] + y1 == x2 + seq![sep] + y2,
    ensures
        x1 == x2,
        y1 == y2,
{
    let j = x1 + seq![sep] + y1;
    if x1.len() < x2.len() {
        assert(j[x1.len() as int] == sep);
        assert(j[x1.len() as int] == x2[x1.len() as int]);
        assert(x2.contains(x2[x1.len() as int]));
    } else if x2.len() < x1.len() {
        assert(j[x2.len() as int] == x1[x2.len() as int]);
        assert(x1.contains(x1[x2.len() as int]));
    } else {
        assert(x1 =~= j.subrange(0, x1.len() as int));
        assert(x2 =~= j.subrange(0, x2.len() as int));
        assert(y1 =~= j.skip(x1.len() as int + 1));
        assert(y2 =~= j.skip(x2.len() as int + 1));
    }
}

/// Escapes the separators `%`, `:`, `.`, `=` of an identity component; every
/// other character stays as it is.
pub fn escape_identity(text: &str) -> (r: String)
    ensures
        r@ == escape_text(text@),
{
    let v = chars_of(text);
    let mut r = String::new();
    let mut i: usize = 0;
    while i < v.len()
        invariant
            v@ == text@,
            i <= v@.len(),
            r@ == escape_text(v@.take(i as int)),
        decreases v.len() - i,
    {
        let c = v[i];
        if c == '%' {
            push_char(&mut r, '%');
            push_char(&mut r, '2');
            push_char(&mut r, '5');
        } else if c == ':' {
            push_char(&mut r, '%');
            push_char(&mut r, '3');
            push_char(&mut r, 'A');
        } else if c == '.' {
            push_char(&mut r, '%');
            push_char(&mut r, '2');
            push_char(&mut r, 'E');
        } else if c == '=' {
            push_char(&mut r, '%');
            push_char(&mut r, '3');
            push_char(&mut r, 'D');
        } else {
            push_char(&mut r, c);
        }
        proof {
            lemma_escape_push(v@.take(i as int), c);
            assert(v@.take(i + 1) =~= v@.take(i as int).push(c));
            assert(r@ =~= escape_text(v@.take(i as int)) + escape_char(c));
        }
        i = i + 1;
    }
    assert(v@.take(v@.len() as int) =~= v@);
    r
}

/// One dimension: a key and a value, both supplied by the caller. No
/// official code list is held here, so no key is claimed to be official.
#[derive(Debug, Clone, PartialEq, Eq, Hash)]
pub struct EcbDimension {
    /// Dimension key.
    pub id: String,
    /// Dimension value.
    pub value: String,
}

impl EcbDimension {
    /// The normalized fragment `id=value` of this dimension (both escaped).
    pub open spec fn key_text(self) -> Seq<char> {
        escape_text(self.id@) + seq!['='] + escape_text(self.value@)
    }

    /// Builds a dimension; a blank key or a blank value is refused.
    pub fn try_new(id: &str, value: &str) -> (r: EcbResult<EcbDimension>)
        ensures
            is_blank(id@) ==> fails_with(r, EcbErrorKind::Missing, "维度键为空"@),
            !is_blank(id@) && is_blank(value@) ==> fails_with(
                r,
                EcbErrorKind::Missing,
                "维度 "@ + trim(id@) + " 的取值为空"@,
            ),
            !is_blank(id@) && !is_blank(value@) ==> (r matches Ok(d) && d.id@ == id@ && d.value@
                == value@),
    {
        if str_is_blank(id) {
            return Err(EcbError::Missing(crate::text::text_of("维度键为空")));
        }
        if str_is_blank(value) {
            let mut m = String::new();
            m.append("维度 ");
            m.append(trim_str(id).as_str());
            m.append(" 的取值为空");
            return Err(EcbError::Missing(m));
        }
        Ok(EcbDimension { id: crate::text::text_of(id), value: crate::text::text_of(value) })
    }

    /// The normalized fragment `id=value`.
    #[must_use]
    pub fn key(&self) -> (r: String)
        ensures
            r@ == self.key_text(),
    {
        let mut r = escape_identity(self.id.as_str());
        push_char(&mut r, '=');
        r.append(escape_identity(self.value.as_str()).as_str());
        r
    }
}

/// The normalized dimension key: the dimensions' `id=value` fragments in the
/// declared order, joined by `.`.
pub open spec fn dims_key_text(dims: Seq<EcbDimension>) -> Seq<char>
    decreases dims.len(),
{
    if dims.len() == 0 {
        Seq::empty()
    } else if dims.len() == 1 {
        dims[0].key_text()
    } else {
        dims[0].key_text() + seq!['.'] + dims_key_text(dims.drop_first())
    }
}

/// What is wrong with the dimension at `index`, if anything: a blank key, a
/// blank value, or a key that a later dimension repeats (compared trimmed).
pub open spec fn dimension_fault(dims: Seq<EcbDimension>, index: int) -> Option<
    (EcbErrorKind, Seq<char>),
> {
    let d = dims[index];
    if is_blank(d.id@) {
        Some((EcbErrorKind::Missing, "第 "@ + decimal(index as nat) + " 个维度键为空"@))
    } else if is_blank(d.value@) {
        Some(
            (
                EcbErrorKind::Missing,
                "第 "@ + decimal(index as nat) + " 个维度（"@ + trim(d.id@) + "）的取值为空"@,
            ),
        )
    } else if exists|j: int| index < j < dims.len() && trim(#[trigger] dims[j].id@) == trim(d.id@) {
        Some(
            (
                EcbErrorKind::SemanticallyRejected,
                "维度键 "@ + trim(d.id@) + " 重复：同一维度不得出现两次"@,
            ),
        )
    } else {
        None
    }
}

/// The fault of the first faulty dimension at or after `index`.
pub open spec fn first_dimension_fault(dims: Seq<EcbDimension>, index: int) -> Option<
    (EcbErrorKind, Seq<char>),
>
    decreases dims.len() - index,
{
    if index < 0 || index >= dims.len() {
        None
    } else if dimension_fault(dims, index) is Some {
        dimension_fault(dims, index)
    } else {
        first_dimension_fault(dims, index + 1)
    }
}

/// No dimension at or after `index` has a fault exactly when the first
/// faulty one at or after `index` does not exist.
proof fn lemma_first_dimension_fault_none(dims: Seq<EcbDimension>, index: int)
    requires
        0 <= index <= dims.len(),
    ensures
        first_dimension_fault(dims, index) is None <==> forall|k: int|
            index <= k < dims.len() ==> #[trigger] dimension_fault(dims, k) is None,
    decreases dims.len() - index,
{
    if index < dims.len() {
        lemma_first_dimension_fault_none(dims, index + 1);
    }
}

/// A list of dimensions passes exactly when every key and every value is
/// not blank and no two keys (compared trimmed) are equal, wherever in the
/// list the two stand.
pub proof fn lemma_dimension_rules(dims: Seq<EcbDimension>)
    ensures
        first_dimension_fault(dims, 0) is None <==> ((forall|k: int|
            0 <= k < dims.len() ==> !is_blank(#[trigger] dims[k].id@) && !is_blank(
                dims[k].value@,
            )) && (forall|i: int, j: int|
            0 <= i < j < dims.len() ==> trim(#[trigger] dims[i].id@) != trim(
                #[trigger] dims[j].id@,
            ))),
{
    lemma_first_dimension_fault_none(dims, 0);
    if first_dimension_fault(dims, 0) is None {
        assert forall|k: int| 0 <= k < dims.len() implies !is_blank(#[trigger] dims[k].id@)
            && !is_blank(dims[k].value@) by {
            assert(dimension_fault(dims, k) is None);
        }
        assert forall|i: int, j: int| 0 <= i < j < dims.len() implies trim(
            #[trigger] dims[i].id@,
        ) != trim(#[trigger] dims[j].id@) by {
            assert(dimension_fault(dims, i) is None);
        }
    } else {
        let k = choose|k: int| 0 <= k < dims.len() && #[trigger] dimension_fault(dims, k) is Some;
        assert(dimension_fault(dims, k) is Some);
    }
}

/// What is wrong with a dataflow identity, checked in this order: a blank
/// dataflow name, a blank DSD name, no dimension at all, then the first
/// faulty dimension.
pub open spec fn identity_fault(dataflow: Seq<char>, dsd: Seq<char>, dims: Seq<EcbDimension>) -> Option<
    (EcbErrorKind, Seq<char>),
> {
    if is_blank(dataflow) {
        Some((EcbErrorKind::Missing, "dataflow 名为空"@))
    } else if is_blank(dsd) {
        Some((EcbErrorKind::Missing, "DSD 名为空"@))
    } else if dims.len() == 0 {
        Some((EcbErrorKind::Missing, "维度键为空：身份形要求 dataflow + DSD + 规范化维度键"@))
    } else {
        first_dimension_fault(dims, 0)
    }
}

/// `r` is `Ok(())` when there is no fault, and the fault's error otherwise.
pub open spec fn reports<T>(r: EcbResult<T>, fault: Option<(EcbErrorKind, Seq<char>)>) -> bool {
    match fault {
        None => r is Ok,
        Some(f) => fails_with(r, f.0, f.1),
    }
}

/// `dataflow + DSD + dimensions`, the dimensions in the order the caller
/// declared. That order is not the official code list order: none is held
/// here (see [`attest_official_dimension_order`]).
#[derive(Debug, Clone, PartialEq, Eq, Hash)]
pub struct EcbDataflowId {
    /// Dataflow name (caller-supplied).
    pub dataflow: String,
    /// DSD name (caller-supplied; not an official table name).
    pub dsd: String,
    /// Dimensions, in the declared order.
    pub dimensions: Vec<EcbDimension>,
}

impl EcbDataflowId {
    /// What is wrong with this identity, if anything.
    pub open spec fn fault(self) -> Option<(EcbErrorKind, Seq<char>)> {
        identity_fault(self.dataflow@, self.dsd@, self.dimensions@)
    }

    /// The normalized dimension key of this identity.
    pub open spec fn dimension_key_text(self) -> Seq<char> {
        dims_key_text(self.dimensions@)
    }

    /// Builds an identity: the dataflow and DSD names must not be blank, at
    /// least one dimension is needed, and no dimension may be blank or repeat
    /// the key of another. Passing says nothing of whether the declared order
    /// is the official one.
    pub fn try_new(dataflow: &str, dsd: &str, dimensions: Vec<EcbDimension>) -> (r: EcbResult<
        EcbDataflowId,
    >)
        ensures
            reports(r, identity_fault(dataflow@, dsd@, dimensions@)),
            r matches Ok(id) ==> id.dataflow@ == dataflow@ && id.dsd@ == dsd@ && id.dimensions@
                == dimensions@,
            r is Ok <==> (!is_blank(dataflow@) && !is_blank(dsd@) && dimensions@.len() > 0 && (
            forall|k: int|
                0 <= k < dimensions@.len() ==> !is_blank(#[trigger] dimensions@[k].id@)
                    && !is_blank(dimensions@[k].value@)) && (forall|i: int, j: int|
                0 <= i < j < dimensions@.len() ==> trim(#[trigger] dimensions@[i].id@) != trim(
                    #[trigger] dimensions@[j].id@,
                ))),
    {
        let candidate = EcbDataflowId {
            dataflow: crate::text::text_of(dataflow),
            dsd: crate::text::text_of(dsd),
            dimensions,
        };
        validate_dataflow_id(&candidate)?;
        Ok(candidate)
    }

    /// The normalized dimension key (`id=value` joined by `.`, in the
    /// declared order).
    #[must_use]
    pub fn declared_dimension_key(&self) -> (r: String)
        ensures
            r@ == self.dimension_key_text(),
    {
        let dims = &self.dimensions;
        let mut r = String::new();
        let mut i: usize = 0;
        while i < dims.len()
            invariant
                i <= dims@.len(),
                dims@ == self.dimensions@,
                r@ == dims_key_text(dims@.take(i as int)),
            decreases dims.len() - i,
        {
            let ghost before = r@;
            if i > 0 {
                push_char(&mut r, '.');
            }
            r.append(dims[i].key().as_str());
            proof {
                lemma_dims_key_push(dims@.take(i as int), dims@[i as int]);
                assert(dims@.take(i + 1) =~= dims@.take(i as int).push(dims@[i as int]));
                if i > 0 {
                    assert(r@ =~= before + seq!['.'] + dims@[i as int].key_text());
                } else {
                    assert(r@ =~= before + dims@[i as int].key_text());
                }
            }
            i = i + 1;
        }
        assert(dims@.take(dims@.len() as int) =~= dims@);
        r
    }
}

/// Adding one dimension adds `.` and its fragment to the key (only the
/// fragment for the first dimension).
proof fn lemma_dims_key_push(dims: Seq<EcbDimension>, d: EcbDimension)
    ensures
        dims_key_text(dims.push(d)) == if dims.len() == 0 {
            d.key_text()
        } else {
            dims_key_text(dims) + seq!['.'] + d.key_text()
        },
    decreases dims.len(),
{
    let p = dims.push(d);
    if dims.len() == 0 {
        assert(p[0] == d);
    } else if dims.len() == 1 {
        assert(p.drop_first() =~= seq![d]);
        assert(dims_key_text(p.drop_first()) == d.key_text());
    } else {
        lemma_dims_key_push(dims.drop_first(), d);
        assert(p.drop_first() =~= dims.drop_first().push(d));
        assert(p[0] == dims[0]);
        assert(dims_key_text(p) =~= dims_key_text(dims) + seq!['.'] + d.key_text());
    }
}

/// Checks a dataflow identity (see [`EcbDataflowId::try_new`] for the rules
/// and their order).
pub fn validate_dataflow_id(id: &EcbDataflowId) -> (r: EcbResult<()>)
    ensures
        reports(r, id.fault()),
        r is Ok <==> (!is_blank(id.dataflow@) && !is_blank(id.dsd@) && id.dimensions@.len() > 0
            && (forall|k: int|
            0 <= k < id.dimensions@.len() ==> !is_blank(#[trigger] id.dimensions@[k].id@)
                && !is_blank(id.dimensions@[k].value@)) && (forall|i: int, j: int|
            0 <= i < j < id.dimensions@.len() ==> trim(#[trigger] id.dimensions@[i].id@) != trim(
                #[trigger] id.dimensions@[j].id@,
            ))),
{
    proof {
        lemma_dimension_rules(id.dimensions@);
    }
    if str_is_blank(id.dataflow.as_str()) {
        return Err(EcbError::Missing(crate::text::text_of("dataflow 名为空")));
    }
    if str_is_blank(id.dsd.as_str()) {
        return Err(EcbError::Missing(crate::text::text_of("DSD 名为空")));
    }
    let dims = &id.dimensions;
    if dims.len() == 0 {
        return Err(
            EcbError::Missing(
                crate::text::text_of("维度键为空：身份形要求 dataflow + DSD + 规范化维度键"),
            ),
        );
    }
    let mut index: usize = 0;
    while index < dims.len()
        invariant
            dims@ == id.dimensions@,
            index <= dims@.len(),
            id.fault() == first_dimension_fault(dims@, 0),
            first_dimension_fault(dims@, 0) == first_dimension_fault(dims@, index as int),
        decreases dims.len() - index,
    {
        let dimension = &dims[index];
        if str_is_blank(dimension.id.as_str()) {
            let mut m = String::new();
            m.append("第 ");
            push_decimal(&mut m, index as u64);
            m.append(" 个维度键为空");
            proof {
                assert(dimension_fault(dims@, index as int) is Some);
            }
            return Err(EcbError::Missing(m));
        }
        if str_is_blank(dimension.value.as_str()) {
            let mut m = String::new();
            m.append("第 ");
            push_decimal(&mut m, index as u64);
            m.append(" 个维度（");
            m.append(trim_str(dimension.id.as_str()).as_str());
            m.append("）的取值为空");
            proof {
                assert(dimension_fault(dims@, index as int) is Some);
            }
            return Err(EcbError::Missing(m));
        }
        let own = trim_str(dimension.id.as_str());
        let mut j: usize = index + 1;
        while j < dims.len()
            invariant
                dims@ == id.dimensions@,
                index < j <= dims@.len(),
                own@ == trim(dims@[index as int].id@),
                !is_blank(dims@[index as int].id@),
                !is_blank(dims@[index as int].value@),
                id.fault() == first_dimension_fault(dims@, 0),
                first_dimension_fault(dims@, 0) == first_dimension_fault(dims@, index as int),
                forall|k: int| index < k < j ==> trim(#[trigger] dims@[k].id@) != own@,
            decreases dims.len() - j,
        {
            let other = trim_str(dims[j].id.as_str());
            if other == own {
                let mut m = String::new();
                m.append("维度键 ");
                m.append(own.as_str());
                m.append(" 重复：同一维度不得出现两次");
                proof {
                    assert(trim(dims@[j as int].id@) == trim(dims@[index as int].id@));
                    assert(dimension_fault(dims@, index as int) is Some);
                }
                return Err(EcbError::SemanticallyRejected(m));
            }
            j = j + 1;
        }
        proof {
            assert(dimension_fault(dims@, index as int) is None);
        }
        index = index + 1;
    }
    Ok(())
}

/// `dataflow identity + indicator + subject`.
#[derive(Debug, Clone, PartialEq, Eq, Hash)]
pub struct EcbSeriesIdentity {
    /// Dataflow identity (with DSD and the dimensions in declared order).
    pub dataflow: EcbDataflowId,
    /// Indicator.
    pub indicator: String,
    /// Subject (sector, country, currency, ...).
    pub subject: String,
}

/// What is wrong with a series identity, checked in this order: the
/// dataflow identity, then a blank indicator, then a blank subject.
pub open spec fn series_fault(identity: EcbSeriesIdentity) -> Option<(EcbErrorKind, Seq<char>)> {
    if identity.dataflow.fault() is Some {
        identity.dataflow.fault()
    } else if is_blank(identity.indicator@) {
        Some((EcbErrorKind::Missing, "indicator 为空"@))
    } else if is_blank(identity.subject@) {
        Some((EcbErrorKind::Missing, "subject 为空"@))
    } else {
        None
    }
}

impl EcbSeriesIdentity {
    /// The canonical identity text
    /// `dataflow:DSD:dimension key:indicator:subject`, every component escaped.
    pub open spec fn series_id_text(self) -> Seq<char> {
        escape_text(self.dataflow.dataflow@) + seq![':'] + escape_text(self.dataflow.dsd@) + seq![
            ':',
        ] + self.dataflow.dimension_key_text() + seq![':'] + escape_text(self.indicator@) + seq![
            ':',
        ] + escape_text(self.subject@)
    }

    /// Builds a series identity; a blank indicator or subject is refused.
    /// The dataflow identity is taken as it is.
    pub fn try_new(dataflow: EcbDataflowId, indicator: &str, subject: &str) -> (r: EcbResult<
        EcbSeriesIdentity,
    >)
        ensures
            is_blank(indicator@) ==> fails_with(r, EcbErrorKind::Missing, "indicator 为空"@),
            !is_blank(indicator@) && is_blank(subject@) ==> fails_with(
                r,
                EcbErrorKind::Missing,
                "subject 为空"@,
            ),
            !is_blank(indicator@) && !is_blank(subject@) ==> (r matches Ok(s) && s.dataflow
                == dataflow && s.indicator@ == indicator@ && s.subject@ == subject@),
    {
        if str_is_blank(indicator) {
            return Err(EcbError::Missing(crate::text::text_of("indicator 为空")));
        }
        if str_is_blank(subject) {
            return Err(EcbError::Missing(crate::text::text_of("subject 为空")));
        }
        Ok(
            EcbSeriesIdentity {
                dataflow,
                indicator: crate::text::text_of(indicator),
                subject: crate::text::text_of(subject),
            },
        )
    }

    /// The canonical identity text.
    #[must_use]
    pub fn series_id(&self) -> (r: String)
        ensures
            r@ == self.series_id_text(),
    {
        let mut r = escape_identity(self.dataflow.dataflow.as_str());
        push_char(&mut r, ':');
        r.append(escape_identity(self.dataflow.dsd.as_str()).as_str());
        push_char(&mut r, ':');
        r.append(self.dataflow.declared_dimension_key().as_str());
        push_char(&mut r, ':');
        r.append(escape_identity(self.indicator.as_str()).as_str());
        push_char(&mut r, ':');
        r.append(escape_identity(self.subject.as_str()).as_str());
        assert(r@ =~= self.series_id_text());
        r
    }
}

/// Checks a series identity (see [`series_fault`] for the rules and their order).
pub fn validate_series_identity(identity: &EcbSeriesIdentity) -> (r: EcbResult<()>)
    ensures
        reports(r, series_fault(*identity)),
{
    validate_dataflow_id(&identity.dataflow)?;
    if str_is_blank(identity.indicator.as_str()) {
        return Err(EcbError::Missing(crate::text::text_of("indicator 为空")));
    }
    if str_is_blank(identity.subject.as_str()) {
        return Err(EcbError::Missing(crate::text::text_of("subject 为空")));
    }
    Ok(())
}

/// The key and value texts of a list of dimensions.
pub open spec fn dims_view(dims: Seq<EcbDimension>) -> Seq<(Seq<char>, Seq<char>)> {
    dims.map_values(|d: EcbDimension| (d.id@, d.value@))
}

/// A dimension's fragment holds neither `.` nor `:`, and its `=` is the one
/// after the escaped key.
proof fn lemma_fragment_separators(d: EcbDimension)
    ensures
        !d.key_text().contains('.'),
        !d.key_text().contains(':'),
        !escape_text(d.id@).contains('='),
        d.key_text().len() > 0,
{
    lemma_escape_no_separator(d.id@);
    lemma_escape_no_separator(d.value@);
    let a = escape_text(d.id@);
    let b = escape_text(d.value@);
    let k = d.key_text();
    assert forall|i: int| 0 <= i < k.len() implies k[i] != '.' && k[i] != ':' by {
        if i < a.len() {
            assert(k[i] == a[i]);
            assert(a.contains(a[i]));
        } else if i > a.len() {
            assert(k[i] == b[i - a.len() - 1]);
            assert(b.contains(b[i - a.len() - 1]));
        }
    }
    assert(k[a.len() as int] == '=');
}

/// The dimension key of a list of dimensions holds no `:`.
pub(crate) proof fn lemma_dims_key_no_colon(dims: Seq<EcbDimension>)
    ensures
        !dims_key_text(dims).contains(':'),
    decreases dims.len(),
{
    if dims.len() == 1 {
        lemma_fragment_separators(dims[0]);
    } else if dims.len() > 1 {
        lemma_fragment_separators(dims[0]);
        lemma_dims_key_no_colon(dims.drop_first());
        let h = dims[0].key_text();
        let t = dims_key_text(dims.drop_first());
        let k = dims_key_text(dims);
        assert forall|i: int| 0 <= i < k.len() implies k[i] != ':' by {
            if i < h.len() {
                assert(k[i] == h[i]);
                assert(h.contains(h[i]));
            } else if i > h.len() {
                assert(k[i] == t[i - h.len() - 1]);
                assert(t.contains(t[i - h.len() - 1]));
            }
        }
    }
}

/// Equal fragments come from equal keys and equal values.
proof fn lemma_fragment_injective(a: EcbDimension, b: EcbDimension)
    requires
        a.key_text() == b.key_text(),
    ensures
        a.id@ == b.id@,
        a.value@ == b.value@,
{
    lemma_fragment_separators(a);
    lemma_fragment_separators(b);
    lemma_split_at_separator(
        escape_text(a.id@),
        escape_text(a.value@),
        escape_text(b.id@),
        escape_text(b.value@),
        '=',
    );
    lemma_escape_injective(a.id@, b.id@);
    lemma_escape_injective(a.value@, b.value@);
}

/// A dimension key with more than one fragment holds a `.`.
proof fn lemma_dims_key_has_dot(dims: Seq<EcbDimension>)
    requires
        dims.len() >= 2,
    ensures
        dims_key_text(dims).contains('.'),
{
    let h = dims[0].key_text();
    assert(dims_key_text(dims)[h.len() as int] == '.');
}

/// Distinct lists of dimensions (by key and value texts, in order) have
/// distinct dimension keys.
pub proof fn lemma_dims_key_injective(a: Seq<EcbDimension>, b: Seq<EcbDimension>)
    requires
        dims_key_text(a) == dims_key_text(b),
    ensures
        dims_view(a) == dims_view(b),
    decreases a.len(),
{
    if a.len() > 0 {
        lemma_fragment_separators(a[0]);
    }
    if b.len() > 0 {
        lemma_fragment_separators(b[0]);
    }
    if a.len() >= 2 {
        lemma_dims_key_has_dot(a);
    }
    if b.len() >= 2 {
        lemma_dims_key_has_dot(b);
    }
    if a.len() == 0 || b.len() == 0 {
        assert(a.len() == 0 && b.len() == 0);
        assert(dims_view(a) =~= dims_view(b));
    } else if a.len() == 1 || b.len() == 1 {
        assert(a.len() == 1 && b.len() == 1);
        lemma_fragment_injective(a[0], b[0]);
        assert(dims_view(a) =~= dims_view(b));
    } else {
        lemma_split_at_separator(
            a[0].key_text(),
            dims_key_text(a.drop_first()),
            b[0].key_text(),
            dims_key_text(b.drop_first()),
            '.',
        );
        lemma_fragment_injective(a[0], b[0]);
        lemma_dims_key_injective(a.drop_first(), b.drop_first());
        assert(dims_view(a.drop_first()) == dims_view(b.drop_first()));
        assert forall|i: int| 0 <= i < a.len() implies dims_view(a)[i] == dims_view(b)[i] by {
            if i > 0 {
                assert(dims_view(a)[i] == dims_view(a.drop_first())[i - 1]);
                assert(dims_view(b)[i] == dims_view(b.drop_first())[i - 1]);
            }
        }
        assert(dims_view(a) =~= dims_view(b));
    }
}

/// Distinct series identities have distinct identity texts: the separators
/// cannot collide, whatever the components hold.
pub proof fn lemma_series_id_injective(a: EcbSeriesIdentity, b: EcbSeriesIdentity)
    requires
        a.series_id_text() == b.series_id_text(),
    ensures
        a.dataflow.dataflow@ == b.dataflow.dataflow@,
        a.dataflow.dsd@ == b.dataflow.dsd@,
        dims_view(a.dataflow.dimensions@) == dims_view(b.dataflow.dimensions@),
        a.indicator@ == b.indicator@,
        a.subject@ == b.subject@,
{
    let ea = escape_text(a.dataflow.dataflow@);
    let eb = escape_text(b.dataflow.dataflow@);
    let da = escape_text(a.dataflow.dsd@);
    let db = escape_text(b.dataflow.dsd@);
    let ka = a.dataflow.dimension_key_text();
    let kb = b.dataflow.dimension_key_text();
    let ia = escape_text(a.indicator@);
    let ib = escape_text(b.indicator@);
    let sa = escape_text(a.subject@);
    let sb = escape_text(b.subject@);
    lemma_escape_no_separator(a.dataflow.dataflow@);
    lemma_escape_no_separator(b.dataflow.dataflow@);
    lemma_escape_no_separator(a.dataflow.dsd@);
    lemma_escape_no_separator(b.dataflow.dsd@);
    lemma_escape_no_separator(a.indicator@);
    lemma_escape_no_separator(b.indicator@);
    lemma_dims_key_no_colon(a.dataflow.dimensions@);
    lemma_dims_key_no_colon(b.dataflow.dimensions@);
    let ra3 = ia + seq![':'] + sa;
    let rb3 = ib + seq![':'] + sb;
    let ra2 = ka + seq![':'] + ra3;
    let rb2 = kb + seq![':'] + rb3;
    let ra1 = da + seq![':'] + ra2;
    let rb1 = db + seq![':'] + rb2;
    assert(a.series_id_text() =~= ea + seq![':'] + ra1);
    assert(b.series_id_text() =~= eb + seq![':'] + rb1);
    lemma_split_at_separator(ea, ra1, eb, rb1, ':');
    lemma_split_at_separator(da, ra2, db, rb2, ':');
    lemma_split_at_separator(ka, ra3, kb, rb3, ':');
    lemma_split_at_separator(ia, sa, ib, sb, ':');
    lemma_escape_injective(a.dataflow.dataflow@, b.dataflow.dataflow@);
    lemma_escape_injective(a.dataflow.dsd@, b.dataflow.dsd@);
    lemma_escape_injective(a.indicator@, b.indicator@);
    lemma_escape_injective(a.subject@, b.subject@);
    lemma_dims_key_injective(a.dataflow.dimensions@, b.dataflow.dimensions@);
}

/// Refuses the claim that the caller's declared dimension order is the
/// official code list. The official DSD and code list are not available
/// here, so the claim is refused whatever order is declared.
pub fn attest_official_dimension_order(_dimensions: &[EcbDimension]) -> (r: EcbResult<()>)
    ensures
        fails_with(
            r,
            EcbErrorKind::NotApplicable,
            "官方 DSD / code list 未核验（absent）：本库不得把手填顺序断言为官方顺序"@,
        ),
{
    Err(
        EcbError::NotApplicable(
            crate::text::text_of(
                "官方 DSD / code list 未核验（absent）：本库不得把手填顺序断言为官方顺序",
            ),
        ),
    )
}

/// A curve point may not be promoted here as an ordinary observation: it is
/// routed elsewhere.
pub fn ensure_not_curve_product(data_type: &EcbDataType) -> (r: EcbResult<()>)
    ensures
        !data_type.is_curve() ==> r is Ok,
        data_type.is_curve() ==> fails_with(
            r,
            EcbErrorKind::RoutedElsewhere,
            data_type.code_text() + " 是曲线点：须经 yieldx 映射批准后方可进内核，本库不晋级"@,
        ),
{
    if data_type.is_curve_product() {
        let mut m = String::new();
        m.append(data_type.code());
        m.append(" 是曲线点：须经 yieldx 映射批准后方可进内核，本库不晋级");
        return Err(EcbError::RoutedElsewhere(m));
    }
    Ok(())
}

/// Claims the write authority over ECB / Japan MOF fiscal data. That
/// authority is pending, so the claim is always refused.
pub fn claim_fiscal_write_authority() -> (r: EcbResult<()>)
    ensures
        fails_with(
            r,
            EcbErrorKind::WriteAuthorityDenied,
            "ECB / 日本 MOF 财政类的写入主权为 pending（未决）：本库不得主张权威写入"@,
        ),
{
    Err(
        EcbError::WriteAuthorityDenied(
            crate::text::text_of(
                "ECB / 日本 MOF 财政类的写入主权为 pending（未决）：本库不得主张权威写入",
            ),
        ),
    )
}

} // verus!
