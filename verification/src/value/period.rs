//! Periods and frequencies.
//!
//! A `Period` is the identity of a business period, a `Frequency` how often a
//! series is published; neither stands in for the other, and no `String`
//! stands in for a `Period`.

use vstd::prelude::*;

use crate::error::{fails_with, EcbError, EcbErrorKind, EcbResult};
use crate::text::{
    char_utf8_width, is_ascii_text, lemma_ascii_prefix, lemma_digits_ascii, lemma_utf8_prefix_grows,
    lemma_utf8_prefix_step, push_range, text_of, utf8_len, all_digits, chars_of, decimal, digit, digit_value, digits_value, is_digit, lemma_digit_char,
    lemma_digit_value, lemma_digits_of_padded, lemma_digits_value_single, lemma_digits_value_bounds, lemma_padded_of_digits,
    padded, pow10, push_char, push_decimal, push_padded, str_eq,
};
use crate::value::date::{
    date_text_fault, is_valid_ymd, iso_shape, lemma_date_view, lemma_iso_text_fields, ymd_fault,
    Date, all_digits_at,
};

verus! {

/// Publication frequency.
#[non_exhaustive]
#[derive(Debug, Clone, Copy, PartialEq, Eq, Hash)]
pub enum Frequency {
    /// Daily.
    Daily,
    /// Weekly.
    Weekly,
    /// Monthly.
    Monthly,
    /// Quarterly.
    Quarterly,
    /// Annual.
    Annual,
    /// Driven by events.
    Event,
    /// Irregular.
    Irregular,
}

impl Frequency {
    /// Every frequency.
    pub const ALL: [Frequency; 7] = [
        Frequency::Daily,
        Frequency::Weekly,
        Frequency::Monthly,
        Frequency::Quarterly,
        Frequency::Annual,
        Frequency::Event,
        Frequency::Irregular,
    ];

    /// The name of this frequency (this library's own spelling).
    pub open spec fn name_text(self) -> Seq<char> {
        match self {
            Frequency::Daily => "Daily"@,
            Frequency::Weekly => "Weekly"@,
            Frequency::Monthly => "Monthly"@,
            Frequency::Quarterly => "Quarterly"@,
            Frequency::Annual => "Annual"@,
            Frequency::Event => "Event"@,
            Frequency::Irregular => "Irregular"@,
        }
    }

    /// The name of this frequency.
    #[must_use]
    pub fn name(&self) -> (r: &'static str)
        ensures
            r@ == self.name_text(),
    {
        match self {
            Frequency::Daily => "Daily",
            Frequency::Weekly => "Weekly",
            Frequency::Monthly => "Monthly",
            Frequency::Quarterly => "Quarterly",
            Frequency::Annual => "Annual",
            Frequency::Event => "Event",
            Frequency::Irregular => "Irregular",
        }
    }

    /// The frequency with this exact (case-sensitive) name.
    pub fn from_name(name: &str) -> (r: EcbResult<Frequency>)
        ensures
            r matches Ok(f) ==> f.name_text() == name@,
            r matches Err(e) ==> e.spec_kind() == EcbErrorKind::Invalid && e.reason() == "未知频率："@
                + name@ && forall|f: Frequency| #[trigger] f.name_text() != name@,
            forall|f: Frequency| #[trigger] f.name_text() == name@ ==> r == Ok::<Frequency, EcbError>(
                f,
            ),
    {
        let r = if str_eq(name, "Daily") {
            Ok(Frequency::Daily)
        } else if str_eq(name, "Weekly") {
            Ok(Frequency::Weekly)
        } else if str_eq(name, "Monthly") {
            Ok(Frequency::Monthly)
        } else if str_eq(name, "Quarterly") {
            Ok(Frequency::Quarterly)
        } else if str_eq(name, "Annual") {
            Ok(Frequency::Annual)
        } else if str_eq(name, "Event") {
            Ok(Frequency::Event)
        } else if str_eq(name, "Irregular") {
            Ok(Frequency::Irregular)
        } else {
            let mut m = String::new();
            m.append("未知频率：");
            m.append(name);
            Err(EcbError::Invalid(m))
        };
        proof {
            if let Ok(f) = r {
                assert forall|g: Frequency| #[trigger] g.name_text() == name@ implies r == Ok::<
                    Frequency,
                    EcbError,
                >(g) by {
                    lemma_frequency_names_distinct(f, g);
                }
            }
        }
        r
    }
}

/// Distinct frequencies have distinct names, so a name read back gives the
/// frequency it was written from.
pub proof fn lemma_frequency_names_distinct(a: Frequency, b: Frequency)
    ensures
        a.name_text() == b.name_text() ==> a == b,
{
    reveal_strlit("Daily");
    reveal_strlit("Weekly");
    reveal_strlit("Monthly");
    reveal_strlit("Quarterly");
    reveal_strlit("Annual");
    reveal_strlit("Event");
    reveal_strlit("Irregular");
    if a.name_text() == b.name_text() && a != b {
        assert(a.name_text().len() == b.name_text().len());
        assert(a.name_text()[0] == b.name_text()[0]);
        assert(a.name_text()[1] == b.name_text()[1]);
    }
}

/// A business period.
#[non_exhaustive]
#[derive(Debug, Clone, Copy, PartialEq, Eq, Hash)]
pub enum Period {
    /// A day.
    Day(Date),
    /// A month of a year.
    Month {
        /// Year.
        year: i16,
        /// Month (1 to 12).
        month: u8,
    },
    /// A quarter of a year.
    Quarter {
        /// Year.
        year: i16,
        /// Quarter (1 to 4).
        quarter: u8,
    },
    /// A year.
    Year(i16),
    /// The day of an event.
    Event {
        /// The event's date.
        date: Date,
    },
}

/// The prefix of the key of an event period.
pub open spec fn event_prefix() -> Seq<char> {
    seq!['e', 'v', 'e', 'n', 't', ':']
}

/// Why a quarter number is refused.
pub open spec fn quarter_range_reason(quarter: int) -> Seq<char> {
    "季度 "@ + decimal(quarter as nat) + " 超出 1–4"@
}

/// Why a month period is refused.
pub open spec fn month_period_fault(year: int, month: int) -> Seq<char> {
    "月期间非法："@ + ymd_fault(year, month, 1)
}

/// Why a quarter period is refused: the quarter, then the year.
pub open spec fn quarter_period_fault(year: int, quarter: int) -> Seq<char> {
    if !(1 <= quarter <= 4) {
        quarter_range_reason(quarter)
    } else {
        ymd_fault(year, (quarter - 1) * 3 + 1, 1)
    }
}

/// The text that closes the refusal of a text of no period shape.
pub open spec fn period_shapes() -> Seq<char> {
    "（须为 YYYY-MM-DD / YYYY-MM / YYYY-Qn / YYYY / event:YYYY-MM-DD）"@
}

/// `s` has a `-` that starts at byte 4 of its UTF-8 form.
pub open spec fn dash_at_byte_four(s: Seq<char>) -> bool {
    exists|k: int| 0 <= k < s.len() && #[trigger] utf8_len(s.take(k)) == 4 && s[k] == '-'
}

/// The index (in characters) of the `-` that starts at byte 4.
pub open spec fn dash_index(s: Seq<char>) -> int {
    choose|k: int| 0 <= k < s.len() && #[trigger] utf8_len(s.take(k)) == 4 && s[k] == '-'
}

/// Why a text is not the key of a valid period. After an `event:` prefix,
/// the shape is read on the text's UTF-8 bytes: four bytes, seven bytes
/// with `-Q` at bytes 4 and 5, seven bytes with `-` at byte 4, ten bytes;
/// then each part in turn.
pub open spec fn period_text_fault(s: Seq<char>) -> Seq<char> {
    let k = dash_index(s);
    if s.len() >= 6 && s.subrange(0, 6) == event_prefix() {
        date_text_fault(s.skip(6))
    } else if utf8_len(s) == 4 {
        if !all_digits(s) {
            "年份形态非法："@ + s
        } else {
            ymd_fault(digits_value(s), 1, 1)
        }
    } else if utf8_len(s) == 7 && dash_at_byte_four(s) && k + 1 < s.len() && s[k + 1] == 'Q' {
        if !all_digits(s.subrange(0, k)) {
            "年份形态非法："@ + s.subrange(0, k)
        } else if !all_digits(s.subrange(k + 2, s.len() as int)) {
            "季度"@ + "形态非法："@ + s.subrange(k + 2, s.len() as int)
        } else {
            quarter_period_fault(
                digits_value(s.subrange(0, k)),
                digits_value(s.subrange(k + 2, s.len() as int)),
            )
        }
    } else if utf8_len(s) == 7 && dash_at_byte_four(s) {
        if !all_digits(s.subrange(0, k)) {
            "年份形态非法："@ + s.subrange(0, k)
        } else if !all_digits(s.subrange(k + 1, s.len() as int)) {
            "月份"@ + "形态非法："@ + s.subrange(k + 1, s.len() as int)
        } else {
            month_period_fault(
                digits_value(s.subrange(0, k)),
                digits_value(s.subrange(k + 1, s.len() as int)),
            )
        }
    } else if utf8_len(s) == 10 {
        date_text_fault(s)
    } else {
        "期间形态非法："@ + s + period_shapes()
    }
}

/// In an ASCII text bytes are characters: the `-` at byte 4 is the fifth
/// character.
proof fn lemma_ascii_period_shape(s: Seq<char>)
    requires
        is_ascii_text(s),
    ensures
        utf8_len(s) == s.len(),
        dash_at_byte_four(s) <==> (s.len() > 4 && s[4] == '-'),
        dash_at_byte_four(s) ==> dash_index(s) == 4,
{
    lemma_ascii_prefix(s, s.len() as int);
    assert(s.take(s.len() as int) =~= s);
    if s.len() > 4 && s[4] == '-' {
        lemma_ascii_prefix(s, 4);
    }
    if dash_at_byte_four(s) {
        let k = dash_index(s);
        lemma_ascii_prefix(s, k);
    }
}

/// A `-` after a prefix of four bytes is the one that [`dash_index`] names.
proof fn lemma_dash_unique(s: Seq<char>, k: int)
    requires
        0 <= k < s.len(),
        utf8_len(s.take(k)) == 4,
        s[k] == '-',
    ensures
        dash_at_byte_four(s),
        dash_index(s) == k,
{
    assert(dash_at_byte_four(s));
    let c = dash_index(s);
    if c < k {
        lemma_utf8_prefix_grows(s, c, k);
    } else if k < c {
        lemma_utf8_prefix_grows(s, k, c);
    }
}

/// A `DDDD-DD-DD` text is ASCII.
proof fn lemma_iso_shape_ascii(s: Seq<char>)
    requires
        iso_shape(s),
    ensures
        is_ascii_text(s),
{
    assert forall|i: int| 0 <= i < s.len() implies ((#[trigger] s[i]) as u32) < 0x80 by {
        if i < 4 {
            assert(s.subrange(0, 4)[i] == s[i]);
        } else if 4 < i < 7 {
            assert(s.subrange(5, 7)[i - 5] == s[i]);
        } else if 7 < i {
            assert(s.subrange(8, 10)[i - 8] == s[i]);
        }
    }
}

/// The UTF-8 length of `v` (exact below 16, at least 16 otherwise), and the
/// index of a `-` that starts at byte 4, if there is one.
fn byte_shape(v: &Vec<char>) -> (r: (u64, Option<usize>))
    ensures
        utf8_len(v@) < 16 ==> r.0 == utf8_len(v@),
        utf8_len(v@) >= 16 ==> r.0 >= 16,
        match r.1 {
            Some(k) => k < v@.len() && utf8_len(v@.take(k as int)) == 4 && v@[k as int] == '-',
            None => !dash_at_byte_four(v@),
        },
{
    let mut bytes: u64 = 0;
    let mut dash: Option<usize> = None;
    let mut i: usize = 0;
    while i < v.len()
        invariant
            i <= v@.len(),
            utf8_len(v@.take(i as int)) < 16 ==> bytes == utf8_len(v@.take(i as int)),
            utf8_len(v@.take(i as int)) >= 16 ==> bytes >= 16,
            bytes < 20,
            match dash {
                Some(k) => k < i && utf8_len(v@.take(k as int)) == 4 && v@[k as int] == '-',
                None => forall|j: int|
                    0 <= j < i ==> !(#[trigger] utf8_len(v@.take(j)) == 4 && v@[j] == '-'),
            },
        decreases v.len() - i,
    {
        proof {
            lemma_utf8_prefix_step(v@, i as int);
        }
        if dash.is_none() && bytes == 4 && v[i] == '-' {
            dash = Some(i);
        }
        if bytes < 16 {
            bytes = bytes + char_utf8_width(v[i]);
        }
        i = i + 1;
    }
    assert(v@.take(v@.len() as int) =~= v@);
    (bytes, dash)
}

/// Whether every character of `v` is ASCII.
fn ascii_chars(v: &Vec<char>) -> (r: bool)
    ensures
        r == is_ascii_text(v@),
{
    let mut i: usize = 0;
    while i < v.len()
        invariant
            i <= v@.len(),
            forall|j: int| 0 <= j < i ==> ((#[trigger] v@[j]) as u32) < 0x80,
        decreases v.len() - i,
    {
        if (v[i] as u32) >= 0x80 {
            return false;
        }
        i = i + 1;
    }
    true
}

/// The refusal of a text that holds a character outside ASCII (and does not
/// start with `event:`): no key is such a text, and the reason follows the
/// byte shape of [`period_text_fault`].
fn non_ascii_period_error(input: &str, v: &Vec<char>, bytes: u64, dash: Option<usize>) -> (e:
    EcbError)
    requires
        v@ == input@,
        !is_ascii_text(input@),
        !(input@.len() >= 6 && input@.subrange(0, 6) == event_prefix()),
        utf8_len(v@) < 16 ==> bytes == utf8_len(v@),
        utf8_len(v@) >= 16 ==> bytes >= 16,
        match dash {
            Some(k) => k < v@.len() && utf8_len(v@.take(k as int)) == 4 && v@[k as int] == '-',
            None => !dash_at_byte_four(v@),
        },
    ensures
        e.spec_kind() == EcbErrorKind::Invalid,
        e.reason() == period_text_fault(input@),
{
    let n = v.len();
    if bytes == 4 {
        proof {
            if all_digits(input@) {
                lemma_digits_ascii(input@);
            }
        }
        let mut m = String::new();
        m.append("年份形态非法：");
        m.append(input);
        return EcbError::Invalid(m);
    }
    if bytes == 7 {
        if let Some(k) = dash {
            proof {
                lemma_dash_unique(v@, k as int);
            }
            let q = k + 1 < n && v[k + 1] == 'Q';
            let from = if q {
                k + 2
            } else {
                k + 1
            };
            if !all_digits_at(v, 0, k) {
                let mut m = String::new();
                m.append("年份形态非法：");
                push_range(&mut m, v, 0, k);
                return EcbError::Invalid(m);
            }
            proof {
                if all_digits(v@.subrange(from as int, n as int)) {
                    assert forall|i: int| 0 <= i < n implies ((#[trigger] v@[i]) as u32) < 0x80 by {
                        if i < k {
                            assert(v@.subrange(0, k as int)[i] == v@[i]);
                        } else if i >= from {
                            assert(v@.subrange(from as int, n as int)[i - from] == v@[i]);
                        }
                    }
                    assert(is_ascii_text(v@));
                }
            }
            let mut m = String::new();
            if q {
                m.append("季度");
            } else {
                m.append("月份");
            }
            m.append("形态非法：");
            push_range(&mut m, v, from, n);
            return EcbError::Invalid(m);
        }
    }
    if bytes == 10 {
        proof {
            if iso_shape(input@) {
                lemma_iso_shape_ascii(input@);
            }
        }
        return EcbError::Invalid(text_of("日期形态非法：须为 YYYY-MM-DD"));
    }
    let mut m = String::new();
    m.append("期间形态非法：");
    m.append(input);
    m.append("（须为 YYYY-MM-DD / YYYY-MM / YYYY-Qn / YYYY / event:YYYY-MM-DD）");
    EcbError::Invalid(m)
}

impl Period {
    /// The period lies in the ranges that the checked constructors accept.
    pub open spec fn is_valid(self) -> bool {
        match self {
            Period::Day(date) => date.is_valid(),
            Period::Month { year, month } => is_valid_ymd(year as int, month as int, 1),
            Period::Quarter { year, quarter } => 1 <= quarter <= 4 && is_valid_ymd(
                year as int,
                (quarter - 1) * 3 + 1,
                1,
            ),
            Period::Year(year) => is_valid_ymd(year as int, 1, 1),
            Period::Event { date } => date.is_valid(),
        }
    }

    /// The canonical key: `YYYY-MM-DD` (day), `YYYY-MM` (month), `YYYY-Qn`
    /// (quarter), `YYYY` (year) or `event:YYYY-MM-DD` (event).
    pub open spec fn key_text(self) -> Seq<char> {
        match self {
            Period::Day(date) => date.iso(),
            Period::Month { year, month } => padded(year as int, 4) + seq!['-'] + padded(
                month as int,
                2,
            ),
            Period::Quarter { year, quarter } => padded(year as int, 4) + seq!['-', 'Q'] + decimal(
                quarter as nat,
            ),
            Period::Year(year) => padded(year as int, 4),
            Period::Event { date } => event_prefix() + date.iso(),
        }
    }

    /// The frequency that fits this period best.
    pub open spec fn frequency_of(self) -> Frequency {
        match self {
            Period::Day(_) => Frequency::Daily,
            Period::Month { .. } => Frequency::Monthly,
            Period::Quarter { .. } => Frequency::Quarterly,
            Period::Year(_) => Frequency::Annual,
            Period::Event { .. } => Frequency::Event,
        }
    }

    /// Why this period is refused by the checked constructors.
    pub open spec fn fault_text(self) -> Seq<char> {
        match self {
            Period::Day(date) => ymd_fault(date@.0, date@.1, date@.2),
            Period::Month { year, month } => month_period_fault(year as int, month as int),
            Period::Quarter { year, quarter } => quarter_period_fault(year as int, quarter as int),
            Period::Year(year) => ymd_fault(year as int, 1, 1),
            Period::Event { date } => ymd_fault(date@.0, date@.1, date@.2),
        }
    }

    /// Checks a period, which callers can build directly, against the ranges
    /// of the checked constructors.
    pub fn validate(&self) -> (r: EcbResult<()>)
        ensures
            r is Ok <==> self.is_valid(),
            r is Err ==> fails_with(r, EcbErrorKind::Invalid, self.fault_text()),
    {
        proof {
            broadcast use lemma_date_view;

        }
        match *self {
            Period::Day(date) | Period::Event { date } => {
                Date::new(date.year(), date.month(), date.day())?;
            },
            Period::Month { year, month } => {
                Period::month(year, month)?;
            },
            Period::Quarter { year, quarter } => {
                Period::quarter(year, quarter)?;
            },
            Period::Year(year) => {
                Period::year(year)?;
            },
        }
        Ok(())
    }

    /// The period of a day.
    #[must_use]
    pub fn day(date: Date) -> (r: Period)
        ensures
            r == Period::Day(date),
    {
        Period::Day(date)
    }

    /// The period of a month; a year outside 1 to 9999 or a month outside 1
    /// to 12 is refused.
    pub fn month(year: i16, month: u8) -> (r: EcbResult<Period>)
        ensures
            r is Ok <==> is_valid_ymd(year as int, month as int, 1),
            r matches Ok(p) ==> p == (Period::Month { year, month }),
            r is Err ==> fails_with(
                r,
                EcbErrorKind::Invalid,
                month_period_fault(year as int, month as int),
            ),
    {
        match Date::new(year, month, 1) {
            Ok(_) => Ok(Period::Month { year, month }),
            Err(EcbError::Invalid(message)) => {
                let mut m = String::new();
                m.append("月期间非法：");
                m.append(message.as_str());
                Err(EcbError::Invalid(m))
            },
            Err(other) => Err(other),
        }
    }

    /// The period of a quarter; a quarter outside 1 to 4 or a year outside 1
    /// to 9999 is refused.
    pub fn quarter(year: i16, quarter: u8) -> (r: EcbResult<Period>)
        ensures
            r is Ok <==> 1 <= quarter <= 4 && 1 <= year <= 9999,
            r matches Ok(p) ==> p == (Period::Quarter { year, quarter }),
            r is Err ==> fails_with(
                r,
                EcbErrorKind::Invalid,
                quarter_period_fault(year as int, quarter as int),
            ),
    {
        if quarter < 1 || quarter > 4 {
            let mut m = String::new();
            m.append("季度 ");
            push_decimal(&mut m, quarter as u64);
            m.append(" 超出 1–4");
            return Err(EcbError::Invalid(m));
        }
        Date::new(year, (quarter - 1) * 3 + 1, 1)?;
        Ok(Period::Quarter { year, quarter })
    }

    /// The period of a year; a year outside 1 to 9999 is refused.
    pub fn year(year: i16) -> (r: EcbResult<Period>)
        ensures
            r is Ok <==> 1 <= year <= 9999,
            r matches Ok(p) ==> p == Period::Year(year),
            r is Err ==> fails_with(r, EcbErrorKind::Invalid, ymd_fault(year as int, 1, 1)),
    {
        Date::new(year, 1, 1)?;
        Ok(Period::Year(year))
    }

    /// The period of an event day.
    #[must_use]
    pub fn event(date: Date) -> (r: Period)
        ensures
            r == (Period::Event { date }),
    {
        Period::Event { date }
    }

    /// The canonical key of this period (see [`Period::parse`] for the way back).
    #[must_use]
    pub fn key(&self) -> (r: String)
        ensures
            r@ == self.key_text(),
    {
        let mut r = String::new();
        match *self {
            Period::Day(date) => {
                r = date.to_iso();
            },
            Period::Month { year, month } => {
                push_padded(&mut r, year as i64, 4);
                push_char(&mut r, '-');
                push_padded(&mut r, month as i64, 2);
            },
            Period::Quarter { year, quarter } => {
                push_padded(&mut r, year as i64, 4);
                push_char(&mut r, '-');
                push_char(&mut r, 'Q');
                push_decimal(&mut r, quarter as u64);
            },
            Period::Year(year) => {
                push_padded(&mut r, year as i64, 4);
            },
            Period::Event { date } => {
                r.append("event:");
                r.append(date.to_iso().as_str());
                proof {
                    reveal_strlit("event:");
                }
            },
        }
        assert(r@ =~= self.key_text());
        r
    }

    /// Strictly parses the keys that [`Period::key`] writes: exactly the keys
    /// of valid periods are accepted, and each gives back its period.
    pub fn parse(input: &str) -> (r: EcbResult<Period>)
        ensures
            r matches Ok(p) ==> p.is_valid() && p.key_text() == input@,
            r matches Err(e) ==> e.spec_kind() == EcbErrorKind::Invalid && forall|p: Period|
                #[trigger] p.is_valid() ==> p.key_text() != input@,
            r is Err ==> fails_with(r, EcbErrorKind::Invalid, period_text_fault(input@)),
            forall|p: Period| #[trigger] p.is_valid() && p.key_text() == input@ ==> r == Ok::<
                Period,
                EcbError,
            >(p),
    {
        let r = Period::parse_key(input);
        proof {
            if let Ok(q) = r {
                assert forall|p: Period| #[trigger]
                    p.is_valid() && p.key_text() == input@ implies r == Ok::<Period, EcbError>(p) by {
                    lemma_key_injective(p, q);
                }
            }
        }
        r
    }

    fn parse_key(input: &str) -> (r: EcbResult<Period>)
        ensures
            r matches Ok(p) ==> p.is_valid() && p.key_text() == input@,
            r matches Err(e) ==> e.spec_kind() == EcbErrorKind::Invalid && forall|p: Period|
                #[trigger] p.is_valid() ==> p.key_text() != input@,
            r is Err ==> fails_with(r, EcbErrorKind::Invalid, period_text_fault(input@)),
    {
        let v = chars_of(input);
        let n = v.len();
        let s = Ghost(input@);
        if n >= 6 && v[0] == 'e' && v[1] == 'v' && v[2] == 'e' && v[3] == 'n' && v[4] == 't' && v[5]
            == ':' {
            let rest = input.substring_char(6, n);
            assert(s@ =~= event_prefix() + rest@);
            assert(input@.subrange(0, 6) =~= event_prefix());
            assert(rest@ =~= input@.skip(6));
            match Date::parse(rest) {
                Ok(date) => {
                    return Ok(Period::event(date));
                },
                Err(e) => {
                    proof {
                        assert forall|p: Period| #[trigger] p.is_valid() implies p.key_text()
                            != input@ by {
                            lemma_key_facts(p);
                            if let Period::Event { date } = p {
                                if p.key_text() == input@ {
                                    assert(date.iso() =~= input@.skip(6));
                                }
                            } else {
                                assert(input@[0] == 'e');
                            }
                        }
                    }
                    return Err(e);
                },
            }
        }
        proof {
            if n >= 6 && input@.subrange(0, 6) == event_prefix() {
                let h = input@.subrange(0, 6);
                assert(h[0] == input@[0] && h[1] == input@[1] && h[2] == input@[2]);
                assert(h[3] == input@[3] && h[4] == input@[4] && h[5] == input@[5]);
            }
            assert(!(input@.len() >= 6 && input@.subrange(0, 6) == event_prefix()));
            assert forall|p: Period| #[trigger]
                p.is_valid() && p.key_text() == input@ implies !(p is Event) by {
                lemma_key_facts(p);
                if let Period::Event { date } = p {
                    assert(input@[0] == 'e' && input@[1] == 'v' && input@[2] == 'e' && input@[3]
                        == 'n' && input@[4] == 't' && input@[5] == ':');
                }
            }
        }
        let (bytes, dash) = byte_shape(&v);
        if !ascii_chars(&v) {
            proof {
                assert forall|p: Period| #[trigger] p.is_valid() implies p.key_text() != input@ by {
                    lemma_key_ascii(p);
                }
            }
            return Err(non_ascii_period_error(input, &v, bytes, dash));
        }
        proof {
            lemma_ascii_period_shape(input@);
        }
        if n == 4 {
            let year = match parse_year(input) {
                Ok(y) => y,
                Err(e) => {
                    proof {
                        assert forall|p: Period| #[trigger] p.is_valid() implies p.key_text()
                            != input@ by {
                            lemma_key_facts(p);
                        }
                    }
                    return Err(e);
                },
            };
            proof {
                lemma_padded_of_digits(input@);
            }
            let r = Period::year(year);
            proof {
                if r is Err {
                    assert forall|p: Period| #[trigger] p.is_valid() implies p.key_text()
                        != input@ by {
                        lemma_key_facts(p);
                    }
                }
            }
            return r;
        }
        if n == 7 && v[4] == '-' && v[5] == 'Q' {
            let head = input.substring_char(0, 4);
            let tail = input.substring_char(6, 7);
            let year = match parse_year(head) {
                Ok(y) => y,
                Err(e) => {
                    proof {
                        assert forall|p: Period| #[trigger] p.is_valid() implies p.key_text()
                            != input@ by {
                            lemma_key_facts(p);
                            if p.key_text() == input@ {
                                assert(head@ =~= p.key_text().subrange(0, 4));
                            }
                        }
                    }
                    return Err(e);
                },
            };
            let quarter = match parse_u8(tail, "季度") {
                Ok(q) => q,
                Err(e) => {
                    proof {
                        assert forall|p: Period| #[trigger] p.is_valid() implies p.key_text()
                            != input@ by {
                            lemma_key_facts(p);
                            if p.key_text() == input@ {
                                assert(tail@ =~= p.key_text().subrange(6, 7));
                            }
                        }
                        if all_digits(tail@) {
                            lemma_digits_value_bounds(tail@);
                            assert(pow10(1) == 10) by {
                                reveal_with_fuel(pow10, 2);
                            }
                        }
                    }
                    return Err(e);
                },
            };
            let r = Period::quarter(year, quarter);
            proof {
                lemma_padded_of_digits(head@);
                lemma_digit_char(tail@[0]);
                assert(tail@ =~= seq![tail@[0]]);
                lemma_digits_value_single(tail@[0]);
                if r is Ok {
                    assert(decimal(quarter as nat) =~= seq![digit(quarter as int)]);
                    assert(input@ =~= head@ + seq!['-', 'Q'] + tail@);
                } else {
                    assert forall|p: Period| #[trigger] p.is_valid() implies p.key_text()
                        != input@ by {
                        lemma_key_facts(p);
                        if p.key_text() == input@ {
                            assert(head@ =~= p.key_text().subrange(0, 4));
                            assert(tail@ =~= p.key_text().subrange(6, 7));
                        }
                    }
                }
            }
            return r;
        }
        if n == 7 && v[4] == '-' {
            let head = input.substring_char(0, 4);
            let tail = input.substring_char(5, 7);
            let year = match parse_year(head) {
                Ok(y) => y,
                Err(e) => {
                    proof {
                        assert forall|p: Period| #[trigger] p.is_valid() implies p.key_text()
                            != input@ by {
                            lemma_key_facts(p);
                            if p.key_text() == input@ {
                                assert(head@ =~= p.key_text().subrange(0, 4));
                            }
                        }
                    }
                    return Err(e);
                },
            };
            let month = match parse_u8(tail, "月份") {
                Ok(m) => m,
                Err(e) => {
                    proof {
                        assert forall|p: Period| #[trigger] p.is_valid() implies p.key_text()
                            != input@ by {
                            lemma_key_facts(p);
                            if p.key_text() == input@ {
                                assert(tail@ =~= p.key_text().subrange(5, 7));
                            }
                        }
                        if all_digits(tail@) {
                            lemma_digits_value_bounds(tail@);
                            assert(pow10(2) == 100) by {
                                reveal_with_fuel(pow10, 3);
                            }
                        }
                    }
                    return Err(e);
                },
            };
            let r = Period::month(year, month);
            proof {
                lemma_padded_of_digits(head@);
                lemma_padded_of_digits(tail@);
                if r is Ok {
                    assert(input@ =~= head@ + seq!['-'] + tail@);
                } else {
                    assert forall|p: Period| #[trigger] p.is_valid() implies p.key_text()
                        != input@ by {
                        lemma_key_facts(p);
                        if p.key_text() == input@ {
                            assert(head@ =~= p.key_text().subrange(0, 4));
                            assert(tail@ =~= p.key_text().subrange(5, 7));
                        }
                    }
                }
            }
            return r;
        }
        if n == 10 {
            match Date::parse(input) {
                Ok(date) => {
                    return Ok(Period::day(date));
                },
                Err(e) => {
                    proof {
                        assert forall|p: Period| #[trigger] p.is_valid() implies p.key_text()
                            != input@ by {
                            lemma_key_facts(p);
                        }
                    }
                    return Err(e);
                },
            }
        }
        proof {
            assert forall|p: Period| #[trigger] p.is_valid() implies p.key_text() != input@ by {
                lemma_key_facts(p);
            }
        }
        let mut m = String::new();
        m.append("期间形态非法：");
        m.append(input);
        m.append("（须为 YYYY-MM-DD / YYYY-MM / YYYY-Qn / YYYY / event:YYYY-MM-DD）");
        Err(EcbError::Invalid(m))
    }

    /// The frequency that fits this period best.
    #[must_use]
    pub fn frequency(&self) -> (r: Frequency)
        ensures
            r == self.frequency_of(),
    {
        match self {
            Period::Day(_) => Frequency::Daily,
            Period::Month { .. } => Frequency::Monthly,
            Period::Quarter { .. } => Frequency::Quarterly,
            Period::Year(_) => Frequency::Annual,
            Period::Event { .. } => Frequency::Event,
        }
    }
}

/// The shape of the key of a valid period: its length, where its digits and
/// separators stand and what the digits spell.
pub proof fn lemma_key_facts(p: Period)
    requires
        p.is_valid(),
    ensures
        match p {
            Period::Day(date) => {
                &&& iso_shape(p.key_text())
                &&& is_digit(p.key_text()[0])
            },
            Period::Event { date } => {
                &&& p.key_text().len() == 16
                &&& p.key_text().subrange(0, 6) == event_prefix()
                &&& p.key_text().skip(6) == date.iso()
            },
            Period::Year(year) => {
                &&& p.key_text().len() == 4
                &&& all_digits(p.key_text())
                &&& digits_value(p.key_text()) == year
            },
            Period::Month { year, month } => {
                &&& p.key_text().len() == 7
                &&& all_digits(p.key_text().subrange(0, 4))
                &&& digits_value(p.key_text().subrange(0, 4)) == year
                &&& is_digit(p.key_text()[0])
                &&& p.key_text()[4] == '-'
                &&& is_digit(p.key_text()[5])
                &&& all_digits(p.key_text().subrange(5, 7))
                &&& digits_value(p.key_text().subrange(5, 7)) == month
            },
            Period::Quarter { year, quarter } => {
                &&& p.key_text().len() == 7
                &&& all_digits(p.key_text().subrange(0, 4))
                &&& digits_value(p.key_text().subrange(0, 4)) == year
                &&& is_digit(p.key_text()[0])
                &&& p.key_text()[4] == '-'
                &&& p.key_text()[5] == 'Q'
                &&& all_digits(p.key_text().subrange(6, 7))
                &&& digits_value(p.key_text().subrange(6, 7)) == quarter
            },
        },
{
    assert(pow10(4) == 10000 && pow10(2) == 100) by {
        reveal_with_fuel(pow10, 5);
    }
    let k = p.key_text();
    match p {
        Period::Day(date) => {
            lemma_iso_text_fields(date@.0, date@.1, date@.2);
            assert(is_digit(k.subrange(0, 4)[0]));
        },
        Period::Event { date } => {
            lemma_iso_text_fields(date@.0, date@.1, date@.2);
            assert(k.subrange(0, 6) =~= event_prefix());
            assert(k.skip(6) =~= date.iso());
        },
        Period::Year(year) => {
            lemma_digits_of_padded(year as int, 4);
        },
        Period::Month { year, month } => {
            lemma_digits_of_padded(year as int, 4);
            lemma_digits_of_padded(month as int, 2);
            assert(k.subrange(0, 4) =~= padded(year as int, 4));
            assert(k.subrange(5, 7) =~= padded(month as int, 2));
            assert(is_digit(k.subrange(0, 4)[0]));
            assert(is_digit(k.subrange(5, 7)[0]));
        },
        Period::Quarter { year, quarter } => {
            lemma_digits_of_padded(year as int, 4);
            lemma_digit_value(quarter as int);
            assert(decimal(quarter as nat) =~= seq![digit(quarter as int)]);
            assert(k.subrange(0, 4) =~= padded(year as int, 4));
            assert(k.subrange(6, 7) =~= seq![digit(quarter as int)]);
            assert(is_digit(k.subrange(0, 4)[0]));
            lemma_digits_value_single(digit(quarter as int));
        },
    }
}

/// The key of a valid period is ASCII.
proof fn lemma_key_ascii(p: Period)
    requires
        p.is_valid(),
    ensures
        is_ascii_text(p.key_text()),
{
    lemma_key_facts(p);
    let k = p.key_text();
    match p {
        Period::Day(_) => {
            lemma_iso_shape_ascii(k);
        },
        Period::Event { date } => {
            lemma_iso_text_fields(date@.0, date@.1, date@.2);
            lemma_iso_shape_ascii(date.iso());
            assert forall|i: int| 0 <= i < k.len() implies ((#[trigger] k[i]) as u32) < 0x80 by {
                if i < 6 {
                    assert(k.subrange(0, 6)[i] == k[i]);
                } else {
                    assert(k.skip(6)[i - 6] == k[i]);
                    assert(date.iso()[i - 6] == k[i]);
                }
            }
        },
        Period::Year(_) => {
            lemma_digits_ascii(k);
        },
        Period::Month { .. } => {
            assert forall|i: int| 0 <= i < k.len() implies ((#[trigger] k[i]) as u32) < 0x80 by {
                if i < 4 {
                    assert(k.subrange(0, 4)[i] == k[i]);
                } else if i > 4 {
                    assert(k.subrange(5, 7)[i - 5] == k[i]);
                }
            }
        },
        Period::Quarter { .. } => {
            assert forall|i: int| 0 <= i < k.len() implies ((#[trigger] k[i]) as u32) < 0x80 by {
                if i < 4 {
                    assert(k.subrange(0, 4)[i] == k[i]);
                } else if i > 5 {
                    assert(k.subrange(6, 7)[i - 6] == k[i]);
                }
            }
        },
    }
}

/// Distinct valid periods have distinct keys: a key names one period only.
pub proof fn lemma_key_injective(p: Period, q: Period)
    requires
        p.is_valid(),
        q.is_valid(),
        p.key_text() == q.key_text(),
    ensures
        p == q,
{
    lemma_key_facts(p);
    lemma_key_facts(q);
    let k = p.key_text();
    match p {
        Period::Day(a) => {
            if let Period::Day(b) = q {
                lemma_iso_text_fields(a@.0, a@.1, a@.2);
                lemma_iso_text_fields(b@.0, b@.1, b@.2);
                crate::value::date::lemma_date_eq(a, b);
            } else if let Period::Event { date } = q {
                assert(k.subrange(0, 6)[0] == 'e');
            }
        },
        Period::Event { date: a } => {
            if let Period::Event { date: b } = q {
                lemma_iso_text_fields(a@.0, a@.1, a@.2);
                lemma_iso_text_fields(b@.0, b@.1, b@.2);
                crate::value::date::lemma_date_eq(a, b);
            } else if let Period::Day(d) = q {
                assert(k.subrange(0, 6)[0] == 'e');
            }
        },
        Period::Month { .. } => {
            if let Period::Quarter { .. } = q {
                assert(k[5] == 'Q');
            }
        },
        Period::Quarter { .. } => {
            if let Period::Month { .. } = q {
                assert(k[5] == 'Q');
            }
        },
        Period::Year(_) => {},
    }
}

/// Reads a year written as exactly four ASCII digits.
fn parse_year(segment: &str) -> (r: EcbResult<i16>)
    ensures
        r is Ok <==> segment@.len() == 4 && all_digits(segment@),
        r matches Ok(y) ==> y == digits_value(segment@),
        r is Err ==> fails_with(r, EcbErrorKind::Invalid, "年份形态非法："@ + segment@),
{
    let v = chars_of(segment);
    if v.len() != 4 || !crate::value::date::all_digits_at(&v, 0, 4) {
        proof {
            assert(v@.subrange(0, v@.len() as int) =~= v@);
        }
        let mut m = String::new();
        m.append("年份形态非法：");
        m.append(segment);
        return Err(EcbError::Invalid(m));
    }
    assert(v@.subrange(0, 4) =~= v@);
    let y = crate::value::date::digits_at(&v, 0, 4);
    Ok(y as i16)
}

/// Reads an unsigned 8-bit number written as ASCII digits.
fn parse_u8(segment: &str, label: &str) -> (r: EcbResult<u8>)
    ensures
        r is Ok <==> segment@.len() > 0 && all_digits(segment@) && digits_value(segment@) <= 255,
        r matches Ok(x) ==> x == digits_value(segment@),
        !(segment@.len() > 0 && all_digits(segment@)) ==> fails_with(
            r,
            EcbErrorKind::Invalid,
            label@ + "形态非法："@ + segment@,
        ),
        segment@.len() > 0 && all_digits(segment@) && digits_value(segment@) > 255 ==> fails_with(
            r,
            EcbErrorKind::Invalid,
            label@ + "无法解析：number too large to fit in target type"@,
        ),
{
    let v = chars_of(segment);
    if v.len() == 0 || !crate::value::date::all_digits_at(&v, 0, v.len()) {
        proof {
            assert(v@.subrange(0, v@.len() as int) =~= v@);
        }
        let mut m = String::new();
        m.append(label);
        m.append("形态非法：");
        m.append(segment);
        return Err(EcbError::Invalid(m));
    }
    assert(v@.subrange(0, v@.len() as int) =~= v@);
    let mut x: u32 = 0;
    let mut i: usize = 0;
    while i < v.len()
        invariant
            v@ == segment@,
            all_digits(v@),
            i <= v@.len(),
            x == digits_value(v@.subrange(0, i as int)),
            x <= 255,
        decreases v.len() - i,
    {
        let ghost prefix = v@.subrange(0, i as int);
        let ghost next = v@.subrange(0, i + 1);
        assert(next.drop_last() =~= prefix);
        assert(is_digit(v@[i as int]));
        let d: u32 = (v[i] as u32) - 48;
        x = x * 10 + d;
        if x > 255 {
            proof {
                lemma_digits_prefix_le(v@, (i + 1) as int);
            }
            let mut m = String::new();
            m.append(label);
            m.append("无法解析：number too large to fit in target type");
            return Err(EcbError::Invalid(m));
        }
        i = i + 1;
    }
    assert(v@.subrange(0, v@.len() as int) =~= v@);
    Ok(x as u8)
}

/// A digit string is worth at least what any of its prefixes is worth.
proof fn lemma_digits_prefix_le(s: Seq<char>, k: int)
    requires
        all_digits(s),
        0 <= k <= s.len(),
    ensures
        digits_value(s.subrange(0, k)) <= digits_value(s),
    decreases s.len() - k,
{
    if k < s.len() {
        lemma_digits_prefix_le(s, k + 1);
        let a = s.subrange(0, k);
        let b = s.subrange(0, k + 1);
        assert(b.drop_last() =~= a);
        assert(is_digit(s[k]));
        assert(b.last() == s[k]);
        lemma_digits_value_bounds(a);
        assert(digits_value(b) == digits_value(a) * 10 + digit_value(s[k]));
    } else {
        assert(s.subrange(0, k) =~= s);
    }
}

} // verus!
