//! Calendar dates of this library: proleptic Gregorian, years 1 to 9999,
//! written strictly as `YYYY-MM-DD`.

use vstd::prelude::*;

use crate::error::{fails_with, EcbError, EcbErrorKind, EcbResult};
use crate::text::{
    all_digits, chars_of, decimal, digits_value, is_digit, lemma_digits_of_padded, lemma_digits_value_bounds,
    lemma_padded_of_digits, padded, pow10, push_char, push_decimal, push_padded,
};

verus! {

/// Gregorian leap year: divisible by 4, except centuries not divisible by 400.
pub open spec fn is_leap(year: int) -> bool {
    (year % 4 == 0 && year % 100 != 0) || year % 400 == 0
}

/// Number of days of `month` (1 to 12) in `year`.
pub open spec fn month_days(year: int, month: int) -> int {
    if month == 2 {
        if is_leap(year) {
            29
        } else {
            28
        }
    } else if month == 4 || month == 6 || month == 9 || month == 11 {
        30
    } else {
        31
    }
}

/// `year-month-day` names a day of the calendar this library accepts.
pub open spec fn is_valid_ymd(year: int, month: int, day: int) -> bool {
    &&& 1 <= year <= 9999
    &&& 1 <= month <= 12
    &&& 1 <= day <= month_days(year, month)
}

/// The `YYYY-MM-DD` text of a year, month and day (`{:04}-{:02}-{:02}`).
pub open spec fn iso_text(year: int, month: int, day: int) -> Seq<char> {
    padded(year, 4) + seq!['-'] + padded(month, 2) + seq!['-'] + padded(day, 2)
}

/// `s` has the shape `DDDD-DD-DD` (ten characters, ASCII digits and two dashes).
pub open spec fn iso_shape(s: Seq<char>) -> bool {
    &&& s.len() == 10
    &&& all_digits(s.subrange(0, 4))
    &&& s[4] == '-'
    &&& all_digits(s.subrange(5, 7))
    &&& s[7] == '-'
    &&& all_digits(s.subrange(8, 10))
}

/// The year, month and day that the digits of a `DDDD-DD-DD` text spell.
pub open spec fn iso_fields(s: Seq<char>) -> (int, int, int) {
    (
        digits_value(s.subrange(0, 4)),
        digits_value(s.subrange(5, 7)),
        digits_value(s.subrange(8, 10)),
    )
}

/// The Gregorian month lengths: January, March, May, July, August, October
/// and December have 31 days; April, June, September and November 30;
/// February 29 in a leap year and 28 otherwise. A year has 366 days when
/// it is a leap year and 365 otherwise.
pub proof fn lemma_gregorian_month_lengths(year: int)
    ensures
        forall|month: int|
            1 <= month <= 12 ==> (#[trigger] month_days(year, month) == 31 <==> (month == 1
                || month == 3 || month == 5 || month == 7 || month == 8 || month == 10 || month
                == 12)),
        forall|month: int|
            1 <= month <= 12 ==> (#[trigger] month_days(year, month) == 30 <==> (month == 4
                || month == 6 || month == 9 || month == 11)),
        month_days(year, 2) == (if is_leap(year) {
            29int
        } else {
            28int
        }),
        month_days(year, 1) + month_days(year, 2) + month_days(year, 3) + month_days(year, 4)
            + month_days(year, 5) + month_days(year, 6) + month_days(year, 7) + month_days(
            year,
            8,
        ) + month_days(year, 9) + month_days(year, 10) + month_days(year, 11) + month_days(
            year,
            12,
        ) == (if is_leap(year) {
            366int
        } else {
            365int
        }),
{
}

/// Why a month number is refused.
pub open spec fn month_range_reason(month: int) -> Seq<char> {
    "月份 "@ + decimal(month as nat) + " 超出 1–12"@
}

/// Why `year-month-day` names no day of the accepted calendar, checked in
/// this order: the year, the month, then the day.
pub open spec fn ymd_fault(year: int, month: int, day: int) -> Seq<char> {
    if !(1 <= year <= 9999) {
        "年份 "@ + padded(year, 0) + " 超出 1–9999"@
    } else if !(1 <= month <= 12) {
        month_range_reason(month)
    } else {
        padded(year, 4) + seq!['-'] + padded(month, 2) + " 没有第 "@ + decimal(day as nat)
            + " 日"@
    }
}

/// Why a text is not the text of a date: its shape, or else the parts that
/// its digits spell.
pub open spec fn date_text_fault(s: Seq<char>) -> Seq<char> {
    if !iso_shape(s) {
        "日期形态非法：须为 YYYY-MM-DD"@
    } else {
        ymd_fault(iso_fields(s).0, iso_fields(s).1, iso_fields(s).2)
    }
}

/// A calendar date (always valid when built by [`Date::new`] or [`Date::parse`]).
#[derive(Debug, Clone, Copy, PartialEq, Eq, Hash)]
pub struct Date {
    year: i16,
    month: u8,
    day: u8,
}

impl View for Date {
    type V = (int, int, int);

    /// Year, month and day.
    closed spec fn view(&self) -> (int, int, int) {
        (self.year as int, self.month as int, self.day as int)
    }
}

impl Date {
    /// This date names a day of the accepted calendar.
    pub open spec fn is_valid(self) -> bool {
        is_valid_ymd(self@.0, self@.1, self@.2)
    }

    /// The `YYYY-MM-DD` text of this date.
    pub open spec fn iso(self) -> Seq<char> {
        iso_text(self@.0, self@.1, self@.2)
    }
}

/// The parts of a date fit their machine types, and a date is its parts.
pub broadcast proof fn lemma_date_view(d: Date)
    ensures
        -0x8000 <= (#[trigger] d@).0 <= 0x7fff,
        0 <= d@.1 <= 255,
        0 <= d@.2 <= 255,
{
}

/// Two dates with the same year, month and day are the same date.
pub proof fn lemma_date_eq(a: Date, b: Date)
    ensures
        a@ == b@ ==> a == b,
{
}

/// The text of a valid date has the `DDDD-DD-DD` shape and spells its parts.
pub proof fn lemma_iso_text_fields(year: int, month: int, day: int)
    requires
        is_valid_ymd(year, month, day),
    ensures
        iso_shape(iso_text(year, month, day)),
        iso_fields(iso_text(year, month, day)) == (year, month, day),
{
    assert(pow10(4) == 10000 && pow10(2) == 100) by {
        reveal_with_fuel(pow10, 5);
    }
    lemma_digits_of_padded(year, 4);
    lemma_digits_of_padded(month, 2);
    lemma_digits_of_padded(day, 2);
    let s = iso_text(year, month, day);
    assert(s.subrange(0, 4) =~= padded(year, 4));
    assert(s.subrange(5, 7) =~= padded(month, 2));
    assert(s.subrange(8, 10) =~= padded(day, 2));
}

/// Distinct valid dates have distinct texts: a text names one date only.
pub proof fn lemma_iso_injective(a: Date, b: Date)
    requires
        a.is_valid(),
        b.is_valid(),
        a.iso() == b.iso(),
    ensures
        a == b,
{
    lemma_iso_text_fields(a@.0, a@.1, a@.2);
    lemma_iso_text_fields(b@.0, b@.1, b@.2);
    lemma_date_eq(a, b);
}

/// A `DDDD-DD-DD` text is the text of the parts its digits spell.
pub proof fn lemma_iso_shape_text(s: Seq<char>)
    requires
        iso_shape(s),
    ensures
        iso_text(iso_fields(s).0, iso_fields(s).1, iso_fields(s).2) == s,
{
    lemma_padded_of_digits(s.subrange(0, 4));
    lemma_padded_of_digits(s.subrange(5, 7));
    lemma_padded_of_digits(s.subrange(8, 10));
    assert(s =~= s.subrange(0, 4) + seq!['-'] + s.subrange(5, 7) + seq!['-'] + s.subrange(8, 10));
}

/// Whether `c` is an ASCII digit.
pub(crate) fn is_digit_char(c: char) -> (r: bool)
    ensures
        r == is_digit(c),
{
    let n: u32 = c as u32;
    48 <= n && n <= 57
}

/// Whether `v[from..to]` is made of ASCII digits.
pub(crate) fn all_digits_at(v: &Vec<char>, from: usize, to: usize) -> (r: bool)
    requires
        from <= to <= v@.len(),
    ensures
        r == all_digits(v@.subrange(from as int, to as int)),
{
    let mut i = from;
    while i < to
        invariant
            from <= i <= to <= v@.len(),
            forall|j: int| from <= j < i ==> is_digit(#[trigger] v@[j]),
        decreases to - i,
    {
        if !is_digit_char(v[i]) {
            assert(!is_digit(v@.subrange(from as int, to as int)[i - from]));
            return false;
        }
        i = i + 1;
    }
    assert forall|j: int| 0 <= j < to - from implies is_digit(
        #[trigger] v@.subrange(from as int, to as int)[j],
    ) by {
        assert(v@.subrange(from as int, to as int)[j] == v@[from + j]);
    }
    true
}

/// The number that the (at most four) digits `v[from..to]` spell.
pub(crate) fn digits_at(v: &Vec<char>, from: usize, to: usize) -> (r: u32)
    requires
        from <= to <= v@.len(),
        to - from <= 4,
        all_digits(v@.subrange(from as int, to as int)),
    ensures
        r == digits_value(v@.subrange(from as int, to as int)),
        r < 10000,
{
    let mut r: u32 = 0;
    let mut i = from;
    while i < to
        invariant
            from <= i <= to <= v@.len(),
            to - from <= 4,
            all_digits(v@.subrange(from as int, to as int)),
            r == digits_value(v@.subrange(from as int, i as int)),
            r < pow10((i - from) as nat),
            pow10((i - from) as nat) <= 10000,
        decreases to - i,
    {
        let ghost prefix = v@.subrange(from as int, i as int);
        let ghost next = v@.subrange(from as int, i + 1);
        assert(next.drop_last() =~= prefix);
        assert(next.last() == v@[i as int]);
        assert(is_digit(v@.subrange(from as int, to as int)[i - from]));
        assert(v@.subrange(from as int, to as int)[i - from] == v@[i as int]);
        let d: u32 = (v[i] as u32) - 48;
        assert(pow10((i + 1 - from) as nat) == 10 * pow10((i - from) as nat));
        assert(pow10((i + 1 - from) as nat) <= 10000) by {
            reveal_with_fuel(pow10, 5);
        }
        r = r * 10 + d;
        i = i + 1;
    }
    proof {
        assert(pow10((to - from) as nat) <= 10000);
    }
    r
}

impl Date {
    /// Whether `year` is a Gregorian leap year.
    #[must_use]
    pub fn is_leap_year(year: i16) -> (r: bool)
        ensures
            r == is_leap(year as int),
    {
        let y: i32 = year as i32;
        let a: i32 = if y >= 0 {
            y % 4
        } else {
            (-y) % 4
        };
        let b: i32 = if y >= 0 {
            y % 100
        } else {
            (-y) % 100
        };
        let c: i32 = if y >= 0 {
            y % 400
        } else {
            (-y) % 400
        };
        proof {
            let yy = y as int;
            assert((yy % 4 == 0) == (a == 0)) by (nonlinear_arith)
                requires
                    yy >= 0 ==> a == yy % 4,
                    yy < 0 ==> a == (-yy) % 4,
            ;
            assert((yy % 100 == 0) == (b == 0)) by (nonlinear_arith)
                requires
                    yy >= 0 ==> b == yy % 100,
                    yy < 0 ==> b == (-yy) % 100,
            ;
            assert((yy % 400 == 0) == (c == 0)) by (nonlinear_arith)
                requires
                    yy >= 0 ==> c == yy % 400,
                    yy < 0 ==> c == (-yy) % 400,
            ;
        }
        (a == 0 && b != 0) || c == 0
    }

    /// Number of days of `month` in `year`; a month outside 1 to 12 is refused.
    pub fn days_in_month(year: i16, month: u8) -> (r: EcbResult<u8>)
        ensures
            1 <= month <= 12 ==> (r matches Ok(n) && n == month_days(year as int, month as int)),
            !(1 <= month <= 12) ==> fails_with(
                r,
                EcbErrorKind::Invalid,
                month_range_reason(month as int),
            ),
    {
        if month < 1 || month > 12 {
            let mut m = String::new();
            m.append("月份 ");
            push_decimal(&mut m, month as u64);
            m.append(" 超出 1–12");
            return Err(EcbError::Invalid(m));
        }
        if month == 2 {
            if Date::is_leap_year(year) {
                Ok(29)
            } else {
                Ok(28)
            }
        } else if month == 4 || month == 6 || month == 9 || month == 11 {
            Ok(30)
        } else {
            Ok(31)
        }
    }

    /// Builds a date; refuses a year outside 1 to 9999, a month outside 1 to
    /// 12 and a day that the month does not have.
    pub fn new(year: i16, month: u8, day: u8) -> (r: EcbResult<Date>)
        ensures
            r is Ok <==> is_valid_ymd(year as int, month as int, day as int),
            r matches Ok(d) ==> d@ == (year as int, month as int, day as int),
            r is Err ==> fails_with(
                r,
                EcbErrorKind::Invalid,
                ymd_fault(year as int, month as int, day as int),
            ),
    {
        if year < 1 || year > 9999 {
            let mut m = String::new();
            m.append("年份 ");
            push_padded(&mut m, year as i64, 0);
            m.append(" 超出 1–9999");
            return Err(EcbError::Invalid(m));
        }
        let days = Date::days_in_month(year, month)?;
        if day < 1 || day > days {
            let mut m = String::new();
            push_padded(&mut m, year as i64, 4);
            push_char(&mut m, '-');
            push_padded(&mut m, month as i64, 2);
            m.append(" 没有第 ");
            push_decimal(&mut m, day as u64);
            m.append(" 日");
            assert(m@ =~= ymd_fault(year as int, month as int, day as int));
            return Err(EcbError::Invalid(m));
        }
        Ok(Date { year, month, day })
    }

    /// Strictly parses `YYYY-MM-DD`: exactly the texts of valid dates are accepted.
    pub fn parse(input: &str) -> (r: EcbResult<Date>)
        ensures
            r matches Ok(d) ==> d.is_valid() && d.iso() == input@,
            r matches Err(e) ==> e.spec_kind() == EcbErrorKind::Invalid && forall|d: Date|
                #[trigger] d.is_valid() ==> d.iso() != input@,
            r is Err ==> fails_with(r, EcbErrorKind::Invalid, date_text_fault(input@)),
            forall|d: Date| #[trigger] d.is_valid() && d.iso() == input@ ==> r == Ok::<Date, EcbError>(d),
    {
        let v = chars_of(input);
        let shaped = v.len() == 10 && all_digits_at(&v, 0, 4) && v[4] == '-' && all_digits_at(
            &v,
            5,
            7,
        ) && v[7] == '-' && all_digits_at(&v, 8, 10);
        if !shaped {
            proof {
                assert forall|d: Date| #[trigger] d.is_valid() implies d.iso() != input@ by {
                    lemma_iso_text_fields(d@.0, d@.1, d@.2);
                }
            }
            return Err(
                EcbError::Invalid(crate::text::text_of("日期形态非法：须为 YYYY-MM-DD")),
            );
        }
        let y = digits_at(&v, 0, 4);
        let m = digits_at(&v, 5, 7);
        let d = digits_at(&v, 8, 10);
        proof {
            assert(iso_shape(input@));
            lemma_iso_shape_text(input@);
            lemma_digits_value_bounds(input@.subrange(5, 7));
            lemma_digits_value_bounds(input@.subrange(8, 10));
            assert(pow10(2) == 100) by {
                reveal_with_fuel(pow10, 3);
            }
        }
        match Date::new(y as i16, m as u8, d as u8) {
            Ok(date) => {
                proof {
                    broadcast use lemma_date_view;

                    assert forall|x: Date| #[trigger] x.is_valid() && x.iso() == input@ implies date
                        == x by {
                        lemma_iso_injective(date, x);
                    }
                }
                Ok(date)
            },
            Err(e) => {
                proof {
                    assert forall|x: Date| #[trigger] x.is_valid() implies x.iso() != input@ by {
                        lemma_iso_text_fields(x@.0, x@.1, x@.2);
                    }
                }
                Err(e)
            },
        }
    }

    /// The `YYYY-MM-DD` text of this date.
    pub fn to_iso(&self) -> (r: String)
        ensures
            r@ == self.iso(),
    {
        let mut r = String::new();
        push_padded(&mut r, self.year as i64, 4);
        push_char(&mut r, '-');
        push_padded(&mut r, self.month as i64, 2);
        push_char(&mut r, '-');
        push_padded(&mut r, self.day as i64, 2);
        assert(r@ =~= self.iso());
        r
    }

    /// The year.
    pub fn year(&self) -> (r: i16)
        ensures
            r as int == self@.0,
    {
        self.year
    }

    /// The month (1 to 12).
    pub fn month(&self) -> (r: u8)
        ensures
            r as int == self@.1,
    {
        self.month
    }

    /// The day of the month.
    pub fn day(&self) -> (r: u8)
        ensures
            r as int == self@.2,
    {
        self.day
    }
}

} // verus!
