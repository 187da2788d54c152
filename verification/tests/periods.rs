use ecbx::{Date, EcbErrorKind, Frequency, Period};

fn date(year: i16, month: u8, day: u8) -> Date {
    Date::new(year, month, day).expect("合法日期")
}

fn day() -> Date {
    Date::new(2026, 9, 18).expect("合法日期")
}

#[test]
fn period_frequency_names_round_trip() {
    for frequency in Frequency::ALL {
        assert_eq!(
            Frequency::from_name(frequency.name()).expect("可回读"),
            frequency
        );
    }
    assert!(Frequency::from_name("Fortnightly").is_err());
}

#[test]
fn period_keys_round_trip() {
    let cases = [
        Period::day(date(2026, 9, 18)),
        Period::month(2026, 9).expect("合法月期间"),
        Period::quarter(2026, 3).expect("合法季期间"),
        Period::year(2026).expect("合法年期间"),
        Period::event(date(2026, 9, 18)),
    ];
    for period in cases {
        let key = period.key();
        assert_eq!(Period::parse(&key).expect("可回读"), period, "key={key}");
    }
}

#[test]
fn period_keys_have_fixed_shapes() {
    assert_eq!(Period::day(date(2026, 9, 18)).key(), "2026-09-18");
    assert_eq!(Period::month(2026, 9).expect("合法").key(), "2026-09");
    assert_eq!(Period::quarter(2026, 3).expect("合法").key(), "2026-Q3");
    assert_eq!(Period::year(2026).expect("合法").key(), "2026");
    assert_eq!(Period::event(date(2026, 9, 18)).key(), "event:2026-09-18");
}

#[test]
fn period_frequency_never_conflates_granularity() {
    assert_eq!(Period::day(date(2026, 9, 18)).frequency(), Frequency::Daily);
    assert_eq!(
        Period::month(2026, 9).expect("合法").frequency(),
        Frequency::Monthly
    );
    assert_eq!(
        Period::quarter(2026, 3).expect("合法").frequency(),
        Frequency::Quarterly
    );
    assert_eq!(
        Period::year(2026).expect("合法").frequency(),
        Frequency::Annual
    );
    assert_eq!(
        Period::event(date(2026, 9, 18)).frequency(),
        Frequency::Event
    );
}

#[test]
fn period_parse_rejects_malformed_input() {
    let cases = [
        "2026-2-3",
        "2026/09/18",
        "2026-13",
        "2026-Q5",
        "2026-Q0",
        "26",
        "2026-09-18T00:00:00Z",
        "",
    ];
    for input in cases {
        let error = Period::parse(input).expect_err(input);
        assert_eq!(error.kind(), EcbErrorKind::Invalid, "{input}");
    }
}

#[test]
fn period_period_constructors_validate_ranges() {
    assert!(Period::month(2026, 0).is_err());
    assert!(Period::month(2026, 13).is_err());
    assert!(Period::quarter(2026, 0).is_err());
    assert!(Period::quarter(2026, 5).is_err());
    assert!(Period::year(0).is_err());
    assert!(Period::year(10000).is_err());
}

#[test]
fn validation_covers_valid_period_variants() {
    for key in [
        "2024-02-29",
        "2026-09",
        "2026-Q3",
        "2026",
        "event:2026-09-23",
    ] {
        assert!(Period::parse(key).unwrap().validate().is_ok());
    }
    for period in [
        Period::Month { year: 0, month: 1 },
        Period::Month {
            year: 2026,
            month: 0,
        },
        Period::Quarter {
            year: 0,
            quarter: 1,
        },
        Period::Quarter {
            year: 2026,
            quarter: 5,
        },
        Period::Year(10000),
    ] {
        assert!(period.validate().is_err());
    }
}

#[test]
fn date_rejects_impossible_days() {
    assert!(Date::new(2026, 2, 29).is_err());
    assert!(Date::new(2026, 4, 31).is_err());
    assert!(Date::new(2026, 0, 1).is_err());
    assert!(Date::new(2026, 13, 1).is_err());
    assert!(Date::new(2026, 1, 0).is_err());
    assert!(Date::new(2024, 2, 29).is_ok());
}

#[test]
fn strict_iso_only() {
    for input in [
        "2026-2-3",
        "2026/02/03",
        "2026-09-18T00:00:00Z",
        "2026-09-18 00:00:00",
        "26-09-18",
        "",
    ] {
        assert!(Date::parse(input).is_err(), "{input}");
    }
    assert!(Date::parse("2026-09-18").is_ok());
}

#[test]
fn date_round_trips_through_iso() {
    let date = Date::parse("2026-09-08").expect("合法日期");
    assert_eq!((date.year(), date.month(), date.day()), (2026, 9, 8));
    assert_eq!(date.to_iso(), "2026-09-08", "月日必须补零");
    assert_eq!(Date::parse(&date.to_iso()).expect("可回读"), date);
}

#[test]
fn leap_year_century_rules() {
    assert!(Date::is_leap_year(2024));
    assert!(!Date::is_leap_year(1900));
    assert!(Date::is_leap_year(2000));
    assert_eq!(Date::days_in_month(2024, 2).expect("2 月"), 29);
    assert_eq!(Date::days_in_month(2026, 2).expect("2 月"), 28);
    assert_eq!(Date::days_in_month(2026, 4).expect("4 月"), 30);
    assert_eq!(Date::days_in_month(2026, 12).expect("12 月"), 31);
    assert!(Date::days_in_month(2026, 13).is_err());
}

#[test]
fn tdd_contracts_period_constructors_validate_ranges() {
    assert!(Period::month(2026, 0).is_err());
    assert!(Period::month(2026, 13).is_err());
    assert!(Period::quarter(2026, 0).is_err());
    assert!(Period::quarter(2026, 5).is_err());
    assert!(Period::year(0).is_err());
    assert!(Period::month(2026, 9).is_ok());
    assert!(Period::quarter(2026, 3).is_ok());
    assert!(Period::year(2026).is_ok());
}

#[test]
fn period_parse_rejects_malformed() {
    for input in [
        "2026-2-3",
        "2026/09/18",
        "2026-13",
        "2026-Q5",
        "2026-Q0",
        "26",
        "",
    ] {
        assert!(Period::parse(input).is_err(), "{input}");
    }
    for input in [
        "2026-09-18",
        "2026-09",
        "2026-Q3",
        "2026",
        "event:2026-09-18",
    ] {
        assert!(Period::parse(input).is_ok(), "{input}");
    }
}

#[test]
fn period_key_shapes_are_fixed() {
    assert_eq!(Period::day(day()).key(), "2026-09-18");
    assert_eq!(Period::month(2026, 9).expect("合法").key(), "2026-09");
    assert_eq!(Period::quarter(2026, 3).expect("合法").key(), "2026-Q3");
    assert_eq!(Period::year(2026).expect("合法").key(), "2026");
    assert_eq!(Period::event(day()).key(), "event:2026-09-18");
    for period in [
        Period::day(day()),
        Period::month(2026, 9).expect("合法"),
        Period::quarter(2026, 3).expect("合法"),
        Period::year(2026).expect("合法"),
        Period::event(day()),
    ] {
        assert_eq!(Period::parse(&period.key()).expect("可回读"), period);
    }
}

#[test]
fn period_frequency_mapping() {
    assert_eq!(Period::day(day()).frequency(), Frequency::Daily);
    assert_eq!(
        Period::month(2026, 9).expect("合法").frequency(),
        Frequency::Monthly
    );
    assert_eq!(
        Period::quarter(2026, 3).expect("合法").frequency(),
        Frequency::Quarterly
    );
    assert_eq!(
        Period::year(2026).expect("合法").frequency(),
        Frequency::Annual
    );
    assert_eq!(Period::event(day()).frequency(), Frequency::Event);
}

#[test]
fn tdd_contracts_frequency_names_round_trip() {
    let names: Vec<&str> = Frequency::ALL.iter().map(Frequency::name).collect();
    assert_eq!(
        names,
        [
            "Daily",
            "Weekly",
            "Monthly",
            "Quarterly",
            "Annual",
            "Event",
            "Irregular"
        ]
    );
    for frequency in Frequency::ALL {
        assert_eq!(
            Frequency::from_name(frequency.name()).expect("可回读"),
            frequency
        );
    }
    assert!(Frequency::from_name("daily").is_err());
}

#[test]
fn aidd_century_leap_year_boundary() {
    assert!(Date::new(1900, 2, 29).is_err());
    assert!(Date::new(2000, 2, 29).is_ok());
    assert!(Date::new(2100, 2, 29).is_err());
    assert!(Date::new(2024, 2, 29).is_ok());
}

#[test]
fn aidd_quarter_bounds_are_rejected() {
    assert!(Period::quarter(2026, 0).is_err());
    assert!(Period::quarter(2026, 5).is_err());
    assert!(Period::parse("2026-Q0").is_err());
    assert!(Period::parse("2026-Q5").is_err());
    assert!(Period::parse("2026-Q4").is_ok());
}

// Keys of distinct valid periods differ, and every key reads back to its period.
#[test]
fn every_key_reads_back_to_its_period() {
    let mut periods = Vec::new();
    for year in [1, 9, 10, 99, 100, 999, 1000, 2024, 9999] {
        periods.push(Period::year(year).expect("合法年"));
        for month in 1..=12 {
            periods.push(Period::month(year, month).expect("合法月"));
            let last = Date::days_in_month(year, month).expect("合法月份");
            for d in [1, last] {
                let date = Date::new(year, month, d).expect("合法日");
                periods.push(Period::day(date));
                periods.push(Period::event(date));
            }
        }
        for quarter in 1..=4 {
            periods.push(Period::quarter(year, quarter).expect("合法季"));
        }
    }
    let keys: Vec<String> = periods.iter().map(Period::key).collect();
    for (i, period) in periods.iter().enumerate() {
        assert_eq!(Period::parse(&keys[i]).expect("可回读"), *period);
        for (j, other) in keys.iter().enumerate() {
            assert_eq!(i == j, keys[i] == *other, "{}", keys[i]);
        }
    }
}

#[test]
fn leading_zeros_and_boundaries_of_keys() {
    assert_eq!(Period::year(1).expect("合法").key(), "0001");
    assert_eq!(Period::parse("0001").expect("合法"), Period::Year(1));
    assert!(Period::parse("0000").is_err());
    assert_eq!(Period::month(7, 1).expect("合法").key(), "0007-01");
    assert_eq!(
        Period::parse("event:0100-02-28").expect("合法"),
        Period::event(date(100, 2, 28))
    );
    assert!(Period::parse("event:").is_err());
    assert!(Period::parse("event:2026-02-30").is_err());
    assert!(Period::parse("2026-1x").is_err());
    assert!(Period::parse("2026-Qx").is_err());
    assert!(Period::parse("20é6").is_err());
    assert_eq!(Date::new(10, 1, 5).expect("合法").to_iso(), "0010-01-05");
}

#[test]
fn hand_built_out_of_range_periods_render_like_std_formatting() {
    assert_eq!(Period::Year(-5).key(), "-005");
    assert_eq!(Period::Month { year: 2026, month: 99 }.key(), "2026-99");
    assert_eq!(
        Period::Quarter {
            year: 2026,
            quarter: 200
        }
        .key(),
        "2026-Q200"
    );
    assert_eq!(Period::Year(-1234).key(), "-1234");
}

#[test]
fn every_error_of_dates_and_periods_is_invalid() {
    for error in [
        Date::new(0, 1, 1).expect_err("年份"),
        Date::new(2026, 13, 1).expect_err("月份"),
        Date::new(2026, 2, 29).expect_err("日"),
        Date::parse("2026-09-1").expect_err("形态"),
        Date::days_in_month(2026, 0).expect_err("月份"),
        Period::month(2026, 13).expect_err("月"),
        Period::quarter(2026, 0).expect_err("季"),
        Period::year(10000).expect_err("年"),
        Period::parse("2026-Q9").expect_err("季"),
        Frequency::from_name("Hourly").expect_err("频率"),
    ] {
        assert_eq!(error.kind(), EcbErrorKind::Invalid, "{error:?}");
    }
    assert_eq!(
        Frequency::from_name("Hourly")
            .expect_err("频率")
            .reason_text(),
        "未知频率：Hourly"
    );
    assert_eq!(
        Period::month(2026, 13).expect_err("月").reason_text(),
        "月期间非法：月份 13 超出 1–12"
    );
    assert_eq!(
        Period::quarter(2026, 5).expect_err("季").reason_text(),
        "季度 5 超出 1–4"
    );
}

#[test]
fn refusal_reasons_of_dates_and_periods() {
    let reason = |error: ecbx::EcbError| error.reason_text().to_owned();
    assert_eq!(
        reason(Date::new(0, 1, 1).expect_err("年份")),
        "年份 0 超出 1–9999"
    );
    assert_eq!(
        reason(Date::new(-7, 1, 1).expect_err("年份")),
        "年份 -7 超出 1–9999"
    );
    assert_eq!(
        reason(Date::new(2026, 13, 1).expect_err("月份")),
        "月份 13 超出 1–12"
    );
    assert_eq!(
        reason(Date::new(2026, 2, 29).expect_err("日")),
        "2026-02 没有第 29 日"
    );
    assert_eq!(
        reason(Date::parse("2026-9-18").expect_err("形态")),
        "日期形态非法：须为 YYYY-MM-DD"
    );
    assert_eq!(
        reason(Date::parse("2026-04-31").expect_err("日")),
        "2026-04 没有第 31 日"
    );
    assert_eq!(
        reason(Period::year(10000).expect_err("年")),
        "年份 10000 超出 1–9999"
    );
    assert_eq!(
        reason(Period::quarter(0, 2).expect_err("年")),
        "年份 0 超出 1–9999"
    );
    assert_eq!(
        reason(Period::parse("20x6").expect_err("年")),
        "年份形态非法：20x6"
    );
    assert_eq!(
        reason(Period::parse("0000").expect_err("年")),
        "年份 0 超出 1–9999"
    );
    assert_eq!(
        reason(Period::parse("2026-Qx").expect_err("季")),
        "季度形态非法：x"
    );
    assert_eq!(
        reason(Period::parse("2026-Q5").expect_err("季")),
        "季度 5 超出 1–4"
    );
    assert_eq!(
        reason(Period::parse("2026-1a").expect_err("月")),
        "月份形态非法：1a"
    );
    assert_eq!(
        reason(Period::parse("2026-13").expect_err("月")),
        "月期间非法：月份 13 超出 1–12"
    );
    assert_eq!(
        reason(Period::parse("event:2026-02-30").expect_err("事件")),
        "2026-02 没有第 30 日"
    );
    assert_eq!(
        reason(Period::parse("2026/09/18").expect_err("形态")),
        "日期形态非法：须为 YYYY-MM-DD"
    );
    assert_eq!(
        reason(Period::parse("Q3-2026").expect_err("形态")),
        "期间形态非法：Q3-2026（须为 YYYY-MM-DD / YYYY-MM / YYYY-Qn / YYYY / event:YYYY-MM-DD）"
    );
}

#[test]
fn validate_reports_the_constructors_reason() {
    let month = Period::Month {
        year: 2026,
        month: 0,
    };
    assert_eq!(
        month.validate().expect_err("月").reason_text(),
        "月期间非法：月份 0 超出 1–12"
    );
    let quarter = Period::Quarter {
        year: 2026,
        quarter: 7,
    };
    assert_eq!(
        quarter.validate().expect_err("季").reason_text(),
        "季度 7 超出 1–4"
    );
    assert_eq!(
        Period::Year(0).validate().expect_err("年").reason_text(),
        "年份 0 超出 1–9999"
    );
    assert!(Period::day(day()).validate().is_ok());
}

#[test]
fn period_shapes_are_read_on_utf8_bytes() {
    let reason = |input: &str| Period::parse(input).expect_err("非法").reason_text().to_owned();
    assert_eq!(
        reason("é026"),
        "期间形态非法：é026（须为 YYYY-MM-DD / YYYY-MM / YYYY-Qn / YYYY / event:YYYY-MM-DD）"
    );
    assert_eq!(reason("é02"), "年份形态非法：é02");
    assert_eq!(reason("20é-Q1"), "年份形态非法：20é");
    assert_eq!(reason("2026-é"), "月份形态非法：é");
    assert_eq!(
        reason("2026-Qé"),
        "期间形态非法：2026-Qé（须为 YYYY-MM-DD / YYYY-MM / YYYY-Qn / YYYY / event:YYYY-MM-DD）"
    );
    assert_eq!(reason("2026-09-1é"), "期间形态非法：2026-09-1é（须为 YYYY-MM-DD / YYYY-MM / YYYY-Qn / YYYY / event:YYYY-MM-DD）");
    assert_eq!(reason("2026-09-é"), "日期形态非法：须为 YYYY-MM-DD");
}
