use ecbx::{
    reject_curve_promotion, validate_observation, Date, EcbDataType, EcbDataflowId, EcbDimension,
    EcbErrorKind, EcbMissingReason, EcbObservation, EcbSeriesIdentity, EcbValue, Frequency, Period,
    Unit,
};

fn unit() -> Unit {
    Unit::try_new("SYNTH_UNIT").expect("合法单位")
}

fn day() -> Date {
    Date::new(2026, 9, 18).expect("合法日期")
}

fn series() -> EcbSeriesIdentity {
    let dataflow = EcbDataflowId::try_new(
        "YC",
        "DSD_SYNTH",
        vec![EcbDimension::try_new("DIM_A", "VAL_A").expect("合法维度")],
    )
    .expect("合法身份");
    EcbSeriesIdentity::try_new(dataflow, "IND_SYNTH", "SUBJ_SYNTH").expect("合法序列身份")
}

fn two_dim_series() -> EcbSeriesIdentity {
    let dataflow = EcbDataflowId::try_new(
        "YC",
        "DSD_SYNTH",
        vec![
            EcbDimension::try_new("DIM_A", "VAL_A").expect("合法维度"),
            EcbDimension::try_new("DIM_B", "VAL_B").expect("合法维度"),
        ],
    )
    .expect("合法身份");
    EcbSeriesIdentity::try_new(dataflow, "IND_SYNTH", "SUBJ_SYNTH").expect("合法序列身份")
}

fn value(number: f64) -> EcbValue {
    EcbValue::Value(number.to_bits())
}

fn observation(data_type: EcbDataType, value: EcbValue) -> EcbObservation {
    EcbObservation::new(
        series(),
        data_type,
        Frequency::Daily,
        Period::day(day()),
        value,
        unit(),
        None,
    )
    .expect("合法观测")
}

fn two_dim_observation(value: EcbValue) -> EcbObservation {
    EcbObservation::new(
        two_dim_series(),
        EcbDataType::PolicyRate,
        Frequency::Daily,
        Period::day(day()),
        value,
        unit(),
        None,
    )
    .expect("合法观测")
}

#[test]
fn non_finite_constructor_is_rejected() {
    let period = Period::day(day());
    for number in [f64::NAN, f64::INFINITY, f64::NEG_INFINITY] {
        assert_eq!(
            EcbObservation::new(
                series(),
                EcbDataType::PolicyRate,
                Frequency::Daily,
                period,
                value(number),
                unit(),
                None
            )
            .expect_err("非有限值必须拒绝")
            .kind(),
            EcbErrorKind::Invalid
        );
    }
}

#[test]
fn non_finite_mutation_is_rejected() {
    let period = Period::day(day());
    let mut sample = EcbObservation::new(
        series(),
        EcbDataType::PolicyRate,
        Frequency::Daily,
        period,
        value(1.0),
        unit(),
        None,
    )
    .expect("有限值合法");
    for number in [f64::NAN, f64::INFINITY, f64::NEG_INFINITY] {
        sample.value = value(number);
        assert_eq!(
            validate_observation(&sample)
                .expect_err("修改后的非有限值必须拒绝")
                .kind(),
            EcbErrorKind::Invalid
        );
    }
}

#[test]
fn unit_preserves_source_text_without_conversion() {
    let unit = Unit::try_new(" 100 million yen ").expect("合法单位");
    assert_eq!(unit.text(), "100 million yen");
    assert_eq!(unit.text().to_string(), "100 million yen");
    assert!(Unit::try_new("   ").is_err());
}

#[test]
fn missing_value_is_named_and_never_zero() {
    let observation = observation(
        EcbDataType::PolicyRate,
        EcbValue::Missing(EcbMissingReason::SourceStatus("SYNTH_STATUS".to_owned())),
    );
    assert!(observation.value.is_missing());
    assert_eq!(observation.value.value(), None, "缺失不得静默转 0");
    assert_eq!(
        observation.value.missing_reason(),
        Some(&EcbMissingReason::SourceStatus("SYNTH_STATUS".to_owned()))
    );
    assert_eq!(
        EcbMissingReason::Unspecified.describe(),
        "源侧未给出状态标记"
    );
    assert!(validate_observation(&observation).is_ok());
}

#[test]
fn empty_source_status_is_semantically_rejected() {
    let constructed = EcbObservation::new(
        series(),
        EcbDataType::PolicyRate,
        Frequency::Daily,
        Period::day(day()),
        EcbValue::Missing(EcbMissingReason::SourceStatus("  ".to_owned())),
        unit(),
        None,
    );
    let error = constructed.expect_err("空状态原文必须拒绝");
    assert_eq!(error.kind(), EcbErrorKind::SemanticallyRejected);

    let hand_built = EcbObservation {
        series: series(),
        data_type: EcbDataType::PolicyRate,
        frequency: Frequency::Daily,
        period: Period::day(day()),
        value: EcbValue::Missing(EcbMissingReason::SourceStatus(String::new())),
        unit: unit(),
        vintage: None,
    };
    assert_eq!(
        validate_observation(&hand_built)
            .expect_err("空状态原文必须拒绝")
            .kind(),
        EcbErrorKind::SemanticallyRejected
    );
}

#[test]
fn source_series_id_composes_period_and_vintage() {
    let plain = observation(EcbDataType::PolicyRate, value(3.25));
    assert_eq!(
        plain.source_series_id(),
        "YC:DSD_SYNTH:DIM_A=VAL_A:IND_SYNTH:SUBJ_SYNTH:2026-09-18:none"
    );

    let vintaged = EcbObservation::new(
        series(),
        EcbDataType::PolicyRate,
        Frequency::Daily,
        Period::day(day()),
        value(3.25),
        unit(),
        Some(Date::new(2026, 9, 20).expect("合法日期")),
    )
    .expect("合法观测");
    assert!(
        vintaged.source_series_id().ends_with(":2026-09-20"),
        "{}",
        vintaged.source_series_id()
    );
    assert_ne!(plain.source_series_id(), vintaged.source_series_id());
}

#[test]
fn vintage_is_absent_unless_the_source_provides_it() {
    let observation = observation(EcbDataType::MoneyStock, value(1.0));
    assert_eq!(observation.vintage, None, "无官方 vintage 面时必须为 None");
}

#[test]
fn curve_observations_are_held_but_never_promoted() {
    for data_type in [EcbDataType::ZeroSpot, EcbDataType::Forward] {
        let observation = observation(data_type, value(3.0));
        assert!(validate_observation(&observation).is_ok());
        let error = reject_curve_promotion(&observation).expect_err("曲线点不得晋级");
        assert_eq!(error.kind(), EcbErrorKind::RoutedElsewhere);
    }
    let non_curve = observation(EcbDataType::PolicyRate, value(3.0));
    assert!(reject_curve_promotion(&non_curve).is_ok());
}

#[test]
fn observation_with_invalid_series_is_rejected_at_construction() {
    let dataflow = EcbDataflowId::try_new(
        "YC",
        "DSD_SYNTH",
        vec![EcbDimension::try_new("DIM_A", "VAL_A").expect("合法维度")],
    )
    .expect("合法身份");
    let broken = EcbDataflowId {
        dataflow: dataflow.dataflow.clone(),
        dsd: dataflow.dsd.clone(),
        dimensions: dataflow.dimensions.clone(),
    };
    let identity = EcbSeriesIdentity {
        dataflow: broken,
        indicator: String::new(),
        subject: "SUBJ_SYNTH".to_owned(),
    };
    let result = EcbObservation::new(
        identity,
        EcbDataType::PolicyRate,
        Frequency::Daily,
        Period::day(day()),
        value(1.0),
        unit(),
        None,
    );
    assert!(result.is_err());
}

#[test]
fn invalid_public_periods_are_rejected() {
    for period in [
        Period::Month {
            year: 2026,
            month: 99,
        },
        Period::Quarter {
            year: 2026,
            quarter: 0,
        },
        Period::Year(0),
    ] {
        assert!(EcbObservation::new(
            series(),
            EcbDataType::PolicyRate,
            Frequency::Monthly,
            period,
            value(1.0),
            unit(),
            None
        )
        .is_err());
    }
}

#[test]
fn unit_keeps_source_text() {
    let unit = Unit::try_new(" 100 million yen ").expect("合法单位");
    assert_eq!(unit.text(), "100 million yen");
    assert_eq!(unit.text().to_string(), "100 million yen");
    assert!(Unit::try_new("").is_err());
    assert!(Unit::try_new("   ").is_err());
}

#[test]
fn missing_reason_describe_is_never_empty() {
    assert_eq!(
        EcbMissingReason::SourceStatus("SYNTH_STATUS".to_owned()).describe(),
        "SYNTH_STATUS"
    );
    assert!(!EcbMissingReason::Unspecified.describe().is_empty());
}

#[test]
fn missing_value_is_never_zero() {
    let present = two_dim_observation(value(3.25));
    assert_eq!(present.value.value(), Some(3.25f64.to_bits()));
    assert!(!present.value.is_missing());
    assert_eq!(present.value.missing_reason(), None);

    let absent = two_dim_observation(EcbValue::Missing(EcbMissingReason::Unspecified));
    assert_eq!(absent.value.value(), None, "缺失不得转 0");
    assert!(absent.value.is_missing());
    assert!(absent.value.missing_reason().is_some());
}

#[test]
fn observation_new_validates() {
    let built = EcbObservation::new(
        two_dim_series(),
        EcbDataType::PolicyRate,
        Frequency::Daily,
        Period::day(day()),
        value(1.0),
        unit(),
        None,
    );
    assert!(built.is_ok());

    let broken = EcbObservation::new(
        two_dim_series(),
        EcbDataType::PolicyRate,
        Frequency::Daily,
        Period::day(day()),
        EcbValue::Missing(EcbMissingReason::SourceStatus("  ".to_owned())),
        unit(),
        None,
    );
    assert!(broken.is_err(), "构造期必须校验");
}

#[test]
fn source_series_id_contains_period_and_vintage() {
    let plain = two_dim_observation(value(1.0));
    assert_eq!(
        plain.source_series_id(),
        "YC:DSD_SYNTH:DIM_A=VAL_A.DIM_B=VAL_B:IND_SYNTH:SUBJ_SYNTH:2026-09-18:none"
    );

    let vintaged = EcbObservation::new(
        two_dim_series(),
        EcbDataType::PolicyRate,
        Frequency::Daily,
        Period::day(day()),
        value(1.0),
        unit(),
        Some(Date::new(2026, 9, 20).expect("合法日期")),
    )
    .expect("合法观测");
    assert!(vintaged.source_series_id().ends_with(":2026-09-20"));
    assert_ne!(plain.source_series_id(), vintaged.source_series_id());
}

#[test]
fn empty_source_status_is_rejected() {
    assert!(validate_observation(&two_dim_observation(value(1.0))).is_ok());
    let broken = EcbObservation::new(
        two_dim_series(),
        EcbDataType::PolicyRate,
        Frequency::Daily,
        Period::day(day()),
        EcbValue::Missing(EcbMissingReason::SourceStatus(String::new())),
        unit(),
        None,
    )
    .expect_err("空状态原文必须拒绝");
    assert_eq!(broken.kind(), EcbErrorKind::SemanticallyRejected);
}

#[test]
fn curve_observation_is_not_promotable() {
    let curve = EcbObservation::new(
        two_dim_series(),
        EcbDataType::ZeroSpot,
        Frequency::Daily,
        Period::day(day()),
        value(3.0),
        unit(),
        None,
    )
    .expect("曲线点可以被持有");
    assert!(validate_observation(&curve).is_ok());
    assert_eq!(
        reject_curve_promotion(&curve)
            .expect_err("曲线点不得晋级")
            .kind(),
        EcbErrorKind::RoutedElsewhere
    );
    assert!(reject_curve_promotion(&two_dim_observation(value(1.0))).is_ok());
}

#[test]
fn assert_curve_routing_standard() {
    assert!(EcbDataType::ZeroSpot.is_curve_product());
    assert!(EcbDataType::Forward.is_curve_product());
    assert!(!EcbDataType::MoneyStock.is_curve_product());
    assert_eq!(
        ecbx::ensure_not_curve_product(&EcbDataType::ZeroSpot)
            .expect_err("曲线点必须路由")
            .kind(),
        EcbErrorKind::RoutedElsewhere
    );

    let curve = EcbObservation::new(
        two_dim_series(),
        EcbDataType::Forward,
        Frequency::Daily,
        Period::day(Date::new(2026, 9, 18).expect("合法日期")),
        value(3.0),
        Unit::try_new("SYNTH_UNIT").expect("合法单位"),
        None,
    )
    .expect("曲线点可以被持有");
    assert!(validate_observation(&curve).is_ok());
    assert!(reject_curve_promotion(&curve).is_err());
}

#[test]
fn aidd_non_ascii_subject_and_unit_are_preserved() {
    let unit = Unit::try_new("  億円 (100 million yen)  ").expect("合法单位");
    assert_eq!(unit.text(), "億円 (100 million yen)");

    let dataflow = EcbDataflowId::try_new(
        "YC",
        "DSD_SYNTH",
        vec![EcbDimension::try_new("DIM_A", "VAL_A").expect("合法维度")],
    )
    .expect("合法身份");
    let identity = EcbSeriesIdentity::try_new(dataflow, "指標", "主体").expect("非 ASCII 合法");
    let observation = EcbObservation::new(
        identity,
        EcbDataType::PolicyRate,
        Frequency::Daily,
        Period::day(day()),
        value(1.0),
        unit,
        None,
    )
    .expect("合法观测");
    assert!(observation.source_series_id().contains("指標"));
    assert_eq!(observation.unit.text(), "億円 (100 million yen)");
}

#[test]
fn aidd_extreme_f64_values_are_preserved() {
    for number in [f64::MAX, f64::MIN, 0.0, -0.0] {
        let observation = EcbObservation::new(
            series(),
            EcbDataType::PolicyRate,
            Frequency::Daily,
            Period::day(day()),
            value(number),
            unit(),
            None,
        )
        .expect("合法观测");
        assert_eq!(observation.value.value(), Some(number.to_bits()));
    }
}

#[test]
fn finite_bit_patterns_are_exactly_the_finite_numbers() {
    for number in [
        f64::MAX,
        f64::MIN,
        f64::MIN_POSITIVE,
        5e-324,
        0.0,
        -0.0,
        1.0,
    ] {
        let sample = observation(EcbDataType::PolicyRate, value(number));
        assert!(validate_observation(&sample).is_ok(), "{number}");
    }
    let quiet_nan_with_payload = EcbObservation::new(
        series(),
        EcbDataType::PolicyRate,
        Frequency::Daily,
        Period::day(day()),
        EcbValue::Value(0x7ff8_0000_0000_0001),
        unit(),
        None,
    );
    assert_eq!(
        quiet_nan_with_payload.expect_err("NaN 必须拒绝").kind(),
        EcbErrorKind::Invalid
    );
}

#[test]
fn observation_checks_follow_the_documented_order() {
    // An invalid period is reported before a non-finite value.
    let error = EcbObservation::new(
        series(),
        EcbDataType::PolicyRate,
        Frequency::Monthly,
        Period::Month {
            year: 2026,
            month: 13,
        },
        value(f64::NAN),
        unit(),
        None,
    )
    .expect_err("期间非法");
    assert_eq!(error.kind(), EcbErrorKind::Invalid);

    // A non-finite value is reported before a broken series identity.
    let broken = EcbSeriesIdentity {
        dataflow: EcbDataflowId::try_new(
            "YC",
            "DSD_SYNTH",
            vec![EcbDimension::try_new("DIM_A", "VAL_A").expect("合法维度")],
        )
        .expect("合法身份"),
        indicator: String::new(),
        subject: "SUBJ_SYNTH".to_owned(),
    };
    let error = EcbObservation::new(
        broken.clone(),
        EcbDataType::PolicyRate,
        Frequency::Daily,
        Period::day(day()),
        value(f64::INFINITY),
        unit(),
        None,
    )
    .expect_err("非有限值");
    assert_eq!(error.kind(), EcbErrorKind::Invalid);
    assert_eq!(error.reason_text(), "观测值必须是有限数值");

    // The series identity is reported before a blank source status.
    let error = EcbObservation::new(
        broken,
        EcbDataType::PolicyRate,
        Frequency::Daily,
        Period::day(day()),
        EcbValue::Missing(EcbMissingReason::SourceStatus(" ".to_owned())),
        unit(),
        None,
    )
    .expect_err("序列身份非法");
    assert_eq!(error.kind(), EcbErrorKind::Missing);
    assert_eq!(error.reason_text(), "indicator 为空");
}

#[test]
fn curve_promotion_refusal_names_the_code() {
    let error = reject_curve_promotion(&observation(EcbDataType::Forward, value(1.0)))
        .expect_err("曲线点不得晋级");
    assert_eq!(
        error.reason_text(),
        "FORWARD 是曲线点：须经 yieldx 映射批准后方可进内核，本库不晋级"
    );
}

#[test]
fn values_compare_as_f64_numbers() {
    assert_eq!(value(0.0), value(-0.0));
    assert_ne!(value(f64::NAN), value(f64::NAN));
    assert_eq!(value(3.25), value(3.25));
    assert_ne!(value(3.25), value(3.5));
    assert_ne!(value(0.0), EcbValue::Missing(EcbMissingReason::Unspecified));
    assert_eq!(
        EcbValue::Missing(EcbMissingReason::SourceStatus("S".to_owned())),
        EcbValue::Missing(EcbMissingReason::SourceStatus("S".to_owned()))
    );
    assert_ne!(
        EcbValue::Missing(EcbMissingReason::SourceStatus("S".to_owned())),
        EcbValue::Missing(EcbMissingReason::Unspecified)
    );
    let zero = observation(EcbDataType::PolicyRate, value(0.0));
    let negative_zero = observation(EcbDataType::PolicyRate, value(-0.0));
    assert_eq!(zero, negative_zero);
}
