use ecbx::{
    observations_from_wire, reject_curve_promotion, EcbDataType, EcbDimension, EcbErrorKind,
    EcbMissingReason, EcbValue, WireDocument, WireObservation,
};

const NOTE: &str = "本文件为特性 005 自拟的合成样本，不是真实源数据，不构成任何证据。";

fn dims(pairs: &[(&str, &str)]) -> Vec<EcbDimension> {
    pairs
        .iter()
        .map(|(id, value)| EcbDimension::try_new(id, value).expect("合法维度"))
        .collect()
}

fn document(observations: Vec<WireObservation>) -> WireDocument {
    WireDocument {
        synthetic: true,
        note: NOTE.to_owned(),
        observations,
    }
}

/// A valid one-dimension observation with the given type code and period.
fn observation(data_type: &str, period: &str) -> WireObservation {
    WireObservation {
        dataflow: "YC".to_owned(),
        dsd: "DSD_SYNTH".to_owned(),
        dimensions: dims(&[("DIM_A", "VAL_A")]),
        indicator: "IND_SYNTH".to_owned(),
        subject: "SUBJ_SYNTH".to_owned(),
        data_type: data_type.to_owned(),
        freq: "Daily".to_owned(),
        period: period.to_owned(),
        value: Some(1.0f64.to_bits()),
        obs_status: None,
        unit: "SYNTH_UNIT".to_owned(),
        vintage_date: None,
    }
}

fn synthetic_document() -> WireDocument {
    document(vec![
        WireObservation {
            dataflow: "YC".to_owned(),
            dsd: "DSD_SYNTH".to_owned(),
            dimensions: dims(&[("DIM_A", "VAL_A"), ("DIM_B", "VAL_B")]),
            indicator: "IND_SYNTH".to_owned(),
            subject: "SUBJ_SYNTH".to_owned(),
            data_type: "POLICY_RATE".to_owned(),
            freq: "Daily".to_owned(),
            period: "2026-09-18".to_owned(),
            value: Some(3.25f64.to_bits()),
            obs_status: None,
            unit: "SYNTH_UNIT".to_owned(),
            vintage_date: None,
        },
        WireObservation {
            dataflow: "BSI".to_owned(),
            dsd: "DSD_SYNTH".to_owned(),
            dimensions: dims(&[("DIM_A", "VAL_C")]),
            indicator: "IND_SYNTH".to_owned(),
            subject: "SUBJ_SYNTH".to_owned(),
            data_type: "MONEY_STOCK".to_owned(),
            freq: "Monthly".to_owned(),
            period: "2026-09".to_owned(),
            value: None,
            obs_status: Some("SYNTH_STATUS".to_owned()),
            unit: "SYNTH_UNIT".to_owned(),
            vintage_date: None,
        },
    ])
}

#[test]
fn parses_positions_values_and_named_missing() {
    let observations = observations_from_wire(synthetic_document()).expect("合成文档应可解析");
    assert_eq!(observations.len(), 2);
    assert_eq!(observations[0].data_type, EcbDataType::PolicyRate);
    assert_eq!(observations[0].value, EcbValue::Value(3.25f64.to_bits()));
    assert_eq!(observations[0].unit.text(), "SYNTH_UNIT");
    assert_eq!(observations[0].vintage, None);
    assert_eq!(observations[1].value.value(), None, "缺失不得转 0");
    assert_eq!(
        observations[1].value.missing_reason(),
        Some(&EcbMissingReason::SourceStatus("SYNTH_STATUS".to_owned()))
    );
    assert_ne!(
        observations[0].source_series_id(),
        observations[1].source_series_id()
    );
}

#[test]
fn unmarked_input_is_refused() {
    let contradicted = WireDocument {
        synthetic: false,
        note: "x".to_owned(),
        observations: Vec::new(),
    };
    let error = observations_from_wire(contradicted).expect_err("不得把非合成输入当源数据");
    assert_eq!(error.kind(), EcbErrorKind::SemanticallyRejected);

    let blank_note = WireDocument {
        synthetic: true,
        note: "  ".to_owned(),
        observations: Vec::new(),
    };
    assert_eq!(
        observations_from_wire(blank_note)
            .expect_err("空说明必须拒绝")
            .kind(),
        EcbErrorKind::Missing
    );
}

#[test]
fn absent_value_field_degrades_to_named_missing_not_zero() {
    let mut wire = observation("POLICY_RATE", "2026-09-18");
    wire.value = None;
    let observations = observations_from_wire(document(vec![wire])).expect("缺省 value 视为缺失");
    assert_eq!(observations[0].value.value(), None, "缺失不得转 0");
    assert_eq!(
        observations[0].value.missing_reason(),
        Some(&EcbMissingReason::Unspecified)
    );
}

#[test]
fn illegal_date_is_rejected() {
    for period in [
        "2026-2-3",
        "2026/09/18",
        "2026-02-30",
        "2026-09-18T00:00:00Z",
    ] {
        let error = observations_from_wire(document(vec![observation("POLICY_RATE", period)]))
            .expect_err("非法日期必须拒绝");
        assert_eq!(error.kind(), EcbErrorKind::Invalid, "period={period}");
    }
}

#[test]
fn duplicate_identity_is_rejected_not_deduplicated() {
    let doc = document(vec![
        observation("POLICY_RATE", "2026-09-18"),
        observation("POLICY_RATE", "2026-09-18"),
    ]);
    let error = observations_from_wire(doc).expect_err("重复身份必须拒绝");
    assert_eq!(error.kind(), EcbErrorKind::SemanticallyRejected);
}

#[test]
fn unsupported_data_type_code_is_rejected() {
    let error = observations_from_wire(document(vec![observation("YIELD_CURVE", "2026-09-18")]))
        .expect_err("未知类型码必须拒绝");
    assert_eq!(error.kind(), EcbErrorKind::Invalid);
    assert!(error.message().contains("第 0 条观测"), "{error:?}");
}

#[test]
fn curve_observation_is_parsed_but_still_not_promotable() {
    let observations = observations_from_wire(document(vec![observation(
        "ZERO_SPOT",
        "2026-09-18",
    )]))
    .expect("曲线点本身可被解析");
    assert_eq!(observations[0].data_type, EcbDataType::ZeroSpot);
    assert!(reject_curve_promotion(&observations[0]).is_err());
}

#[test]
fn empty_observation_list_is_accepted() {
    let observations = observations_from_wire(document(Vec::new())).expect("空数组是合法文档");
    assert!(observations.is_empty());
}

fn short_observation(vintage: Option<&str>) -> WireObservation {
    WireObservation {
        dataflow: "YC".to_owned(),
        dsd: "DSD_SYNTH".to_owned(),
        dimensions: dims(&[("A", "B")]),
        indicator: "I".to_owned(),
        subject: "S".to_owned(),
        data_type: "POLICY_RATE".to_owned(),
        freq: "Daily".to_owned(),
        period: "2026-09-18".to_owned(),
        value: Some(1.0f64.to_bits()),
        obs_status: None,
        unit: "U".to_owned(),
        vintage_date: vintage.map(str::to_owned),
    }
}

#[test]
fn aidd_same_series_different_vintage_is_not_duplicate() {
    let doc = WireDocument {
        synthetic: true,
        note: "合成样本".to_owned(),
        observations: vec![short_observation(None), short_observation(Some("2026-09-20"))],
    };
    let observations = observations_from_wire(doc).expect("不同 vintage 不算重复");
    assert_eq!(observations.len(), 2);
    assert_ne!(
        observations[0].source_series_id(),
        observations[1].source_series_id()
    );
}

#[test]
fn aidd_non_synthetic_input_is_refused() {
    let doc = WireDocument {
        synthetic: false,
        note: "x".to_owned(),
        observations: Vec::new(),
    };
    assert_eq!(
        observations_from_wire(doc)
            .expect_err("不得把非合成输入当源数据")
            .kind(),
        EcbErrorKind::SemanticallyRejected
    );
}

#[test]
fn refusal_reasons_are_stated_verbatim() {
    let error = observations_from_wire(WireDocument {
        synthetic: false,
        note: "x".to_owned(),
        observations: Vec::new(),
    })
    .expect_err("非合成");
    assert_eq!(
        error.reason_text(),
        "离线解析只接受显式标注 `_synthetic = true` 的合成样本：本层不得把未标注输入当作源数据"
    );
    let error = observations_from_wire(WireDocument {
        synthetic: true,
        note: String::new(),
        observations: Vec::new(),
    })
    .expect_err("空说明");
    assert_eq!(
        error.reason_text(),
        "`_note` 为空：合成样本必须说明「不是真实源数据」"
    );
}

#[test]
fn failing_observation_error_carries_its_position() {
    let doc = document(vec![
        observation("POLICY_RATE", "2026-09-18"),
        observation("POLICY_RATE", "2026-09-19"),
        observation("NOPE", "2026-09-20"),
    ]);
    let error = observations_from_wire(doc).expect_err("第三条失败");
    assert_eq!(error.kind(), EcbErrorKind::Invalid);
    assert_eq!(error.reason_text(), "第 2 条观测：未知数据类型码：NOPE");

    let mut blank_unit = observation("POLICY_RATE", "2026-09-18");
    blank_unit.unit = " ".to_owned();
    let error = observations_from_wire(document(vec![blank_unit])).expect_err("单位为空");
    assert_eq!(error.kind(), EcbErrorKind::Missing);
    assert_eq!(error.reason_text(), "第 0 条观测：源侧单位为空");

    let mut bad_freq = observation("POLICY_RATE", "2026-09-18");
    bad_freq.freq = "daily".to_owned();
    let error = observations_from_wire(document(vec![bad_freq])).expect_err("频率未知");
    assert_eq!(error.reason_text(), "第 0 条观测：未知频率：daily");

    let mut bad_vintage = observation("POLICY_RATE", "2026-09-18");
    bad_vintage.vintage_date = Some("2026-9-20".to_owned());
    let error = observations_from_wire(document(vec![bad_vintage])).expect_err("修订日期非法");
    assert_eq!(error.kind(), EcbErrorKind::Invalid);
    assert!(error.reason_text().starts_with("第 0 条观测："));

    let mut not_finite = observation("POLICY_RATE", "2026-09-18");
    not_finite.value = Some(f64::NAN.to_bits());
    let error = observations_from_wire(document(vec![not_finite])).expect_err("非有限值");
    assert_eq!(error.reason_text(), "第 0 条观测：观测值必须是有限数值");
}

#[test]
fn duplicate_reason_names_position_and_identity() {
    let doc = document(vec![
        observation("POLICY_RATE", "2026-09-18"),
        observation("POLICY_RATE", "2026-09-19"),
        observation("MONEY_STOCK", "2026-09-18"),
    ]);
    let error = observations_from_wire(doc).expect_err("重复身份必须拒绝");
    assert_eq!(error.kind(), EcbErrorKind::SemanticallyRejected);
    assert_eq!(
        error.reason_text(),
        "第 2 条观测身份重复：YC:DSD_SYNTH:DIM_A=VAL_A:IND_SYNTH:SUBJ_SYNTH:2026-09-18:none（本库选择拒绝而非去重）"
    );
}

#[test]
fn blank_status_degrades_to_unspecified_and_order_is_kept() {
    let mut first = observation("POLICY_RATE", "2026-09-19");
    first.value = None;
    first.obs_status = Some("   ".to_owned());
    let second = observation("RFR_OVERNIGHT", "2026-09-18");
    let observations = observations_from_wire(document(vec![first, second])).expect("合法文档");
    assert_eq!(
        observations[0].value,
        EcbValue::Missing(EcbMissingReason::Unspecified)
    );
    assert_eq!(observations[0].period.key(), "2026-09-19");
    assert_eq!(observations[1].data_type, EcbDataType::RfrOvernight);
}

#[test]
fn json_document_error_names_position_and_category_only() {
    let error = ecbx::json_document_error(1, 57, ecbx::JsonCategory::Data);
    assert_eq!(error.kind(), EcbErrorKind::Invalid);
    assert_eq!(
        error.reason_text(),
        "JSON 文档不可解析（行 1 列 57，分类 Data）：请检查字段名、类型与取值形态"
    );
    assert!(!error.message().contains("synthetic-secret-value"));
}

#[test]
fn period_and_vintage_refusals_carry_their_reasons() {
    let error = observations_from_wire(document(vec![observation("POLICY_RATE", "2026-13")]))
        .expect_err("月期间非法");
    assert_eq!(
        error.reason_text(),
        "第 0 条观测：月期间非法：月份 13 超出 1–12"
    );
    let mut bad_vintage = observation("POLICY_RATE", "2026-09-18");
    bad_vintage.vintage_date = Some("2026-02-30".to_owned());
    let error = observations_from_wire(document(vec![bad_vintage])).expect_err("修订日期非法");
    assert_eq!(error.reason_text(), "第 0 条观测：2026-02 没有第 30 日");
}

#[test]
fn decoding_errors_do_not_echo_the_offending_text() {
    let decoded = serde_json::from_str::<Vec<u32>>(r#"["synthetic-secret-value"]"#);
    let error = ecbx::describe_json_error(decoded.expect_err("类型不符"));
    assert_eq!(error.kind(), EcbErrorKind::Invalid);
    assert!(!error.message().contains("synthetic-secret-value"));
    assert!(error.reason_text().starts_with("JSON 文档不可解析（行 1 列 "));
    assert!(error.reason_text().contains("分类 Data"));

    let truncated = serde_json::from_str::<Vec<u32>>("[1,");
    let error = ecbx::describe_json_error(truncated.expect_err("提前结束"));
    assert!(error.reason_text().contains("分类 Eof"), "{error:?}");

    let garbled = serde_json::from_str::<Vec<u32>>("[1 2]");
    let error = ecbx::describe_json_error(garbled.expect_err("语法错误"));
    assert!(error.reason_text().contains("分类 Syntax"), "{error:?}");
}

#[test]
fn decoding_error_reason_names_its_own_line_column_and_category() {
    let garbled = serde_json::from_str::<Vec<u32>>("[1,\n 2 3]").expect_err("语法错误");
    let (line, column) = (garbled.line(), garbled.column());
    assert_ne!(line, column);
    let error = ecbx::describe_json_error(garbled);
    assert_eq!(
        error.reason_text(),
        format!("JSON 文档不可解析（行 {line} 列 {column}，分类 Syntax）：请检查字段名、类型与取值形态")
    );
}
