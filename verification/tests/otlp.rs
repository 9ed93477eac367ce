use claude_meter::otlp::{
    accepts_content_type, delta_key, extra_attributes, extract_rows, find_string_attr, json_entries,
    AttrValue,
    Attribute, DraftValue, ExportRequest, HistogramPoint, MetricEntry, MetricData, NumberPoint,
    NumberValue, ResourceBatch, ScopeBatch,
};

fn kv(key: &str, val: &str) -> Attribute {
    Attribute {
        key: key.to_string(),
        value: Some(AttrValue::Str(val.to_string())),
    }
}

fn int_dp(value: i64, time_secs: u64, attrs: Vec<Attribute>) -> NumberPoint {
    NumberPoint {
        attributes: attrs,
        time_unix_nano: time_secs * 1_000_000_000,
        value: Some(NumberValue::AsInt(value)),
    }
}

fn keys(attrs: &[Attribute]) -> Vec<String> {
    attrs.iter().map(|a| a.key.clone()).collect()
}

#[test]
fn string_attr_takes_first_match() {
    let attrs = vec![
        kv("model", "model-large-4-6"),
        kv("model", "other"),
        Attribute { key: "count".to_string(), value: Some(AttrValue::Int(-12)) },
        Attribute { key: "flag".to_string(), value: Some(AttrValue::Bool(true)) },
        Attribute { key: "empty".to_string(), value: None },
        Attribute { key: "dup".to_string(), value: Some(AttrValue::Bool(false)) },
        kv("dup", "later"),
    ];
    assert_eq!(find_string_attr(&attrs, "model"), Some("model-large-4-6".to_string()));
    assert_eq!(find_string_attr(&attrs, "count"), Some("-12".to_string()));
    assert_eq!(find_string_attr(&attrs, "flag"), None);
    assert_eq!(find_string_attr(&attrs, "empty"), None);
    assert_eq!(find_string_attr(&attrs, "missing"), None);
    assert_eq!(find_string_attr(&attrs, "dup"), None);
}

#[test]
fn extra_attributes_skip_columns_and_non_scalars() {
    let attrs = vec![
        kv("session.id", "s"),
        kv("model", "m"),
        kv("type", "input"),
        kv("tool_name", "Bash"),
        kv("decision", "accept"),
        kv("user.id", "u"),
        Attribute { key: "n".to_string(), value: Some(AttrValue::Int(3)) },
        Attribute { key: "x".to_string(), value: Some(AttrValue::Double(1.5f64.to_bits())) },
        Attribute { key: "b".to_string(), value: Some(AttrValue::Bool(false)) },
        Attribute { key: "arr".to_string(), value: Some(AttrValue::Other) },
        Attribute { key: "none".to_string(), value: None },
    ];
    let extra = extra_attributes(&attrs);
    assert_eq!(keys(&extra), vec!["user.id", "n", "x", "b"]);
}

#[test]
fn series_keys() {
    assert_eq!(
        delta_key(
            &Some("sess".to_string()),
            "claude_code.token.usage",
            &Some("input".to_string()),
            &Some("model-large-4-6".to_string())
        ),
        "sess|claude_code.token.usage|input|model-large-4-6"
    );
    assert_eq!(delta_key(&None, "m", &None, &None), "|m||");
    assert_ne!(
        delta_key(&Some("a".to_string()), "m", &None, &None),
        delta_key(&Some("b".to_string()), "m", &None, &None)
    );
}

#[test]
fn content_types() {
    assert!(accepts_content_type(""));
    assert!(accepts_content_type("application/x-protobuf"));
    assert!(accepts_content_type("application/octet-stream"));
    assert!(accepts_content_type("x-protobuf; charset=binary"));
    assert!(!accepts_content_type("application/json"));
    assert!(!accepts_content_type("text/plain"));
    assert!(!accepts_content_type("protobu"));
}

fn sample_request(now: u64) -> ExportRequest {
    ExportRequest {
        resource_metrics: vec![ResourceBatch {
            resource: Some(vec![kv("session.id", "test-session-abc123")]),
            scope_metrics: vec![ScopeBatch {
                metrics: vec![
                    MetricEntry {
                        name: "claude_code.token.usage".to_string(),
                        data: MetricData::Sum {
                            aggregation_temporality: 1,
                            points: vec![
                                int_dp(12450, now, vec![kv("type", "input"), kv("model", "model-large-4-6")]),
                                int_dp(3200, now, vec![kv("type", "output"), kv("model", "model-large-4-6")]),
                                int_dp(45000, now, vec![kv("type", "cacheRead"), kv("model", "model-large-4-6")]),
                                int_dp(8100, now, vec![kv("type", "cacheCreation"), kv("model", "model-large-4-6")]),
                            ],
                        },
                    },
                    MetricEntry {
                        name: "claude_code.cost.usage".to_string(),
                        data: MetricData::Sum {
                            aggregation_temporality: 2,
                            points: vec![NumberPoint {
                                attributes: vec![kv("model", "model-large-4-6"), kv("session.id", "own")],
                                time_unix_nano: now * 1_000_000_000 + 999_999_999,
                                value: Some(NumberValue::AsDouble(0.42f64.to_bits())),
                            }],
                        },
                    },
                    MetricEntry {
                        name: "claude_code.lines_of_code.modified".to_string(),
                        data: MetricData::Gauge {
                            points: vec![int_dp(156, now, vec![kv("type", "added")])],
                        },
                    },
                    MetricEntry {
                        name: "claude_code.api.latency".to_string(),
                        data: MetricData::Histogram {
                            histogram_points: vec![HistogramPoint {
                                attributes: vec![kv("tool_name", "Bash"), kv("decision", "accept")],
                                time_unix_nano: now * 1_000_000_000,
                                sum: None,
                            }],
                        },
                    },
                    MetricEntry { name: "ignored".to_string(), data: MetricData::Other },
                ],
            }],
        }],
    }
}

#[test]
fn rows_of_an_export() {
    let now = 1_774_000_000u64;
    let rows = extract_rows(&sample_request(now));
    assert_eq!(rows.len(), 7);
    let names: Vec<&str> = rows.iter().map(|r| r.metric_name.as_str()).collect();
    assert_eq!(
        names,
        vec![
            "claude_code.token.usage",
            "claude_code.token.usage",
            "claude_code.token.usage",
            "claude_code.token.usage",
            "claude_code.cost.usage",
            "claude_code.lines_of_code.modified",
            "claude_code.api.latency",
        ]
    );
    for r in &rows {
        assert_eq!(r.timestamp, now as i64);
    }
    // Delta sums keep their reported value.
    assert!(matches!(rows[0].value, DraftValue::Delta(Some(NumberValue::AsInt(12450)))));
    assert_eq!(rows[0].metric_type.as_deref(), Some("input"));
    assert_eq!(rows[0].model.as_deref(), Some("model-large-4-6"));
    assert_eq!(rows[0].session_id.as_deref(), Some("test-session-abc123"));
    assert_eq!(rows[3].metric_type.as_deref(), Some("cacheCreation"));
    // A cumulative sum is keyed by its series; the point's own session wins.
    match &rows[4].value {
        DraftValue::Cumulative { raw, series_key } => {
            assert_eq!(*raw, Some(NumberValue::AsDouble(0.42f64.to_bits())));
            assert_eq!(series_key, "own|claude_code.cost.usage||model-large-4-6");
        }
        _ => panic!("expected a cumulative point"),
    }
    assert_eq!(rows[4].session_id.as_deref(), Some("own"));
    assert!(matches!(rows[5].value, DraftValue::Gauge(Some(NumberValue::AsInt(156)))));
    assert!(matches!(rows[6].value, DraftValue::HistogramSum(None)));
    assert_eq!(rows[6].tool_name.as_deref(), Some("Bash"));
    assert_eq!(rows[6].decision.as_deref(), Some("accept"));
    assert!(rows.iter().all(|r| r.extra.is_empty()));
}

#[test]
fn no_resource_session_without_resource() {
    let req = ExportRequest {
        resource_metrics: vec![ResourceBatch {
            resource: None,
            scope_metrics: vec![ScopeBatch {
                metrics: vec![MetricEntry {
                    name: "m".to_string(),
                    data: MetricData::Sum {
                        aggregation_temporality: 2,
                        points: vec![int_dp(5, 10, vec![kv("user.id", "u")])],
                    },
                }],
            }],
        }],
    };
    let rows = extract_rows(&req);
    assert_eq!(rows.len(), 1);
    assert_eq!(rows[0].session_id, None);
    assert_eq!(keys(&rows[0].extra), vec!["user.id"]);
    match &rows[0].value {
        DraftValue::Cumulative { series_key, .. } => assert_eq!(series_key, "|m||"),
        _ => panic!("expected a cumulative point"),
    }
}

#[test]
fn empty_export_has_no_rows() {
    assert!(extract_rows(&ExportRequest { resource_metrics: vec![] }).is_empty());
}

fn attr(key: &str, value: AttrValue) -> Attribute {
    Attribute { key: key.to_string(), value: Some(value) }
}

#[test]
fn json_entries_sorted_last_wins_finite_only() {
    let attrs = vec![
        attr("zeta", AttrValue::Int(1)),
        attr("alpha", AttrValue::Str("first".to_string())),
        attr("mid", AttrValue::Double(2.5f64.to_bits())),
        attr("alpha", AttrValue::Str("second".to_string())),
        attr("mid", AttrValue::Double(f64::NAN.to_bits())),
        attr("inf", AttrValue::Double(f64::INFINITY.to_bits())),
        attr("Beta", AttrValue::Bool(true)),
        attr("é", AttrValue::Int(2)),
        attr("arr", AttrValue::Other),
        Attribute { key: "none".to_string(), value: None },
    ];
    let entries = json_entries(&attrs);
    assert_eq!(keys(&entries), vec!["Beta", "alpha", "mid", "zeta", "é"]);
    assert!(matches!(&entries[1].value, Some(AttrValue::Str(s)) if s == "second"));
    assert!(matches!(entries[2].value, Some(AttrValue::Double(b)) if b == 2.5f64.to_bits()));
    assert!(json_entries(&[]).is_empty());
}
