use claude_meter::otel::{ingest, Ingest};
use claude_meter::otlp::{delta_value_kept, AttrValue, DraftValue, MetricData, NumberValue};
use opentelemetry_proto::tonic::{
    collector::metrics::v1::ExportMetricsServiceRequest,
    common::v1::{any_value, AnyValue, KeyValue},
    metrics::v1::{
        metric, number_data_point, Gauge, Histogram, HistogramDataPoint, Metric, NumberDataPoint,
        ResourceMetrics, ScopeMetrics, Sum,
    },
    resource::v1::Resource,
};
use prost::Message;

fn kv(key: &str, val: &str) -> KeyValue {
    KeyValue {
        key: key.to_string(),
        value: Some(AnyValue {
            value: Some(any_value::Value::StringValue(val.to_string())),
        }),
        ..Default::default()
    }
}

fn dp(value: number_data_point::Value, time_secs: u64, attrs: Vec<KeyValue>) -> NumberDataPoint {
    NumberDataPoint {
        attributes: attrs,
        time_unix_nano: time_secs * 1_000_000_000,
        start_time_unix_nano: (time_secs - 10) * 1_000_000_000,
        value: Some(value),
        ..Default::default()
    }
}

fn metric(name: &str, data: metric::Data) -> Metric {
    Metric {
        name: name.to_string(),
        data: Some(data),
        ..Default::default()
    }
}

fn body(now: u64) -> Vec<u8> {
    let request = ExportMetricsServiceRequest {
        resource_metrics: vec![ResourceMetrics {
            resource: Some(Resource {
                attributes: vec![kv("session.id", "test-session-abc123")],
                ..Default::default()
            }),
            scope_metrics: vec![ScopeMetrics {
                metrics: vec![
                    metric(
                        "claude_code.token.usage",
                        metric::Data::Sum(Sum {
                            data_points: vec![
                                dp(number_data_point::Value::AsInt(12450), now, vec![kv("type", "input")]),
                                dp(number_data_point::Value::AsInt(3200), now, vec![kv("type", "output")]),
                            ],
                            aggregation_temporality: 1,
                            is_monotonic: true,
                        }),
                    ),
                    metric(
                        "claude_code.cost.usage",
                        metric::Data::Sum(Sum {
                            data_points: vec![dp(
                                number_data_point::Value::AsDouble(0.42),
                                now,
                                vec![
                                    kv("model", "model-large-4-6"),
                                    KeyValue {
                                        key: "ratio".to_string(),
                                        value: Some(AnyValue {
                                            value: Some(any_value::Value::DoubleValue(0.5)),
                                        }),
                                        ..Default::default()
                                    },
                                ],
                            )],
                            aggregation_temporality: 2,
                            is_monotonic: true,
                        }),
                    ),
                    metric(
                        "claude_code.active_time.total",
                        metric::Data::Gauge(Gauge {
                            data_points: vec![dp(number_data_point::Value::AsInt(60), now, vec![])],
                        }),
                    ),
                    metric(
                        "claude_code.api.latency",
                        metric::Data::Histogram(Histogram {
                            data_points: vec![HistogramDataPoint {
                                time_unix_nano: now * 1_000_000_000,
                                sum: Some(2.5),
                                ..Default::default()
                            }],
                            aggregation_temporality: 1,
                        }),
                    ),
                ],
                ..Default::default()
            }],
            ..Default::default()
        }],
    };
    let mut buf = Vec::new();
    request.encode(&mut buf).unwrap();
    buf
}

#[test]
fn ingest_decodes_and_drafts_rows() {
    let now = 1_774_000_000u64;
    match ingest("application/x-protobuf", &body(now)) {
        Ingest::Accepted { request, rows } => {
            assert_eq!(request.resource_metrics.len(), 1);
            let metrics = &request.resource_metrics[0].scope_metrics[0].metrics;
            assert_eq!(metrics.len(), 4);
            match &metrics[3].data {
                MetricData::Histogram { histogram_points } => {
                    assert_eq!(histogram_points[0].sum, Some(2.5f64.to_bits()));
                }
                _ => panic!("expected a histogram"),
            }
            assert_eq!(rows.len(), 5);
            assert!(matches!(rows[0].value, DraftValue::Delta(Some(NumberValue::AsInt(12450)))));
            assert_eq!(rows[0].session_id.as_deref(), Some("test-session-abc123"));
            assert_eq!(rows[1].metric_type.as_deref(), Some("output"));
            match &rows[2].value {
                DraftValue::Cumulative { raw, series_key } => {
                    assert_eq!(*raw, Some(NumberValue::AsDouble(0.42f64.to_bits())));
                    assert_eq!(
                        series_key,
                        "test-session-abc123|claude_code.cost.usage||model-large-4-6"
                    );
                }
                _ => panic!("expected a cumulative point"),
            }
            assert_eq!(rows[2].extra.len(), 1);
            assert_eq!(rows[2].extra[0].key, "ratio");
            assert!(matches!(rows[2].extra[0].value, Some(AttrValue::Double(b)) if b == 0.5f64.to_bits()));
            assert!(matches!(rows[3].value, DraftValue::Gauge(Some(NumberValue::AsInt(60)))));
            assert!(matches!(rows[4].value, DraftValue::HistogramSum(Some(b)) if b == 2.5f64.to_bits()));
            for r in &rows {
                assert_eq!(r.timestamp, now as i64);
            }
        }
        _ => panic!("expected the export to be accepted"),
    }
}

#[test]
fn ingest_refuses_other_content_types() {
    assert!(matches!(ingest("application/json", &body(100)), Ingest::UnsupportedMediaType));
}

#[test]
fn ingest_reports_undecodable_bodies() {
    match ingest("", &[0xff, 0xff, 0xff]) {
        Ingest::BadRequest(e) => assert!(!e.is_empty()),
        _ => panic!("expected a decode error"),
    }
}

#[test]
fn empty_body_is_an_empty_export() {
    match ingest("application/octet-stream", &[]) {
        Ingest::Accepted { request, rows } => {
            assert!(request.resource_metrics.is_empty());
            assert!(rows.is_empty());
        }
        _ => panic!("expected an empty export"),
    }
}

#[test]
fn delta_points_dropped_only_when_at_most_zero() {
    assert!(!delta_value_kept(&None));
    assert!(delta_value_kept(&Some(NumberValue::AsInt(1))));
    assert!(!delta_value_kept(&Some(NumberValue::AsInt(0))));
    assert!(!delta_value_kept(&Some(NumberValue::AsInt(-4))));
    for x in [0.42f64, 1e-300, 5e-324, f64::INFINITY, 1e300, f64::NAN, -f64::NAN] {
        assert!(delta_value_kept(&Some(NumberValue::AsDouble(x.to_bits()))), "{}", x);
        assert_eq!(delta_value_kept(&Some(NumberValue::AsDouble(x.to_bits()))), !(x <= 0.0));
    }
    for x in [0.0f64, -0.0, -1.0, -5e-324, f64::MIN, f64::NEG_INFINITY] {
        assert!(!delta_value_kept(&Some(NumberValue::AsDouble(x.to_bits()))), "{}", x);
    }
}
