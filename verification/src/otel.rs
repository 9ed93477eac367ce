//! The OTLP metrics export as `opentelemetry_proto` decodes it with
//! `prost`, and its reading into the plain values of [`crate::otlp`].

use vstd::prelude::*;
use vstd::float::FloatBitsProperties;
use opentelemetry_proto::tonic::collector::metrics::v1::ExportMetricsServiceRequest;
use opentelemetry_proto::tonic::common::v1 as pc;
use opentelemetry_proto::tonic::metrics::v1 as pm;
use opentelemetry_proto::tonic::resource::v1::Resource;
use prost::Message;
use crate::otlp::{
    accepts_content_type, accepts_content_type_spec, drafts_view, extract_rows, request_rows,
    AttrValue, Attribute, ExportRequest, HistogramPoint, MetricData, MetricEntry, NumberPoint,
    NumberValue, ResourceBatch, RowDraft, ScopeBatch,
};

verus! {

#[verifier::external_type_specification]
pub struct ExExportMetricsServiceRequest(ExportMetricsServiceRequest);

#[verifier::external_type_specification]
pub struct ExResourceMetrics(pm::ResourceMetrics);

#[verifier::external_type_specification]
pub struct ExResource(Resource);

#[verifier::external_type_specification]
pub struct ExScopeMetrics(pm::ScopeMetrics);

#[verifier::external_type_specification]
pub struct ExMetric(pm::Metric);

#[verifier::external_type_specification]
pub struct ExMetricData(pm::metric::Data);

#[verifier::external_type_specification]
pub struct ExSum(pm::Sum);

#[verifier::external_type_specification]
pub struct ExGauge(pm::Gauge);

#[verifier::external_type_specification]
pub struct ExHistogram(pm::Histogram);

#[verifier::external_type_specification]
pub struct ExNumberDataPoint(pm::NumberDataPoint);

#[verifier::external_type_specification]
pub struct ExNumberValue(pm::number_data_point::Value);

#[verifier::external_type_specification]
pub struct ExHistogramDataPoint(pm::HistogramDataPoint);

#[verifier::external_type_specification]
pub struct ExKeyValue(pc::KeyValue);

#[verifier::external_type_specification]
pub struct ExAnyValue(pc::AnyValue);

#[verifier::external_type_specification]
pub struct ExAnyValueValue(pc::any_value::Value);

#[verifier::external_type_specification]
#[verifier::external_body]
pub struct ExEntityRef(pc::EntityRef);

#[verifier::external_type_specification]
#[verifier::external_body]
pub struct ExInstrumentationScope(pc::InstrumentationScope);

#[verifier::external_type_specification]
#[verifier::external_body]
pub struct ExArrayValue(pc::ArrayValue);

#[verifier::external_type_specification]
#[verifier::external_body]
pub struct ExKeyValueList(pc::KeyValueList);

#[verifier::external_type_specification]
#[verifier::external_body]
pub struct ExExponentialHistogram(pm::ExponentialHistogram);

#[verifier::external_type_specification]
#[verifier::external_body]
pub struct ExSummary(pm::Summary);

#[verifier::external_type_specification]
#[verifier::external_body]
pub struct ExExemplar(pm::Exemplar);

// ---- Decoding --------------------------------------------------------------

/// The message that `prost` decodes from these bytes, if they are one.
pub uninterp spec fn decoded_export(body: Seq<u8>) -> Option<ExportMetricsServiceRequest>;

/// The text of `prost`'s decode error for these bytes.
pub uninterp spec fn decode_error_text(body: Seq<u8>) -> Seq<char>;

/// `ExportMetricsServiceRequest::decode` (`prost::Message::decode`): the
/// decoded message, or the error's text.
#[verifier::external_body]
pub(crate) fn decode_export_request(body: &[u8]) -> (r: Result<ExportMetricsServiceRequest, String>)
    ensures
        match r {
            Ok(q) => decoded_export(body@) == Some(q),
            Err(e) => decoded_export(body@) is None && e@ == decode_error_text(body@),
        },
{
    ExportMetricsServiceRequest::decode(body).map_err(|e| e.to_string())
}

/// A number data point's value, a double by its bit pattern
/// (`f64::to_bits`).
#[verifier::external_body]
pub(crate) fn number_value(v: &Option<pm::number_data_point::Value>) -> (r: Option<NumberValue>)
    ensures
        number_value_read(*v, r),
{
    match v {
        Some(pm::number_data_point::Value::AsDouble(d)) => Some(NumberValue::AsDouble(d.to_bits())),
        Some(pm::number_data_point::Value::AsInt(i)) => Some(NumberValue::AsInt(*i)),
        None => None,
    }
}

/// An attribute's value, a double by its bit pattern (`f64::to_bits`);
/// arrays, key-value lists, bytes and string-table references are `Other`.
#[verifier::external_body]
pub(crate) fn any_value(v: &pc::any_value::Value) -> (r: AttrValue)
    ensures
        any_value_read(*v, r),
{
    match v {
        pc::any_value::Value::StringValue(s) => AttrValue::Str(s.clone()),
        pc::any_value::Value::BoolValue(b) => AttrValue::Bool(*b),
        pc::any_value::Value::IntValue(i) => AttrValue::Int(*i),
        pc::any_value::Value::DoubleValue(d) => AttrValue::Double(d.to_bits()),
        _ => AttrValue::Other,
    }
}

/// A histogram point's sum by its bit pattern (`f64::to_bits`).
#[verifier::external_body]
pub(crate) fn histogram_sum(dp: &pm::HistogramDataPoint) -> (r: Option<u64>)
    ensures
        match dp.sum {
            Some(x) => r == Some(x.to_bits_spec()),
            None => r is None,
        },
{
    dp.sum.map(|x| x.to_bits())
}

// ---- Reading the message as plain values ------------------------------------

pub open spec fn number_value_read(v: Option<pm::number_data_point::Value>, r: Option<NumberValue>) -> bool {
    match v {
        None => r is None,
        Some(pm::number_data_point::Value::AsInt(i)) => r == Some(NumberValue::AsInt(i)),
        Some(pm::number_data_point::Value::AsDouble(d)) => r == Some(
            NumberValue::AsDouble(d.to_bits_spec()),
        ),
    }
}

pub open spec fn any_value_read(v: pc::any_value::Value, r: AttrValue) -> bool {
    match v {
        pc::any_value::Value::StringValue(s) => r matches AttrValue::Str(t) && t@ == s@,
        pc::any_value::Value::BoolValue(b) => r == AttrValue::Bool(b),
        pc::any_value::Value::IntValue(i) => r == AttrValue::Int(i),
        pc::any_value::Value::DoubleValue(d) => r == AttrValue::Double(d.to_bits_spec()),
        _ => r is Other,
    }
}

/// An attribute read from a key-value pair: its key, and its value unless
/// the pair or its value is empty.
pub open spec fn attribute_read(kv: pc::KeyValue, a: Attribute) -> bool {
    &&& a.key@ == kv.key@
    &&& match kv.value {
        Some(av) => match av.value {
            Some(x) => a.value matches Some(y) && any_value_read(x, y),
            None => a.value is None,
        },
        None => a.value is None,
    }
}

pub open spec fn attributes_read(kvs: Seq<pc::KeyValue>, attrs: Seq<Attribute>) -> bool {
    &&& attrs.len() == kvs.len()
    &&& forall|i: int| 0 <= i < kvs.len() ==> attribute_read(#[trigger] kvs[i], attrs[i])
}

pub open spec fn number_point_read(dp: pm::NumberDataPoint, p: NumberPoint) -> bool {
    &&& attributes_read(dp.attributes@, p.attributes@)
    &&& p.time_unix_nano == dp.time_unix_nano
    &&& number_value_read(dp.value, p.value)
}

pub open spec fn number_points_read(dps: Seq<pm::NumberDataPoint>, ps: Seq<NumberPoint>) -> bool {
    &&& ps.len() == dps.len()
    &&& forall|i: int| 0 <= i < dps.len() ==> number_point_read(#[trigger] dps[i], ps[i])
}

pub open spec fn histogram_point_read(dp: pm::HistogramDataPoint, p: HistogramPoint) -> bool {
    &&& attributes_read(dp.attributes@, p.attributes@)
    &&& p.time_unix_nano == dp.time_unix_nano
    &&& match dp.sum {
        Some(x) => p.sum == Some(x.to_bits_spec()),
        None => p.sum is None,
    }
}

pub open spec fn histogram_points_read(dps: Seq<pm::HistogramDataPoint>, ps: Seq<HistogramPoint>) -> bool {
    &&& ps.len() == dps.len()
    &&& forall|i: int| 0 <= i < dps.len() ==> histogram_point_read(#[trigger] dps[i], ps[i])
}

/// A metric read: its name, and the points of a sum (with its
/// temporality), gauge or histogram; other kinds and absent data are
/// `Other`.
pub open spec fn metric_read(m: pm::Metric, e: MetricEntry) -> bool {
    &&& e.name@ == m.name@
    &&& match m.data {
        Some(pm::metric::Data::Sum(s)) => e.data matches MetricData::Sum {
            aggregation_temporality,
            points,
        } && aggregation_temporality == s.aggregation_temporality && number_points_read(
            s.data_points@,
            points@,
        ),
        Some(pm::metric::Data::Gauge(g)) => e.data matches MetricData::Gauge { points }
            && number_points_read(g.data_points@, points@),
        Some(pm::metric::Data::Histogram(h)) => e.data matches MetricData::Histogram { histogram_points: points }
            && histogram_points_read(h.data_points@, points@),
        _ => e.data is Other,
    }
}

pub open spec fn metrics_read(ms: Seq<pm::Metric>, es: Seq<MetricEntry>) -> bool {
    &&& es.len() == ms.len()
    &&& forall|i: int| 0 <= i < ms.len() ==> metric_read(#[trigger] ms[i], es[i])
}

pub open spec fn scope_read(sm: pm::ScopeMetrics, b: ScopeBatch) -> bool {
    metrics_read(sm.metrics@, b.metrics@)
}

pub open spec fn scopes_read(sms: Seq<pm::ScopeMetrics>, bs: Seq<ScopeBatch>) -> bool {
    &&& bs.len() == sms.len()
    &&& forall|i: int| 0 <= i < sms.len() ==> scope_read(#[trigger] sms[i], bs[i])
}

pub open spec fn resource_read(rm: pm::ResourceMetrics, b: ResourceBatch) -> bool {
    &&& match rm.resource {
        Some(r) => b.resource matches Some(attrs) && attributes_read(r.attributes@, attrs@),
        None => b.resource is None,
    }
    &&& scopes_read(rm.scope_metrics@, b.scope_metrics@)
}

pub open spec fn resources_read(rms: Seq<pm::ResourceMetrics>, bs: Seq<ResourceBatch>) -> bool {
    &&& bs.len() == rms.len()
    &&& forall|i: int| 0 <= i < rms.len() ==> resource_read(#[trigger] rms[i], bs[i])
}

/// The export request read as plain values, part for part.
pub open spec fn request_read(q: ExportMetricsServiceRequest, r: ExportRequest) -> bool {
    resources_read(q.resource_metrics@, r.resource_metrics@)
}

fn read_attribute(kv: &pc::KeyValue) -> (a: Attribute)
    ensures
        attribute_read(*kv, a),
{
    let value = match &kv.value {
        Some(av) => match &av.value {
            Some(x) => Some(any_value(x)),
            None => None,
        },
        None => None,
    };
    Attribute { key: kv.key.clone(), value }
}

fn read_attributes(kvs: &Vec<pc::KeyValue>) -> (attrs: Vec<Attribute>)
    ensures
        attributes_read(kvs@, attrs@),
{
    let mut attrs: Vec<Attribute> = Vec::new();
    let mut i: usize = 0;
    while i < kvs.len()
        invariant
            i <= kvs@.len(),
            attrs@.len() == i,
            forall|j: int| 0 <= j < i ==> attribute_read(#[trigger] kvs@[j], attrs@[j]),
        decreases kvs@.len() - i,
    {
        attrs.push(read_attribute(&kvs[i]));
        i = i + 1;
    }
    attrs
}

fn read_number_points(dps: &Vec<pm::NumberDataPoint>) -> (ps: Vec<NumberPoint>)
    ensures
        number_points_read(dps@, ps@),
{
    let mut ps: Vec<NumberPoint> = Vec::new();
    let mut i: usize = 0;
    while i < dps.len()
        invariant
            i <= dps@.len(),
            ps@.len() == i,
            forall|j: int| 0 <= j < i ==> number_point_read(#[trigger] dps@[j], ps@[j]),
        decreases dps@.len() - i,
    {
        let dp = &dps[i];
        ps.push(
            NumberPoint {
                attributes: read_attributes(&dp.attributes),
                time_unix_nano: dp.time_unix_nano,
                value: number_value(&dp.value),
            },
        );
        i = i + 1;
    }
    ps
}

fn read_histogram_points(dps: &Vec<pm::HistogramDataPoint>) -> (ps: Vec<HistogramPoint>)
    ensures
        histogram_points_read(dps@, ps@),
{
    let mut ps: Vec<HistogramPoint> = Vec::new();
    let mut i: usize = 0;
    while i < dps.len()
        invariant
            i <= dps@.len(),
            ps@.len() == i,
            forall|j: int| 0 <= j < i ==> histogram_point_read(#[trigger] dps@[j], ps@[j]),
        decreases dps@.len() - i,
    {
        let dp = &dps[i];
        ps.push(
            HistogramPoint {
                attributes: read_attributes(&dp.attributes),
                time_unix_nano: dp.time_unix_nano,
                sum: histogram_sum(dp),
            },
        );
        i = i + 1;
    }
    ps
}

fn read_metric(m: &pm::Metric) -> (e: MetricEntry)
    ensures
        metric_read(*m, e),
{
    let data = match &m.data {
        Some(pm::metric::Data::Sum(s)) => MetricData::Sum {
            aggregation_temporality: s.aggregation_temporality,
            points: read_number_points(&s.data_points),
        },
        Some(pm::metric::Data::Gauge(g)) => MetricData::Gauge {
            points: read_number_points(&g.data_points),
        },
        Some(pm::metric::Data::Histogram(h)) => MetricData::Histogram {
            histogram_points: read_histogram_points(&h.data_points),
        },
        _ => MetricData::Other,
    };
    MetricEntry { name: m.name.clone(), data }
}

fn read_scope(sm: &pm::ScopeMetrics) -> (b: ScopeBatch)
    ensures
        scope_read(*sm, b),
{
    let mut metrics: Vec<MetricEntry> = Vec::new();
    let mut i: usize = 0;
    while i < sm.metrics.len()
        invariant
            i <= sm.metrics@.len(),
            metrics@.len() == i,
            forall|j: int| 0 <= j < i ==> metric_read(#[trigger] sm.metrics@[j], metrics@[j]),
        decreases sm.metrics@.len() - i,
    {
        metrics.push(read_metric(&sm.metrics[i]));
        i = i + 1;
    }
    ScopeBatch { metrics }
}

fn read_resource(rm: &pm::ResourceMetrics) -> (b: ResourceBatch)
    ensures
        resource_read(*rm, b),
{
    let resource = match &rm.resource {
        Some(r) => Some(read_attributes(&r.attributes)),
        None => None,
    };
    let mut scopes: Vec<ScopeBatch> = Vec::new();
    let mut i: usize = 0;
    while i < rm.scope_metrics.len()
        invariant
            i <= rm.scope_metrics@.len(),
            scopes@.len() == i,
            forall|j: int| 0 <= j < i ==> scope_read(#[trigger] rm.scope_metrics@[j], scopes@[j]),
        decreases rm.scope_metrics@.len() - i,
    {
        scopes.push(read_scope(&rm.scope_metrics[i]));
        i = i + 1;
    }
    ResourceBatch { resource, scope_metrics: scopes }
}

/// The export request as plain values.
pub fn read_export(q: &ExportMetricsServiceRequest) -> (r: ExportRequest)
    ensures
        request_read(*q, r),
{
    let mut out: Vec<ResourceBatch> = Vec::new();
    let mut i: usize = 0;
    while i < q.resource_metrics.len()
        invariant
            i <= q.resource_metrics@.len(),
            out@.len() == i,
            forall|j: int| 0 <= j < i ==> resource_read(#[trigger] q.resource_metrics@[j], out@[j]),
        decreases q.resource_metrics@.len() - i,
    {
        out.push(read_resource(&q.resource_metrics[i]));
        i = i + 1;
    }
    ExportRequest { resource_metrics: out }
}

// ---- Ingesting a request -------------------------------------------------------

/// What becomes of a metrics export sent to the collector.
pub enum Ingest {
    /// The content type is refused (answered 415).
    UnsupportedMediaType,
    /// The body is no export message (answered 400); the decode error.
    BadRequest(String),
    /// The export, read as plain values, and the rows it yields.
    Accepted { request: ExportRequest, rows: Vec<RowDraft> },
}

/// Ingests an export: checks its content type, decodes its body, and
/// drafts its rows.
pub fn ingest(content_type: &str, body: &[u8]) -> (r: Ingest)
    ensures
        !accepts_content_type_spec(content_type@) ==> r is UnsupportedMediaType,
        accepts_content_type_spec(content_type@) && decoded_export(body@) is None ==> (
        r matches Ingest::BadRequest(e) && e@ == decode_error_text(body@)),
        accepts_content_type_spec(content_type@) && decoded_export(body@) is Some ==> (
        r matches Ingest::Accepted { request, rows } && request_read(
            decoded_export(body@).unwrap(),
            request,
        ) && drafts_view(rows@) == request_rows(request)),
{
    if !accepts_content_type(content_type) {
        return Ingest::UnsupportedMediaType;
    }
    match decode_export_request(body) {
        Err(e) => Ingest::BadRequest(e),
        Ok(q) => {
            let request = read_export(&q);
            let rows = extract_rows(&request);
            Ingest::Accepted { request, rows }
        },
    }
}

} // verus!
