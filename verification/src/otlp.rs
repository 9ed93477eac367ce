//! Turning an OTLP metrics export into rows for the metrics store.
//!
//! The request is held here as plain values. Floating-point quantities
//! (data point values, histogram sums, double attributes) travel as their
//! IEEE-754 bit patterns; what is computed on them as numbers is done by
//! the caller.

use vstd::prelude::*;
use crate::text::{chars_of, signed_decimal, i64_to_decimal};

verus! {

/// The value of an attribute, as far as the store reads it.
pub enum AttrValue {
    Str(String),
    Bool(bool),
    Int(i64),
    /// A double, by its bit pattern.
    Double(u64),
    /// An array, a key-value list or bytes.
    Other,
}

/// A key and its value; `None` when the value is absent or empty.
pub struct Attribute {
    pub key: String,
    pub value: Option<AttrValue>,
}

/// A number data point's value.
#[derive(Clone, Copy, PartialEq, Eq, Debug)]
pub enum NumberValue {
    AsInt(i64),
    /// A double, by its bit pattern.
    AsDouble(u64),
}

pub struct NumberPoint {
    pub attributes: Vec<Attribute>,
    pub time_unix_nano: u64,
    pub value: Option<NumberValue>,
}

pub struct HistogramPoint {
    pub attributes: Vec<Attribute>,
    pub time_unix_nano: u64,
    /// The sum of the observations, by its bit pattern.
    pub sum: Option<u64>,
}

/// The data of a metric; `Other` when absent or of a kind the store ignores.
pub enum MetricData {
    Sum { aggregation_temporality: i32, points: Vec<NumberPoint> },
    Gauge { points: Vec<NumberPoint> },
    Histogram { histogram_points: Vec<HistogramPoint> },
    Other,
}

pub struct MetricEntry {
    pub name: String,
    pub data: MetricData,
}

pub struct ScopeBatch {
    pub metrics: Vec<MetricEntry>,
}

pub struct ResourceBatch {
    /// The attributes of the resource, when it has one.
    pub resource: Option<Vec<Attribute>>,
    pub scope_metrics: Vec<ScopeBatch>,
}

pub struct ExportRequest {
    pub resource_metrics: Vec<ResourceBatch>,
}

/// What a row's value is made of.
pub enum DraftValue {
    /// A point of a cumulative sum, with the key of its series: the row's
    /// value is its increase since the series' last point, and rows that
    /// do not increase are dropped.
    Cumulative { raw: Option<NumberValue>, series_key: String },
    /// A point of a delta sum: rows whose value is at most zero are dropped.
    Delta(Option<NumberValue>),
    /// A gauge reading, stored as it is.
    Gauge(Option<NumberValue>),
    /// A histogram's sum (zero when absent), stored as it is.
    HistogramSum(Option<u64>),
}

/// A row for the metrics store, before its value is worked out.
pub struct RowDraft {
    pub timestamp: i64,
    pub metric_name: String,
    pub value: DraftValue,
    pub session_id: Option<String>,
    pub model: Option<String>,
    pub metric_type: Option<String>,
    pub tool_name: Option<String>,
    pub decision: Option<String>,
    /// The attributes handed on to the extra JSON column, in their order
    /// (see [`extra_attrs_spec`]).
    pub extra: Vec<Attribute>,
}

// ---- Views -------------------------------------------------------------

pub enum AttrValueView {
    Str(Seq<char>),
    Bool(bool),
    Int(i64),
    Double(u64),
    Other,
}

pub struct AttributeView {
    pub key: Seq<char>,
    pub value: Option<AttrValueView>,
}

pub enum DraftValueView {
    Cumulative { raw: Option<NumberValue>, series_key: Seq<char> },
    Delta(Option<NumberValue>),
    Gauge(Option<NumberValue>),
    HistogramSum(Option<u64>),
}

pub struct DraftView {
    pub timestamp: i64,
    pub metric_name: Seq<char>,
    pub value: DraftValueView,
    pub session_id: Option<Seq<char>>,
    pub model: Option<Seq<char>>,
    pub metric_type: Option<Seq<char>>,
    pub tool_name: Option<Seq<char>>,
    pub decision: Option<Seq<char>>,
    pub extra: Seq<AttributeView>,
}

pub open spec fn opt_view(o: Option<String>) -> Option<Seq<char>> {
    match o {
        Some(s) => Some(s@),
        None => None,
    }
}

pub open spec fn attr_value_view(v: AttrValue) -> AttrValueView {
    match v {
        AttrValue::Str(s) => AttrValueView::Str(s@),
        AttrValue::Bool(b) => AttrValueView::Bool(b),
        AttrValue::Int(i) => AttrValueView::Int(i),
        AttrValue::Double(d) => AttrValueView::Double(d),
        AttrValue::Other => AttrValueView::Other,
    }
}

pub open spec fn attr_view(a: Attribute) -> AttributeView {
    AttributeView {
        key: a.key@,
        value: match a.value {
            Some(v) => Some(attr_value_view(v)),
            None => None,
        },
    }
}

pub open spec fn attrs_view(s: Seq<Attribute>) -> Seq<AttributeView> {
    s.map_values(|a: Attribute| attr_view(a))
}

pub open spec fn draft_value_view(v: DraftValue) -> DraftValueView {
    match v {
        DraftValue::Cumulative { raw, series_key } => DraftValueView::Cumulative {
            raw,
            series_key: series_key@,
        },
        DraftValue::Delta(x) => DraftValueView::Delta(x),
        DraftValue::Gauge(x) => DraftValueView::Gauge(x),
        DraftValue::HistogramSum(x) => DraftValueView::HistogramSum(x),
    }
}

pub open spec fn draft_view(d: RowDraft) -> DraftView {
    DraftView {
        timestamp: d.timestamp,
        metric_name: d.metric_name@,
        value: draft_value_view(d.value),
        session_id: opt_view(d.session_id),
        model: opt_view(d.model),
        metric_type: opt_view(d.metric_type),
        tool_name: opt_view(d.tool_name),
        decision: opt_view(d.decision),
        extra: attrs_view(d.extra@),
    }
}

pub open spec fn drafts_view(s: Seq<RowDraft>) -> Seq<DraftView> {
    s.map_values(|d: RowDraft| draft_view(d))
}

// ---- Attribute lookup --------------------------------------------------

/// The index of the first attribute with this key.
pub open spec fn first_index_of_key(attrs: Seq<Attribute>, key: Seq<char>) -> Option<int>
    decreases attrs.len(),
{
    if attrs.len() == 0 {
        None
    } else if attrs[0].key@ == key {
        Some(0)
    } else {
        match first_index_of_key(attrs.drop_first(), key) {
            Some(i) => Some(i + 1),
            None => None,
        }
    }
}

/// A value read as text: a string as it is, an integer in decimal.
pub open spec fn text_of_value(v: Option<AttrValue>) -> Option<Seq<char>> {
    match v {
        Some(AttrValue::Str(s)) => Some(s@),
        Some(AttrValue::Int(i)) => Some(signed_decimal(i as int)),
        _ => None,
    }
}

/// The text of the first attribute with this key; nothing when there is
/// no such attribute or its value is neither a string nor an integer.
pub open spec fn string_attr_spec(attrs: Seq<Attribute>, key: Seq<char>) -> Option<Seq<char>> {
    match first_index_of_key(attrs, key) {
        Some(i) => text_of_value(attrs[i].value),
        None => None,
    }
}

proof fn lemma_first_index_step(attrs: Seq<Attribute>, key: Seq<char>, i: int)
    requires
        0 <= i < attrs.len(),
        forall|j: int| 0 <= j < i ==> (#[trigger] attrs[j]).key@ != key,
    ensures
        attrs[i].key@ == key ==> first_index_of_key(attrs, key) == Some(i),
        attrs[i].key@ != key ==> first_index_of_key(attrs, key) == match first_index_of_key(
            attrs.subrange(i + 1, attrs.len() as int),
            key,
        ) {
            Some(k) => Some(k + i + 1),
            None => None,
        },
    decreases i,
{
    if i > 0 {
        let t = attrs.drop_first();
        assert forall|j: int| 0 <= j < i - 1 implies (#[trigger] t[j]).key@ != key by {
            assert(t[j] == attrs[j + 1]);
        }
        lemma_first_index_step(t, key, i - 1);
        assert(t.subrange(i, t.len() as int) =~= attrs.subrange(i + 1, attrs.len() as int));
        assert(attrs[0].key@ != key);
    } else {
        assert(attrs.drop_first() =~= attrs.subrange(1, attrs.len() as int));
    }
}

fn text_of(v: &Option<AttrValue>) -> (r: Option<String>)
    ensures
        opt_view(r) == text_of_value(*v),
{
    match v {
        Some(AttrValue::Str(s)) => Some(s.clone()),
        Some(AttrValue::Int(i)) => Some(i64_to_decimal(*i)),
        _ => None,
    }
}

/// The text of the first attribute named `key`: a string value as it is,
/// an integer value in decimal; `None` when there is no such attribute or
/// its value is of another kind.
pub fn find_string_attr(attrs: &[Attribute], key: &str) -> (r: Option<String>)
    ensures
        opt_view(r) == string_attr_spec(attrs@, key@),
{
    let k = key.to_owned();
    let mut i: usize = 0;
    while i < attrs.len()
        invariant
            i <= attrs@.len(),
            k@ == key@,
            forall|j: int| 0 <= j < i ==> (#[trigger] attrs@[j]).key@ != key@,
        decreases attrs@.len() - i,
    {
        proof {
            lemma_first_index_step(attrs@, key@, i as int);
        }
        if attrs[i].key == k {
            return text_of(&attrs[i].value);
        }
        i = i + 1;
    }
    proof {
        lemma_no_key(attrs@, key@);
    }
    None
}

proof fn lemma_no_key(attrs: Seq<Attribute>, key: Seq<char>)
    requires
        forall|j: int| 0 <= j < attrs.len() ==> (#[trigger] attrs[j]).key@ != key,
    ensures
        first_index_of_key(attrs, key) is None,
    decreases attrs.len(),
{
    if attrs.len() > 0 {
        let t = attrs.drop_first();
        assert forall|j: int| 0 <= j < t.len() implies (#[trigger] t[j]).key@ != key by {
            assert(t[j] == attrs[j + 1]);
        }
        lemma_no_key(t, key);
        assert(attrs[0].key@ != key);
    }
}

// ---- Extra attributes ---------------------------------------------------

/// The keys stored in columns of their own.
pub open spec fn is_core_key(k: Seq<char>) -> bool {
    k == "session.id"@ || k == "model"@ || k == "type"@ || k == "tool_name"@ || k == "decision"@
}

/// A value that the extra JSON can hold: a string, an integer, a double
/// or a boolean.
pub open spec fn is_scalar_value(v: Option<AttrValue>) -> bool {
    match v {
        Some(AttrValue::Str(_)) | Some(AttrValue::Int(_)) | Some(AttrValue::Double(_)) | Some(
            AttrValue::Bool(_),
        ) => true,
        _ => false,
    }
}

/// The attributes handed on to the extra JSON column: those with a scalar
/// value whose key has no column of its own, in their order. Duplicate
/// keys and non-finite doubles are still among them; the JSON object made
/// of them keeps the last value of a key, leaves such doubles out and
/// orders its keys.
pub open spec fn extra_attrs_spec(attrs: Seq<Attribute>) -> Seq<AttributeView>
    decreases attrs.len(),
{
    if attrs.len() == 0 {
        Seq::empty()
    } else {
        let rest = extra_attrs_spec(attrs.drop_last());
        let a = attrs.last();
        if !is_core_key(a.key@) && is_scalar_value(a.value) {
            rest.push(attr_view(a))
        } else {
            rest
        }
    }
}

fn clone_attr_value(v: &AttrValue) -> (r: AttrValue)
    ensures
        attr_value_view(r) == attr_value_view(*v),
{
    match v {
        AttrValue::Str(s) => AttrValue::Str(s.clone()),
        AttrValue::Bool(b) => AttrValue::Bool(*b),
        AttrValue::Int(i) => AttrValue::Int(*i),
        AttrValue::Double(d) => AttrValue::Double(*d),
        AttrValue::Other => AttrValue::Other,
    }
}

/// A copy of an attribute.
pub fn clone_attribute(a: &Attribute) -> (r: Attribute)
    ensures
        attr_view(r) == attr_view(*a),
{
    let value = match &a.value {
        Some(v) => Some(clone_attr_value(v)),
        None => None,
    };
    Attribute { key: a.key.clone(), value }
}

fn is_core(k: &String) -> (r: bool)
    ensures
        r == is_core_key(k@),
{
    *k == "session.id".to_owned() || *k == "model".to_owned() || *k == "type".to_owned() || *k
        == "tool_name".to_owned() || *k == "decision".to_owned()
}

/// The attributes that go into the extra JSON column.
pub fn extra_attributes(attrs: &[Attribute]) -> (r: Vec<Attribute>)
    ensures
        attrs_view(r@) == extra_attrs_spec(attrs@),
{
    let mut r: Vec<Attribute> = Vec::new();
    let mut i: usize = 0;
    while i < attrs.len()
        invariant
            i <= attrs@.len(),
            attrs_view(r@) == extra_attrs_spec(attrs@.subrange(0, i as int)),
        decreases attrs@.len() - i,
    {
        let a = &attrs[i];
        let ghost prefix = attrs@.subrange(0, i + 1);
        assert(prefix.drop_last() =~= attrs@.subrange(0, i as int));
        assert(prefix.last() == attrs@[i as int]);
        let scalar = match &a.value {
            Some(AttrValue::Str(_)) | Some(AttrValue::Int(_)) | Some(AttrValue::Double(_)) | Some(
                AttrValue::Bool(_),
            ) => true,
            _ => false,
        };
        if !is_core(&a.key) && scalar {
            let ghost before = r@;
            r.push(clone_attribute(a));
            assert(attrs_view(r@) =~= attrs_view(before).push(attr_view(*a)));
        }
        i = i + 1;
    }
    assert(attrs@.subrange(0, attrs@.len() as int) =~= attrs@);
    r
}

// ---- Series keys -------------------------------------------------------

pub open spec fn or_empty(o: Option<Seq<char>>) -> Seq<char> {
    match o {
        Some(s) => s,
        None => Seq::empty(),
    }
}

/// The key under which the last value of a cumulative series is kept:
/// session, metric name, type and model joined by `|`, an absent part
/// written as empty.
pub open spec fn series_key_spec(
    session_id: Option<Seq<char>>,
    metric_name: Seq<char>,
    metric_type: Option<Seq<char>>,
    model: Option<Seq<char>>,
) -> Seq<char> {
    or_empty(session_id) + seq!['|'] + metric_name + seq!['|'] + or_empty(metric_type) + seq!['|']
        + or_empty(model)
}

fn push_opt(s: &mut String, o: &Option<String>)
    ensures
        final(s)@ == old(s)@ + or_empty(opt_view(*o)),
{
    match o {
        Some(t) => {
            let v = chars_of(t.as_str());
            crate::text::push_chars(s, v.as_slice());
        },
        None => {
            assert(old(s)@ + Seq::<char>::empty() =~= old(s)@);
        },
    }
}

/// The key of a cumulative series.
pub fn delta_key(
    session_id: &Option<String>,
    metric_name: &str,
    metric_type: &Option<String>,
    model: &Option<String>,
) -> (r: String)
    ensures
        r@ == series_key_spec(opt_view(*session_id), metric_name@, opt_view(*metric_type), opt_view(*model)),
{
    let mut s = String::new();
    push_opt(&mut s, session_id);
    crate::text::push_char(&mut s, '|');
    let v = chars_of(metric_name);
    crate::text::push_chars(&mut s, v.as_slice());
    crate::text::push_char(&mut s, '|');
    push_opt(&mut s, metric_type);
    crate::text::push_char(&mut s, '|');
    push_opt(&mut s, model);
    assert(s@ =~= series_key_spec(opt_view(*session_id), metric_name@, opt_view(*metric_type), opt_view(*model)));
    s
}

// ---- Rows ----------------------------------------------------------------

/// How a number data point's value is to be read.
#[derive(Clone, Copy, PartialEq, Eq, Debug)]
pub enum PointKind {
    CumulativeSum,
    DeltaSum,
    Gauge,
}

/// A sum is cumulative when its aggregation temporality is 2
/// (`AGGREGATION_TEMPORALITY_CUMULATIVE`).
pub open spec fn sum_kind(aggregation_temporality: i32) -> PointKind {
    if aggregation_temporality == 2 {
        PointKind::CumulativeSum
    } else {
        PointKind::DeltaSum
    }
}

/// Whole seconds of a time in nanoseconds since the epoch.
pub open spec fn seconds_of_nanos(t: u64) -> i64 {
    (t / 1_000_000_000) as i64
}

/// The session of a point: its own `session.id`, else the resource's.
pub open spec fn point_session(attrs: Seq<Attribute>, resource_session: Option<Seq<char>>) -> Option<
    Seq<char>,
> {
    match string_attr_spec(attrs, "session.id"@) {
        Some(s) => Some(s),
        None => resource_session,
    }
}

/// The row of a data point with these attributes, time and value.
pub open spec fn point_row(
    name: Seq<char>,
    attrs: Seq<Attribute>,
    time_unix_nano: u64,
    value: DraftValueView,
    resource_session: Option<Seq<char>>,
) -> DraftView {
    DraftView {
        timestamp: seconds_of_nanos(time_unix_nano),
        metric_name: name,
        value,
        session_id: point_session(attrs, resource_session),
        model: string_attr_spec(attrs, "model"@),
        metric_type: string_attr_spec(attrs, "type"@),
        tool_name: string_attr_spec(attrs, "tool_name"@),
        decision: string_attr_spec(attrs, "decision"@),
        extra: extra_attrs_spec(attrs),
    }
}

/// The value of a number point's row.
pub open spec fn number_value_view(
    name: Seq<char>,
    p: NumberPoint,
    kind: PointKind,
    resource_session: Option<Seq<char>>,
) -> DraftValueView {
    let attrs = p.attributes@;
    match kind {
        PointKind::CumulativeSum => DraftValueView::Cumulative {
            raw: p.value,
            series_key: series_key_spec(
                point_session(attrs, resource_session),
                name,
                string_attr_spec(attrs, "type"@),
                string_attr_spec(attrs, "model"@),
            ),
        },
        PointKind::DeltaSum => DraftValueView::Delta(p.value),
        PointKind::Gauge => DraftValueView::Gauge(p.value),
    }
}

pub open spec fn number_point_row(
    name: Seq<char>,
    p: NumberPoint,
    kind: PointKind,
    resource_session: Option<Seq<char>>,
) -> DraftView {
    point_row(
        name,
        p.attributes@,
        p.time_unix_nano,
        number_value_view(name, p, kind, resource_session),
        resource_session,
    )
}

pub open spec fn histogram_point_row(
    name: Seq<char>,
    p: HistogramPoint,
    resource_session: Option<Seq<char>>,
) -> DraftView {
    point_row(
        name,
        p.attributes@,
        p.time_unix_nano,
        DraftValueView::HistogramSum(p.sum),
        resource_session,
    )
}

pub open spec fn number_points_rows(
    name: Seq<char>,
    ps: Seq<NumberPoint>,
    kind: PointKind,
    resource_session: Option<Seq<char>>,
) -> Seq<DraftView>
    decreases ps.len(),
{
    if ps.len() == 0 {
        Seq::empty()
    } else {
        number_points_rows(name, ps.drop_last(), kind, resource_session).push(
            number_point_row(name, ps.last(), kind, resource_session),
        )
    }
}

pub open spec fn histogram_points_rows(
    name: Seq<char>,
    ps: Seq<HistogramPoint>,
    resource_session: Option<Seq<char>>,
) -> Seq<DraftView>
    decreases ps.len(),
{
    if ps.len() == 0 {
        Seq::empty()
    } else {
        histogram_points_rows(name, ps.drop_last(), resource_session).push(
            histogram_point_row(name, ps.last(), resource_session),
        )
    }
}

/// The rows of a metric: one per data point of a sum, gauge or histogram,
/// none for other kinds.
pub open spec fn metric_rows(m: MetricEntry, resource_session: Option<Seq<char>>) -> Seq<DraftView> {
    match m.data {
        MetricData::Sum { aggregation_temporality, points } => number_points_rows(
            m.name@,
            points@,
            sum_kind(aggregation_temporality),
            resource_session,
        ),
        MetricData::Gauge { points } => number_points_rows(
            m.name@,
            points@,
            PointKind::Gauge,
            resource_session,
        ),
        MetricData::Histogram { histogram_points: points } => histogram_points_rows(
            m.name@,
            points@,
            resource_session,
        ),
        MetricData::Other => Seq::empty(),
    }
}

pub open spec fn metrics_rows(ms: Seq<MetricEntry>, resource_session: Option<Seq<char>>) -> Seq<
    DraftView,
>
    decreases ms.len(),
{
    if ms.len() == 0 {
        Seq::empty()
    } else {
        metrics_rows(ms.drop_last(), resource_session) + metric_rows(ms.last(), resource_session)
    }
}

pub open spec fn scopes_rows(ss: Seq<ScopeBatch>, resource_session: Option<Seq<char>>) -> Seq<
    DraftView,
>
    decreases ss.len(),
{
    if ss.len() == 0 {
        Seq::empty()
    } else {
        scopes_rows(ss.drop_last(), resource_session) + metrics_rows(
            ss.last().metrics@,
            resource_session,
        )
    }
}

/// The `session.id` of a resource.
pub open spec fn resource_session(rm: ResourceBatch) -> Option<Seq<char>> {
    match rm.resource {
        Some(attrs) => string_attr_spec(attrs@, "session.id"@),
        None => None,
    }
}

pub open spec fn resources_rows(rms: Seq<ResourceBatch>) -> Seq<DraftView>
    decreases rms.len(),
{
    if rms.len() == 0 {
        Seq::empty()
    } else {
        resources_rows(rms.drop_last()) + scopes_rows(
            rms.last().scope_metrics@,
            resource_session(rms.last()),
        )
    }
}

/// The rows of an export request, in the order of its resources, scopes,
/// metrics and data points.
pub open spec fn request_rows(req: ExportRequest) -> Seq<DraftView> {
    resources_rows(req.resource_metrics@)
}

fn clone_opt(o: &Option<String>) -> (r: Option<String>)
    ensures
        opt_view(r) == opt_view(*o),
{
    match o {
        Some(s) => Some(s.clone()),
        None => None,
    }
}

proof fn lemma_drafts_push(a: Seq<RowDraft>, d: RowDraft)
    ensures
        drafts_view(a.push(d)) == drafts_view(a).push(draft_view(d)),
{
    assert(drafts_view(a.push(d)) =~= drafts_view(a).push(draft_view(d)));
}

fn point_draft(
    name: &String,
    attrs: &Vec<Attribute>,
    time_unix_nano: u64,
    value: DraftValue,
    session_id: Option<String>,
    metric_type: Option<String>,
    model: Option<String>,
) -> (d: RowDraft)
    ensures
        draft_view(d) == (DraftView {
            timestamp: seconds_of_nanos(time_unix_nano),
            metric_name: name@,
            value: draft_value_view(value),
            session_id: opt_view(session_id),
            model: opt_view(model),
            metric_type: opt_view(metric_type),
            tool_name: string_attr_spec(attrs@, "tool_name"@),
            decision: string_attr_spec(attrs@, "decision"@),
            extra: extra_attrs_spec(attrs@),
        }),
{
    let tool_name = find_string_attr(attrs.as_slice(), "tool_name");
    let decision = find_string_attr(attrs.as_slice(), "decision");
    let extra = extra_attributes(attrs.as_slice());
    RowDraft {
        timestamp: (time_unix_nano / 1_000_000_000) as i64,
        metric_name: name.clone(),
        value,
        session_id,
        model,
        metric_type,
        tool_name,
        decision,
        extra,
    }
}

fn session_of(attrs: &Vec<Attribute>, resource_session: &Option<String>) -> (r: Option<String>)
    ensures
        opt_view(r) == point_session(attrs@, opt_view(*resource_session)),
{
    match find_string_attr(attrs.as_slice(), "session.id") {
        Some(s) => Some(s),
        None => clone_opt(resource_session),
    }
}

fn push_number_points(
    out: &mut Vec<RowDraft>,
    name: &String,
    points: &Vec<NumberPoint>,
    kind: PointKind,
    resource_session: &Option<String>,
)
    ensures
        drafts_view(final(out)@) == drafts_view(old(out)@) + number_points_rows(
            name@,
            points@,
            kind,
            opt_view(*resource_session),
        ),
{
    let ghost rs = opt_view(*resource_session);
    let mut i: usize = 0;
    while i < points.len()
        invariant
            i <= points@.len(),
            rs == opt_view(*resource_session),
            drafts_view(out@) == drafts_view(old(out)@) + number_points_rows(
                name@,
                points@.subrange(0, i as int),
                kind,
                rs,
            ),
        decreases points@.len() - i,
    {
        let p = &points[i];
        let session_id = session_of(&p.attributes, resource_session);
        let model = find_string_attr(p.attributes.as_slice(), "model");
        let metric_type = find_string_attr(p.attributes.as_slice(), "type");
        let value = match kind {
            PointKind::CumulativeSum => DraftValue::Cumulative {
                raw: p.value,
                series_key: delta_key(&session_id, name.as_str(), &metric_type, &model),
            },
            PointKind::DeltaSum => DraftValue::Delta(p.value),
            PointKind::Gauge => DraftValue::Gauge(p.value),
        };
        let d = point_draft(name, &p.attributes, p.time_unix_nano, value, session_id, metric_type, model);
        let ghost before = out@;
        out.push(d);
        proof {
            lemma_drafts_push(before, d);
            let pre = points@.subrange(0, i + 1);
            assert(pre.drop_last() =~= points@.subrange(0, i as int));
            assert(pre.last() == points@[i as int]);
            assert(draft_view(d) == number_point_row(name@, *p, kind, rs));
            assert(drafts_view(out@) =~= drafts_view(old(out)@) + number_points_rows(
                name@,
                pre,
                kind,
                rs,
            ));
        }
        i = i + 1;
    }
    assert(points@.subrange(0, points@.len() as int) =~= points@);
}

fn push_histogram_points(
    out: &mut Vec<RowDraft>,
    name: &String,
    points: &Vec<HistogramPoint>,
    resource_session: &Option<String>,
)
    ensures
        drafts_view(final(out)@) == drafts_view(old(out)@) + histogram_points_rows(
            name@,
            points@,
            opt_view(*resource_session),
        ),
{
    let ghost rs = opt_view(*resource_session);
    let mut i: usize = 0;
    while i < points.len()
        invariant
            i <= points@.len(),
            rs == opt_view(*resource_session),
            drafts_view(out@) == drafts_view(old(out)@) + histogram_points_rows(
                name@,
                points@.subrange(0, i as int),
                rs,
            ),
        decreases points@.len() - i,
    {
        let p = &points[i];
        let session_id = session_of(&p.attributes, resource_session);
        let model = find_string_attr(p.attributes.as_slice(), "model");
        let metric_type = find_string_attr(p.attributes.as_slice(), "type");
        let value = DraftValue::HistogramSum(p.sum);
        let d = point_draft(name, &p.attributes, p.time_unix_nano, value, session_id, metric_type, model);
        let ghost before = out@;
        out.push(d);
        proof {
            lemma_drafts_push(before, d);
            let pre = points@.subrange(0, i + 1);
            assert(pre.drop_last() =~= points@.subrange(0, i as int));
            assert(pre.last() == points@[i as int]);
            assert(drafts_view(out@) =~= drafts_view(old(out)@) + histogram_points_rows(
                name@,
                pre,
                rs,
            ));
        }
        i = i + 1;
    }
    assert(points@.subrange(0, points@.len() as int) =~= points@);
}

fn push_metric(out: &mut Vec<RowDraft>, m: &MetricEntry, resource_session: &Option<String>)
    ensures
        drafts_view(final(out)@) == drafts_view(old(out)@) + metric_rows(
            *m,
            opt_view(*resource_session),
        ),
{
    match &m.data {
        MetricData::Sum { aggregation_temporality, points } => {
            let kind = if *aggregation_temporality == 2 {
                PointKind::CumulativeSum
            } else {
                PointKind::DeltaSum
            };
            push_number_points(out, &m.name, points, kind, resource_session);
        },
        MetricData::Gauge { points } => {
            push_number_points(out, &m.name, points, PointKind::Gauge, resource_session);
        },
        MetricData::Histogram { histogram_points: points } => {
            push_histogram_points(out, &m.name, points, resource_session);
        },
        MetricData::Other => {
            assert(drafts_view(out@) + Seq::<DraftView>::empty() =~= drafts_view(out@));
        },
    }
}

fn push_metrics(out: &mut Vec<RowDraft>, ms: &Vec<MetricEntry>, resource_session: &Option<String>)
    ensures
        drafts_view(final(out)@) == drafts_view(old(out)@) + metrics_rows(
            ms@,
            opt_view(*resource_session),
        ),
{
    let ghost rs = opt_view(*resource_session);
    let mut i: usize = 0;
    while i < ms.len()
        invariant
            i <= ms@.len(),
            rs == opt_view(*resource_session),
            drafts_view(out@) == drafts_view(old(out)@) + metrics_rows(
                ms@.subrange(0, i as int),
                rs,
            ),
        decreases ms@.len() - i,
    {
        push_metric(out, &ms[i], resource_session);
        proof {
            let pre = ms@.subrange(0, i + 1);
            assert(pre.drop_last() =~= ms@.subrange(0, i as int));
            assert(pre.last() == ms@[i as int]);
            assert(drafts_view(out@) =~= drafts_view(old(out)@) + metrics_rows(pre, rs));
        }
        i = i + 1;
    }
    assert(ms@.subrange(0, ms@.len() as int) =~= ms@);
}

fn push_scopes(out: &mut Vec<RowDraft>, ss: &Vec<ScopeBatch>, resource_session: &Option<String>)
    ensures
        drafts_view(final(out)@) == drafts_view(old(out)@) + scopes_rows(
            ss@,
            opt_view(*resource_session),
        ),
{
    let ghost rs = opt_view(*resource_session);
    let mut i: usize = 0;
    while i < ss.len()
        invariant
            i <= ss@.len(),
            rs == opt_view(*resource_session),
            drafts_view(out@) == drafts_view(old(out)@) + scopes_rows(
                ss@.subrange(0, i as int),
                rs,
            ),
        decreases ss@.len() - i,
    {
        push_metrics(out, &ss[i].metrics, resource_session);
        proof {
            let pre = ss@.subrange(0, i + 1);
            assert(pre.drop_last() =~= ss@.subrange(0, i as int));
            assert(pre.last() == ss@[i as int]);
            assert(drafts_view(out@) =~= drafts_view(old(out)@) + scopes_rows(pre, rs));
        }
        i = i + 1;
    }
    assert(ss@.subrange(0, ss@.len() as int) =~= ss@);
}

/// The rows that an export request yields, one per data point of its
/// sums, gauges and histograms, in order (see [`request_rows`]).
pub fn extract_rows(req: &ExportRequest) -> (rows: Vec<RowDraft>)
    ensures
        drafts_view(rows@) == request_rows(*req),
{
    let mut out: Vec<RowDraft> = Vec::new();
    let rms = &req.resource_metrics;
    let mut i: usize = 0;
    while i < rms.len()
        invariant
            i <= rms@.len(),
            rms == &req.resource_metrics,
            drafts_view(out@) == resources_rows(rms@.subrange(0, i as int)),
        decreases rms@.len() - i,
    {
        let rm = &rms[i];
        let session = match &rm.resource {
            Some(attrs) => find_string_attr(attrs.as_slice(), "session.id"),
            None => None,
        };
        assert(opt_view(session) == resource_session(*rm));
        push_scopes(&mut out, &rm.scope_metrics, &session);
        proof {
            let pre = rms@.subrange(0, i + 1);
            assert(pre.drop_last() =~= rms@.subrange(0, i as int));
            assert(pre.last() == rms@[i as int]);
            assert(drafts_view(out@) =~= resources_rows(pre));
        }
        i = i + 1;
    }
    assert(rms@.subrange(0, rms@.len() as int) =~= rms@);
    out
}

// ---- Content type --------------------------------------------------------

/// `needle` occurs in `hay` starting at `i`.
pub open spec fn occurs_at(hay: Seq<char>, needle: Seq<char>, i: int) -> bool {
    0 <= i && i + needle.len() <= hay.len() && hay.subrange(i, i + needle.len()) == needle
}

/// `needle` occurs somewhere in `hay` (`str::contains`).
pub open spec fn contains_seq(hay: Seq<char>, needle: Seq<char>) -> bool {
    exists|i: int| occurs_at(hay, needle, i)
}

/// Whether `needle` occurs in `hay`.
pub fn contains_str(hay: &str, needle: &str) -> (r: bool)
    ensures
        r == contains_seq(hay@, needle@),
{
    let h = chars_of(hay);
    let n = chars_of(needle);
    if n.len() > h.len() {
        assert forall|i: int| !occurs_at(hay@, needle@, i) by {}
        return false;
    }
    if n.len() == 0 {
        assert(hay@.subrange(0, 0) =~= needle@);
        assert(occurs_at(hay@, needle@, 0));
        return true;
    }
    let last = h.len() - n.len();
    let mut i: usize = 0;
    while i <= last
        invariant
            h@ == hay@,
            n@ == needle@,
            1 <= n@.len() <= h@.len(),
            h@.len() <= usize::MAX,
            last == h@.len() - n@.len(),
            i <= last + 1,
            forall|k: int| 0 <= k < i ==> !occurs_at(hay@, needle@, k),
        decreases last + 1 - i,
    {
        let mut j: usize = 0;
        while j < n.len() && h[i + j] == n[j]
            invariant
                h@ == hay@,
                n@ == needle@,
                i <= last,
                n@.len() <= h@.len(),
                h@.len() <= usize::MAX,
                last == h@.len() - n@.len(),
                j <= n@.len(),
                forall|k: int| 0 <= k < j ==> h@[i + k] == n@[k],
            decreases n@.len() - j,
        {
            j = j + 1;
        }
        if j == n.len() {
            assert(hay@.subrange(i as int, i + needle@.len()) =~= needle@);
            assert(occurs_at(hay@, needle@, i as int));
            return true;
        }
        assert(!occurs_at(hay@, needle@, i as int)) by {
            if occurs_at(hay@, needle@, i as int) {
                assert(hay@.subrange(i as int, i + needle@.len())[j as int] == h@[i + j]);
            }
        }
        i = i + 1;
    }
    assert forall|k: int| !occurs_at(hay@, needle@, k) by {
        if occurs_at(hay@, needle@, k) {
            assert(0 <= k < i);
        }
    }
    false
}

/// The content types the collector accepts: none given, or one that
/// mentions `protobuf` or `octet-stream`.
pub open spec fn accepts_content_type_spec(ct: Seq<char>) -> bool {
    ct.len() == 0 || contains_seq(ct, "protobuf"@) || contains_seq(ct, "octet-stream"@)
}

/// Whether a metrics export with this content type is read; the others
/// are answered 415 Unsupported Media Type.
pub fn accepts_content_type(ct: &str) -> (r: bool)
    ensures
        r == accepts_content_type_spec(ct@),
{
    ct.unicode_len() == 0 || contains_str(ct, "protobuf") || contains_str(ct, "octet-stream")
}

// ---- Laws ----------------------------------------------------------------

pub open spec fn has_no_bar(s: Seq<char>) -> bool {
    forall|i: int| 0 <= i < s.len() ==> s[i] != '|'
}

proof fn lemma_split_at_first_bar(a: Seq<char>, b: Seq<char>, c: Seq<char>, d: Seq<char>)
    requires
        has_no_bar(a),
        has_no_bar(c),
        a + seq!['|'] + b == c + seq!['|'] + d,
    ensures
        a == c,
        b == d,
{
    let x = a + seq!['|'] + b;
    let y = c + seq!['|'] + d;
    if a.len() < c.len() {
        assert(x[a.len() as int] == '|');
        assert(y[a.len() as int] == c[a.len() as int]);
    } else if c.len() < a.len() {
        assert(y[c.len() as int] == '|');
        assert(x[c.len() as int] == a[c.len() as int]);
    }
    assert(a =~= x.subrange(0, a.len() as int));
    assert(c =~= y.subrange(0, c.len() as int));
    assert(b =~= x.subrange(a.len() as int + 1, x.len() as int));
    assert(d =~= y.subrange(c.len() as int + 1, y.len() as int));
}

/// Series keys tell series apart: when no part holds a `|`, equal keys
/// come from the same session, metric, type and model (an absent part
/// and an empty one being the same).
pub proof fn lemma_series_key_distinguishes(
    session1: Option<Seq<char>>,
    name1: Seq<char>,
    type1: Option<Seq<char>>,
    model1: Option<Seq<char>>,
    session2: Option<Seq<char>>,
    name2: Seq<char>,
    type2: Option<Seq<char>>,
    model2: Option<Seq<char>>,
)
    requires
        has_no_bar(or_empty(session1)),
        has_no_bar(name1),
        has_no_bar(or_empty(type1)),
        has_no_bar(or_empty(session2)),
        has_no_bar(name2),
        has_no_bar(or_empty(type2)),
        series_key_spec(session1, name1, type1, model1) == series_key_spec(
            session2,
            name2,
            type2,
            model2,
        ),
    ensures
        or_empty(session1) == or_empty(session2),
        name1 == name2,
        or_empty(type1) == or_empty(type2),
        or_empty(model1) == or_empty(model2),
{
    let bar = seq!['|'];
    let (s1, t1, m1) = (or_empty(session1), or_empty(type1), or_empty(model1));
    let (s2, t2, m2) = (or_empty(session2), or_empty(type2), or_empty(model2));
    let r1 = name1 + bar + (t1 + bar + m1);
    let r2 = name2 + bar + (t2 + bar + m2);
    assert(series_key_spec(session1, name1, type1, model1) =~= s1 + bar + r1);
    assert(series_key_spec(session2, name2, type2, model2) =~= s2 + bar + r2);
    lemma_split_at_first_bar(s1, r1, s2, r2);
    lemma_split_at_first_bar(name1, t1 + bar + m1, name2, t2 + bar + m2);
    lemma_split_at_first_bar(t1, m1, t2, m2);
}

/// The extra attributes never repeat a column: none has a key stored in
/// a column of its own, and each has a scalar value.
pub proof fn lemma_extra_attrs_exclude_columns(attrs: Seq<Attribute>)
    ensures
        forall|i: int|
            0 <= i < extra_attrs_spec(attrs).len() ==> !is_core_key(
                #[trigger] extra_attrs_spec(attrs)[i].key,
            ) && extra_attrs_spec(attrs)[i].value is Some,
        extra_attrs_spec(attrs).len() <= attrs.len(),
    decreases attrs.len(),
{
    if attrs.len() > 0 {
        lemma_extra_attrs_exclude_columns(attrs.drop_last());
    }
}

/// The number of data points of a metric that the store reads.
pub open spec fn metric_point_count(m: MetricEntry) -> nat {
    match m.data {
        MetricData::Sum { points, .. } => points@.len(),
        MetricData::Gauge { points } => points@.len(),
        MetricData::Histogram { histogram_points: points } => points@.len(),
        MetricData::Other => 0,
    }
}

pub open spec fn metrics_point_count(ms: Seq<MetricEntry>) -> nat
    decreases ms.len(),
{
    if ms.len() == 0 {
        0
    } else {
        metrics_point_count(ms.drop_last()) + metric_point_count(ms.last())
    }
}

pub open spec fn scopes_point_count(ss: Seq<ScopeBatch>) -> nat
    decreases ss.len(),
{
    if ss.len() == 0 {
        0
    } else {
        scopes_point_count(ss.drop_last()) + metrics_point_count(ss.last().metrics@)
    }
}

pub open spec fn resources_point_count(rms: Seq<ResourceBatch>) -> nat
    decreases rms.len(),
{
    if rms.len() == 0 {
        0
    } else {
        resources_point_count(rms.drop_last()) + scopes_point_count(rms.last().scope_metrics@)
    }
}

proof fn lemma_number_rows_len(
    name: Seq<char>,
    ps: Seq<NumberPoint>,
    kind: PointKind,
    rs: Option<Seq<char>>,
)
    ensures
        number_points_rows(name, ps, kind, rs).len() == ps.len(),
    decreases ps.len(),
{
    if ps.len() > 0 {
        lemma_number_rows_len(name, ps.drop_last(), kind, rs);
    }
}

proof fn lemma_histogram_rows_len(name: Seq<char>, ps: Seq<HistogramPoint>, rs: Option<Seq<char>>)
    ensures
        histogram_points_rows(name, ps, rs).len() == ps.len(),
    decreases ps.len(),
{
    if ps.len() > 0 {
        lemma_histogram_rows_len(name, ps.drop_last(), rs);
    }
}

proof fn lemma_metric_rows_len(m: MetricEntry, rs: Option<Seq<char>>)
    ensures
        metric_rows(m, rs).len() == metric_point_count(m),
{
    match m.data {
        MetricData::Sum { aggregation_temporality, points } => {
            lemma_number_rows_len(m.name@, points@, sum_kind(aggregation_temporality), rs);
        },
        MetricData::Gauge { points } => {
            lemma_number_rows_len(m.name@, points@, PointKind::Gauge, rs);
        },
        MetricData::Histogram { histogram_points: points } => {
            lemma_histogram_rows_len(m.name@, points@, rs);
        },
        MetricData::Other => {},
    }
}

proof fn lemma_metrics_rows_len(ms: Seq<MetricEntry>, rs: Option<Seq<char>>)
    ensures
        metrics_rows(ms, rs).len() == metrics_point_count(ms),
    decreases ms.len(),
{
    if ms.len() > 0 {
        lemma_metrics_rows_len(ms.drop_last(), rs);
        lemma_metric_rows_len(ms.last(), rs);
    }
}

proof fn lemma_scopes_rows_len(ss: Seq<ScopeBatch>, rs: Option<Seq<char>>)
    ensures
        scopes_rows(ss, rs).len() == scopes_point_count(ss),
    decreases ss.len(),
{
    if ss.len() > 0 {
        lemma_scopes_rows_len(ss.drop_last(), rs);
        lemma_metrics_rows_len(ss.last().metrics@, rs);
    }
}

proof fn lemma_resources_rows_len(rms: Seq<ResourceBatch>)
    ensures
        resources_rows(rms).len() == resources_point_count(rms),
    decreases rms.len(),
{
    if rms.len() > 0 {
        lemma_resources_rows_len(rms.drop_last());
        lemma_scopes_rows_len(rms.last().scope_metrics@, resource_session(rms.last()));
    }
}

/// An export yields exactly one row per data point of its sums, gauges
/// and histograms.
pub proof fn lemma_one_row_per_point(req: ExportRequest)
    ensures
        request_rows(req).len() == resources_point_count(req.resource_metrics@),
{
    lemma_resources_rows_len(req.resource_metrics@);
}

proof fn lemma_number_rows_index(
    name: Seq<char>,
    ps: Seq<NumberPoint>,
    kind: PointKind,
    rs: Option<Seq<char>>,
    i: int,
)
    requires
        0 <= i < ps.len(),
    ensures
        number_points_rows(name, ps, kind, rs)[i] == number_point_row(name, ps[i], kind, rs),
    decreases ps.len(),
{
    lemma_number_rows_len(name, ps.drop_last(), kind, rs);
    if i < ps.len() - 1 {
        lemma_number_rows_index(name, ps.drop_last(), kind, rs, i);
    }
}

proof fn lemma_histogram_rows_index(
    name: Seq<char>,
    ps: Seq<HistogramPoint>,
    rs: Option<Seq<char>>,
    i: int,
)
    requires
        0 <= i < ps.len(),
    ensures
        histogram_points_rows(name, ps, rs)[i] == histogram_point_row(name, ps[i], rs),
    decreases ps.len(),
{
    lemma_histogram_rows_len(name, ps.drop_last(), rs);
    if i < ps.len() - 1 {
        lemma_histogram_rows_index(name, ps.drop_last(), rs, i);
    }
}

/// The attributes of a metric's `i`-th data point.
pub open spec fn metric_point_attrs(m: MetricEntry, i: int) -> Seq<Attribute> {
    match m.data {
        MetricData::Sum { points, .. } => points@[i].attributes@,
        MetricData::Gauge { points } => points@[i].attributes@,
        MetricData::Histogram { histogram_points: points } => points@[i].attributes@,
        MetricData::Other => Seq::empty(),
    }
}

/// The time of a metric's `i`-th data point, in nanoseconds.
pub open spec fn metric_point_time(m: MetricEntry, i: int) -> u64 {
    match m.data {
        MetricData::Sum { points, .. } => points@[i].time_unix_nano,
        MetricData::Gauge { points } => points@[i].time_unix_nano,
        MetricData::Histogram { histogram_points: points } => points@[i].time_unix_nano,
        MetricData::Other => 0,
    }
}

/// The value of a sum's or gauge's `i`-th data point.
pub open spec fn metric_point_value(m: MetricEntry, i: int) -> Option<NumberValue> {
    match m.data {
        MetricData::Sum { points, .. } => points@[i].value,
        MetricData::Gauge { points } => points@[i].value,
        _ => None,
    }
}

/// Each data point of a sum, gauge or histogram gives the row at its own
/// place, carrying the metric's name, the point's `type` and `model`, and
/// as its session the point's own `session.id`, else the `session.id` of
/// its resource.
pub proof fn lemma_row_of_point(m: MetricEntry, resource_session: Option<Seq<char>>, i: int)
    requires
        0 <= i < metric_point_count(m),
    ensures
        metric_rows(m, resource_session).len() == metric_point_count(m),
        metric_rows(m, resource_session)[i].metric_name == m.name@,
        metric_rows(m, resource_session)[i].timestamp == metric_point_time(m, i) / 1_000_000_000,
        metric_rows(m, resource_session)[i].metric_type == string_attr_spec(
            metric_point_attrs(m, i),
            "type"@,
        ),
        metric_rows(m, resource_session)[i].model == string_attr_spec(
            metric_point_attrs(m, i),
            "model"@,
        ),
        string_attr_spec(metric_point_attrs(m, i), "session.id"@) is Some ==> metric_rows(
            m,
            resource_session,
        )[i].session_id == string_attr_spec(metric_point_attrs(m, i), "session.id"@),
        string_attr_spec(metric_point_attrs(m, i), "session.id"@) is None ==> metric_rows(
            m,
            resource_session,
        )[i].session_id == resource_session,
{
    lemma_metric_rows_len(m, resource_session);
    match m.data {
        MetricData::Sum { aggregation_temporality, points } => {
            lemma_number_rows_index(m.name@, points@, sum_kind(aggregation_temporality), resource_session, i);
        },
        MetricData::Gauge { points } => {
            lemma_number_rows_index(m.name@, points@, PointKind::Gauge, resource_session, i);
        },
        MetricData::Histogram { histogram_points: points } => {
            lemma_histogram_rows_index(m.name@, points@, resource_session, i);
        },
        MetricData::Other => {},
    }
}

/// What each point of a sum or gauge hands on: a cumulative sum's point
/// its value under the key of its row's own session, metric, type and
/// model; a delta sum's and a gauge's point its value as it is.
pub proof fn lemma_number_row_value(m: MetricEntry, resource_session: Option<Seq<char>>, i: int)
    requires
        0 <= i < metric_point_count(m),
        m.data is Sum || m.data is Gauge,
    ensures
        ({
            let row = metric_rows(m, resource_session)[i];
            match m.data {
                MetricData::Sum { aggregation_temporality, .. } => if aggregation_temporality == 2 {
                    row.value == DraftValueView::Cumulative {
                        raw: metric_point_value(m, i),
                        series_key: series_key_spec(
                            row.session_id,
                            row.metric_name,
                            row.metric_type,
                            row.model,
                        ),
                    }
                } else {
                    row.value == DraftValueView::Delta(metric_point_value(m, i))
                },
                _ => row.value == DraftValueView::Gauge(metric_point_value(m, i)),
            }
        }),
{
    lemma_row_of_point(m, resource_session, i);
    match m.data {
        MetricData::Sum { aggregation_temporality, points } => {
            lemma_number_rows_index(m.name@, points@, sum_kind(aggregation_temporality), resource_session, i);
        },
        MetricData::Gauge { points } => {
            lemma_number_rows_index(m.name@, points@, PointKind::Gauge, resource_session, i);
        },
        _ => {},
    }
}

/// An export of one resource holding one scope with one metric gives
/// that metric's rows, read with the resource's `session.id`.
pub proof fn lemma_rows_of_single_metric(req: ExportRequest, rm: ResourceBatch, sc: ScopeBatch, m: MetricEntry)
    requires
        req.resource_metrics@ == seq![rm],
        rm.scope_metrics@ == seq![sc],
        sc.metrics@ == seq![m],
    ensures
        request_rows(req) == metric_rows(
            m,
            match rm.resource {
                Some(attrs) => string_attr_spec(attrs@, "session.id"@),
                None => None,
            },
        ),
{
    let rs = resource_session(rm);
    assert(seq![rm].drop_last() =~= Seq::<ResourceBatch>::empty());
    assert(seq![sc].drop_last() =~= Seq::<ScopeBatch>::empty());
    assert(seq![m].drop_last() =~= Seq::<MetricEntry>::empty());
    assert(seq![m].last() == m);
    assert(metrics_rows(seq![m], rs) == metrics_rows(Seq::<MetricEntry>::empty(), rs) + metric_rows(m, rs));
    assert(metrics_rows(seq![m], rs) =~= metric_rows(m, rs));
    assert(seq![sc].last() == sc);
    assert(scopes_rows(seq![sc], rs) == scopes_rows(Seq::<ScopeBatch>::empty(), rs) + metrics_rows(sc.metrics@, rs));
    assert(scopes_rows(seq![sc], rs) =~= metrics_rows(seq![m], rs));
    assert(seq![rm].last() == rm);
    assert(resources_rows(seq![rm]) == resources_rows(Seq::<ResourceBatch>::empty()) + scopes_rows(rm.scope_metrics@, rs));
    assert(resources_rows(seq![rm]) =~= scopes_rows(seq![sc], rs));
}

/// The rows of an export whose resources are those of two exports, one
/// after the other, are the rows of the first followed by those of the
/// second.
pub proof fn lemma_rows_concatenate(a: ExportRequest, b: ExportRequest, c: ExportRequest)
    requires
        c.resource_metrics@ == a.resource_metrics@ + b.resource_metrics@,
    ensures
        request_rows(c) == request_rows(a) + request_rows(b),
{
    lemma_resources_rows_concat(a.resource_metrics@, b.resource_metrics@);
}

proof fn lemma_resources_rows_concat(x: Seq<ResourceBatch>, y: Seq<ResourceBatch>)
    ensures
        resources_rows(x + y) == resources_rows(x) + resources_rows(y),
    decreases y.len(),
{
    if y.len() == 0 {
        assert(x + y =~= x);
        assert(resources_rows(x) + Seq::<DraftView>::empty() =~= resources_rows(x));
    } else {
        lemma_resources_rows_concat(x, y.drop_last());
        assert((x + y).drop_last() =~= x + y.drop_last());
        assert((x + y).last() == y.last());
        assert(resources_rows(x + y) =~= resources_rows(x) + resources_rows(y));
    }
}

proof fn lemma_cancel_around(p: Seq<char>, a: Seq<char>, b: Seq<char>, q: Seq<char>)
    requires
        p + a + q == p + b + q,
    ensures
        a == b,
{
    let x = p + a + q;
    let y = p + b + q;
    assert(x.len() == p.len() + a.len() + q.len());
    assert(y.len() == p.len() + b.len() + q.len());
    assert(a.len() == b.len());
    assert forall|k: int| 0 <= k < a.len() implies a[k] == b[k] by {
        assert(x[p.len() + k] == a[k]);
        assert(y[p.len() + k] == b[k]);
    }
    assert(a =~= b);
}

/// Two points of one cumulative sum with the same session and model but
/// different `type` attributes are kept as different series (a missing
/// `type` and an empty one being the same).
pub proof fn lemma_cumulative_series_split_by_type(
    m: MetricEntry,
    resource_session: Option<Seq<char>>,
    i: int,
    j: int,
)
    requires
        m.data matches MetricData::Sum { aggregation_temporality, .. } && aggregation_temporality
            == 2,
        0 <= i < metric_point_count(m),
        0 <= j < metric_point_count(m),
        metric_rows(m, resource_session)[i].session_id == metric_rows(m, resource_session)[j].session_id,
        string_attr_spec(metric_point_attrs(m, i), "model"@) == string_attr_spec(
            metric_point_attrs(m, j),
            "model"@,
        ),
        or_empty(string_attr_spec(metric_point_attrs(m, i), "type"@)) != or_empty(
            string_attr_spec(metric_point_attrs(m, j), "type"@),
        ),
    ensures
        metric_rows(m, resource_session)[i].value->series_key != metric_rows(
            m,
            resource_session,
        )[j].value->series_key,
{
    lemma_row_of_point(m, resource_session, i);
    lemma_row_of_point(m, resource_session, j);
    lemma_number_row_value(m, resource_session, i);
    lemma_number_row_value(m, resource_session, j);
    let ri = metric_rows(m, resource_session)[i];
    let rj = metric_rows(m, resource_session)[j];
    let p = or_empty(ri.session_id) + seq!['|'] + m.name@ + seq!['|'];
    let q = seq!['|'] + or_empty(ri.model);
    let ti = or_empty(ri.metric_type);
    let tj = or_empty(rj.metric_type);
    assert(series_key_spec(ri.session_id, m.name@, ri.metric_type, ri.model) =~= p + ti + q);
    assert(series_key_spec(rj.session_id, m.name@, rj.metric_type, rj.model) =~= p + tj + q);
    if p + ti + q == p + tj + q {
        lemma_cancel_around(p, ti, tj, q);
    }
}

// ---- Keeping delta points -------------------------------------------------------

/// An IEEE-754 double with these bits is at most zero: positive zero, or
/// the sign bit set with a magnitude that is not a NaN (negative zero,
/// negative numbers and negative infinity). A NaN of either sign compares
/// false with zero and is not among them.
pub open spec fn double_bits_at_most_zero(bits: u64) -> bool {
    bits == 0 || (bits >= 0x8000_0000_0000_0000 && bits - 0x8000_0000_0000_0000
        <= 0x7ff0_0000_0000_0000)
}

/// A delta sum's point is stored unless its value is at most zero; an
/// absent value counts as zero.
pub open spec fn delta_value_kept_spec(v: Option<NumberValue>) -> bool {
    match v {
        None => false,
        Some(NumberValue::AsInt(i)) => i > 0,
        Some(NumberValue::AsDouble(bits)) => !double_bits_at_most_zero(bits),
    }
}

/// Whether a delta sum's point is stored.
pub fn delta_value_kept(v: &Option<NumberValue>) -> (r: bool)
    ensures
        r == delta_value_kept_spec(*v),
{
    match v {
        None => false,
        Some(NumberValue::AsInt(i)) => *i > 0,
        Some(NumberValue::AsDouble(bits)) => {
            let at_most_zero: bool = *bits == 0 || (*bits >= 0x8000_0000_0000_0000 && *bits
                - 0x8000_0000_0000_0000 <= 0x7ff0_0000_0000_0000);
            !at_most_zero
        },
    }
}

// ---- Entries of the extra JSON object -------------------------------------------

/// A double with these bits is finite (its exponent is not all ones).
pub open spec fn double_bits_finite(bits: u64) -> bool {
    bits % 0x8000_0000_0000_0000 < 0x7ff0_0000_0000_0000
}

/// A value that becomes a JSON value: a string, an integer, a boolean or a
/// finite double (`serde_json::Number::from_f64` refuses the others).
pub open spec fn is_json_value(v: Option<AttrValue>) -> bool {
    match v {
        Some(AttrValue::Str(_)) | Some(AttrValue::Int(_)) | Some(AttrValue::Bool(_)) => true,
        Some(AttrValue::Double(b)) => double_bits_finite(b),
        _ => false,
    }
}

/// The JSON object that the attributes make: each key with a JSON value
/// maps to the value of its last such attribute.
pub open spec fn json_object(attrs: Seq<Attribute>) -> Map<Seq<char>, AttrValueView>
    decreases attrs.len(),
{
    if attrs.len() == 0 {
        Map::empty()
    } else {
        let m = json_object(attrs.drop_last());
        let a = attrs.last();
        if is_json_value(a.value) {
            m.insert(a.key@, attr_value_view(a.value.unwrap()))
        } else {
            m
        }
    }
}

/// `a` comes before `b` in the order of their characters' code points,
/// which is the byte order of their UTF-8 (the order of `String`).
pub open spec fn key_before(a: Seq<char>, b: Seq<char>) -> bool
    decreases a.len(),
{
    if a.len() == 0 {
        b.len() > 0
    } else if b.len() == 0 {
        false
    } else if a[0] != b[0] {
        (a[0] as u32) < (b[0] as u32)
    } else {
        key_before(a.drop_first(), b.drop_first())
    }
}

/// The keys strictly ascend.
pub open spec fn keys_ascending(s: Seq<Attribute>) -> bool {
    forall|i: int, j: int| 0 <= i < j < s.len() ==> key_before(#[trigger] s[i].key@, #[trigger] s[j].key@)
}

/// The entries are those of the object `m`: each entry's key maps to its
/// value, and every key of `m` has an entry.
pub open spec fn entries_of(s: Seq<Attribute>, m: Map<Seq<char>, AttrValueView>) -> bool {
    &&& forall|i: int|
        0 <= i < s.len() ==> (#[trigger] s[i]).value is Some && m.contains_key(s[i].key@)
            && m[s[i].key@] == attr_value_view(s[i].value.unwrap())
    &&& forall|k: Seq<char>| #[trigger] m.contains_key(k) ==> exists|i: int| 0 <= i < s.len() && (#[trigger] s[i]).key@ == k
}

/// A double attribute becomes a JSON value exactly when it is finite, that
/// is when its eleven exponent bits are not all ones; its sign plays no
/// part.
pub proof fn lemma_json_double_when_finite(bits: u64)
    ensures
        is_json_value(Some(AttrValue::Double(bits))) <==> (bits >> 52u64) & 0x7ffu64 != 0x7ffu64,
        is_json_value(Some(AttrValue::Double(bits))) == is_json_value(
            Some(AttrValue::Double(bits ^ 0x8000_0000_0000_0000u64)),
        ),
{
    assert((bits % 0x8000_0000_0000_0000u64 < 0x7ff0_0000_0000_0000u64) <==> ((bits >> 52u64)
        & 0x7ffu64 != 0x7ffu64)) by (bit_vector);
    let flipped: u64 = bits ^ 0x8000_0000_0000_0000u64;
    assert((flipped % 0x8000_0000_0000_0000u64 < 0x7ff0_0000_0000_0000u64) <==> (bits
        % 0x8000_0000_0000_0000u64 < 0x7ff0_0000_0000_0000u64)) by (bit_vector)
        requires
            flipped == bits ^ 0x8000_0000_0000_0000u64,
    ;
}

/// An attribute with a JSON value, not followed by another one of the same
/// key with a JSON value, gives its key that value in the JSON object.
pub proof fn lemma_json_object_last_wins(attrs: Seq<Attribute>, i: int)
    requires
        0 <= i < attrs.len(),
        is_json_value(attrs[i].value),
        forall|j: int|
            i < j < attrs.len() && (#[trigger] attrs[j]).key@ == attrs[i].key@ ==> !is_json_value(
                attrs[j].value,
            ),
    ensures
        json_object(attrs).contains_key(attrs[i].key@),
        json_object(attrs)[attrs[i].key@] == attr_value_view(attrs[i].value.unwrap()),
    decreases attrs.len(),
{
    if i < attrs.len() - 1 {
        let init = attrs.drop_last();
        assert forall|j: int|
            i < j < init.len() && (#[trigger] init[j]).key@ == init[i].key@ implies !is_json_value(
            init[j].value,
        ) by {
            assert(init[j] == attrs[j]);
        }
        lemma_json_object_last_wins(init, i);
        assert(attrs.last() == attrs[attrs.len() - 1]);
    }
}

/// A key none of whose attributes has a JSON value is not in the JSON
/// object.
pub proof fn lemma_json_object_only_json_keys(attrs: Seq<Attribute>, k: Seq<char>)
    requires
        forall|i: int| 0 <= i < attrs.len() && (#[trigger] attrs[i]).key@ == k ==> !is_json_value(
            attrs[i].value,
        ),
    ensures
        !json_object(attrs).contains_key(k),
    decreases attrs.len(),
{
    if attrs.len() > 0 {
        let init = attrs.drop_last();
        assert forall|i: int| 0 <= i < init.len() && (#[trigger] init[i]).key@ == k implies !is_json_value(
            init[i].value,
        ) by {
            assert(init[i] == attrs[i]);
        }
        lemma_json_object_only_json_keys(init, k);
        assert(attrs.last() == attrs[attrs.len() - 1]);
    }
}

proof fn lemma_key_before_irreflexive(a: Seq<char>)
    ensures
        !key_before(a, a),
    decreases a.len(),
{
    if a.len() > 0 {
        lemma_key_before_irreflexive(a.drop_first());
    }
}

proof fn lemma_key_before_transitive(a: Seq<char>, b: Seq<char>, c: Seq<char>)
    requires
        key_before(a, b),
        key_before(b, c),
    ensures
        key_before(a, c),
    decreases a.len(),
{
    if a.len() > 0 && b.len() > 0 && c.len() > 0 && a[0] == b[0] && b[0] == c[0] {
        lemma_key_before_transitive(a.drop_first(), b.drop_first(), c.drop_first());
    }
}

proof fn lemma_key_before_total(a: Seq<char>, b: Seq<char>)
    requires
        a != b,
    ensures
        key_before(a, b) || key_before(b, a),
    decreases a.len(),
{
    if a.len() > 0 && b.len() > 0 {
        if a[0] == b[0] {
            if a.drop_first() == b.drop_first() {
                assert(a =~= seq![a[0]] + a.drop_first());
                assert(b =~= seq![b[0]] + b.drop_first());
            }
            lemma_key_before_total(a.drop_first(), b.drop_first());
        } else {
            vstd::utf8::char_u32_cast(a[0], a[0] as u32);
            vstd::utf8::char_u32_cast(b[0], b[0] as u32);
            assert((a[0] as u32) != (b[0] as u32));
        }
    } else if a.len() == 0 && b.len() == 0 {
        assert(a =~= b);
    }
}

proof fn lemma_key_before_skip(a: Seq<char>, b: Seq<char>, i: int)
    requires
        0 <= i <= a.len(),
        i <= b.len(),
        forall|j: int| 0 <= j < i ==> a[j] == b[j],
    ensures
        key_before(a, b) == key_before(a.skip(i), b.skip(i)),
    decreases i,
{
    if i > 0 {
        assert(a.drop_first().skip(i - 1) =~= a.skip(i));
        assert(b.drop_first().skip(i - 1) =~= b.skip(i));
        lemma_key_before_skip(a.drop_first(), b.drop_first(), i - 1);
    } else {
        assert(a.skip(0) =~= a);
        assert(b.skip(0) =~= b);
    }
}

/// Whether key `a` comes before key `b`.
pub fn key_is_before(a: &str, b: &str) -> (r: bool)
    ensures
        r == key_before(a@, b@),
{
    let x = chars_of(a);
    let y = chars_of(b);
    let mut i: usize = 0;
    while i < x.len() && i < y.len() && x[i] == y[i]
        invariant
            x@ == a@,
            y@ == b@,
            i <= x@.len(),
            i <= y@.len(),
            forall|j: int| 0 <= j < i ==> x@[j] == y@[j],
        decreases x@.len() - i,
    {
        i = i + 1;
    }
    proof {
        lemma_key_before_skip(a@, b@, i as int);
    }
    let ghost xs = a@.skip(i as int);
    let ghost ys = b@.skip(i as int);
    if i == x.len() {
        i < y.len()
    } else if i == y.len() {
        false
    } else {
        assert(xs[0] == x@[i as int] && ys[0] == y@[i as int]);
        (x[i] as u32) < (y[i] as u32)
    }
}

fn is_json(v: &Option<AttrValue>) -> (r: bool)
    ensures
        r == is_json_value(*v),
{
    match v {
        Some(AttrValue::Str(_)) | Some(AttrValue::Int(_)) | Some(AttrValue::Bool(_)) => true,
        Some(AttrValue::Double(b)) => *b % 0x8000_0000_0000_0000 < 0x7ff0_0000_0000_0000,
        _ => false,
    }
}

/// The entries of the JSON object that the attributes make, in ascending
/// key order: a key's last JSON value wins, and attributes without one
/// (absent, non-scalar, non-finite double) are left out.
#[verifier::rlimit(40)]
pub fn json_entries(attrs: &[Attribute]) -> (out: Vec<Attribute>)
    ensures
        keys_ascending(out@),
        entries_of(out@, json_object(attrs@)),
{
    let mut out: Vec<Attribute> = Vec::new();
    let mut idx: usize = 0;
    while idx < attrs.len()
        invariant
            idx <= attrs@.len(),
            keys_ascending(out@),
            entries_of(out@, json_object(attrs@.subrange(0, idx as int))),
        decreases attrs@.len() - idx,
    {
        let a = &attrs[idx];
        let ghost pre = attrs@.subrange(0, idx as int);
        let ghost next = attrs@.subrange(0, idx + 1);
        assert(next.drop_last() =~= pre);
        assert(next.last() == *a);
        let ghost m = json_object(pre);
        if is_json(&a.value) {
            let ghost v = attr_value_view(a.value.unwrap());
            let ghost m2 = m.insert(a.key@, v);
            assert(json_object(next) == m2);
            let mut p: usize = 0;
            while p < out.len() && key_is_before(out[p].key.as_str(), a.key.as_str())
                invariant
                    p <= out@.len(),
                    forall|j: int| 0 <= j < p ==> key_before((#[trigger] out@[j]).key@, a.key@),
                decreases out@.len() - p,
            {
                p = p + 1;
            }
            let ghost old_out = out@;
            if p < out.len() && out[p].key == a.key {
                out.set(p, clone_attribute(a));
                proof {
                    assert forall|i: int, j: int| 0 <= i < j < out@.len() implies key_before(
                        #[trigger] out@[i].key@,
                        #[trigger] out@[j].key@,
                    ) by {
                        assert(old_out[i].key@ == out@[i].key@);
                        assert(old_out[j].key@ == out@[j].key@);
                    }
                    assert forall|i: int| 0 <= i < out@.len() implies (#[trigger] out@[i]).value is Some
                        && m2.contains_key(out@[i].key@) && m2[out@[i].key@] == attr_value_view(
                        out@[i].value.unwrap(),
                    ) by {
                        if i != p {
                            assert(out@[i] == old_out[i]);
                            if i < p {
                                lemma_key_before_irreflexive(a.key@);
                                assert(key_before(old_out[i].key@, old_out[p as int].key@));
                            } else {
                                assert(key_before(old_out[p as int].key@, old_out[i].key@));
                                lemma_key_before_irreflexive(a.key@);
                            }
                        }
                    }
                    assert forall|k: Seq<char>| #[trigger] m2.contains_key(k) implies exists|i: int|
                        0 <= i < out@.len() && (#[trigger] out@[i]).key@ == k by {
                        if k == a.key@ {
                            assert(out@[p as int].key@ == k);
                        } else {
                            assert(m.contains_key(k));
                            let i = choose|i: int| 0 <= i < old_out.len() && (#[trigger] old_out[i]).key@ == k;
                            assert(out@[i].key@ == old_out[i].key@);
                        }
                    }
                }
            } else {
                proof {
                    if p < old_out.len() {
                        lemma_key_before_total(a.key@, old_out[p as int].key@);
                    }
                }
                out.insert(p, clone_attribute(a));
                proof {
                    old_out.insert_ensures(p as int, out@[p as int]);
                    assert(out@ == old_out.insert(p as int, out@[p as int]));
                    assert forall|i: int, j: int| 0 <= i < j < out@.len() implies key_before(
                        #[trigger] out@[i].key@,
                        #[trigger] out@[j].key@,
                    ) by {
                        if j < p {
                            assert(out@[i] == old_out[i] && out@[j] == old_out[j]);
                        } else if j == p {
                            assert(out@[i] == old_out[i]);
                        } else if i == p {
                            assert(out@[j] == old_out[j - 1]);
                            if j - 1 > p {
                                lemma_key_before_transitive(a.key@, old_out[p as int].key@, old_out[j - 1].key@);
                            }
                        } else if i < p {
                            assert(out@[i] == old_out[i] && out@[j] == old_out[j - 1]);
                        } else {
                            assert(out@[i] == old_out[i - 1] && out@[j] == old_out[j - 1]);
                        }
                    }
                    assert forall|i: int| 0 <= i < out@.len() implies (#[trigger] out@[i]).value is Some
                        && m2.contains_key(out@[i].key@) && m2[out@[i].key@] == attr_value_view(
                        out@[i].value.unwrap(),
                    ) by {
                        if i < p {
                            assert(out@[i] == old_out[i]);
                            lemma_key_before_irreflexive(a.key@);
                        } else if i > p {
                            assert(out@[i] == old_out[i - 1]);
                            lemma_key_before_irreflexive(a.key@);
                            if i - 1 > p {
                                lemma_key_before_transitive(a.key@, old_out[p as int].key@, old_out[i - 1].key@);
                            }
                        }
                    }
                    assert forall|k: Seq<char>| #[trigger] m2.contains_key(k) implies exists|i: int|
                        0 <= i < out@.len() && (#[trigger] out@[i]).key@ == k by {
                        if k == a.key@ {
                            assert(out@[p as int].key@ == k);
                        } else {
                            assert(m.contains_key(k));
                            let i = choose|i: int| 0 <= i < old_out.len() && (#[trigger] old_out[i]).key@ == k;
                            if i < p {
                                assert(out@[i] == old_out[i]);
                            } else {
                                assert(out@[i + 1] == old_out[i]);
                            }
                        }
                    }
                }
            }
        } else {
            assert(json_object(next) == m);
        }
        idx = idx + 1;
    }
    assert(attrs@.subrange(0, attrs@.len() as int) =~= attrs@);
    out
}

} // verus!
