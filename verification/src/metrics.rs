//! Prometheus instrumentation of the proxy.

use prometheus::proto::MetricFamily;
use std::time::Duration;
use vstd::prelude::*;

use crate::hashing;
use crate::ids;
use crate::text;

verus! {

#[verifier::external_type_specification]
#[verifier::external_body]
pub struct ExPrometheusError(prometheus::Error);

#[verifier::external_type_specification]
#[verifier::external_body]
pub struct ExMetricFamily(prometheus::proto::MetricFamily);

/// A registry together with the families that it exposes, each kind in the order in which its
/// families were added.
#[verifier::external_body]
pub struct Instruments {
    registry: prometheus::Registry,
    counters: Vec<prometheus::IntCounterVec>,
    gauges: Vec<prometheus::IntGaugeVec>,
    histograms: Vec<prometheus::HistogramVec>,
}

/// What a family was made with.
#[verifier::ext_equal]
pub struct FamilyShape {
    pub name: Seq<char>,
    pub help: Seq<char>,
    pub labels: Seq<Seq<char>>,
    /// The upper bounds of a histogram's buckets in milliseconds; other families have none.
    pub bounds: Seq<u64>,
}

/// The series of a family by slot: the label values that the series was made with, and what it
/// has come to.
pub type Series<V> = Map<u64, (Seq<Seq<char>>, V)>;

/// What [`Instruments`] hold: the families of each kind with their series. A counter has a count,
/// a gauge a level, and a histogram the spans of time that it observed, in their order.
#[verifier::ext_equal]
pub struct Held {
    pub counters: Seq<(FamilyShape, Series<u64>)>,
    pub gauges: Seq<(FamilyShape, Series<i64>)>,
    pub histograms: Seq<(FamilyShape, Series<Seq<Duration>>)>,
}

/// What instruments hold.
pub uninterp spec fn held(set: Instruments) -> Held;

/// What instruments put before the name of each family.
pub uninterp spec fn exposed_prefix(set: Instruments) -> Seq<char>;

/// The text with which families are exposed; `None` where one of them cannot be.
pub uninterp spec fn exposition(families: Seq<MetricFamily>) -> Option<Seq<u8>>;

/// The text with which instruments are exposed that hold the given families under a prefix.
pub uninterp spec fn exposed_text(prefix: Seq<char>, held: Held) -> Seq<u8>;

/// Label values joined without a separator.
pub open spec fn joined(labels: Seq<Seq<char>>) -> Seq<char>
    decreases labels.len(),
{
    if labels.len() == 0 {
        Seq::empty()
    } else {
        joined(labels.drop_last()) + labels.last()
    }
}

/// The slot of a family at which label values are kept: their hash, joined without a separator.
pub open spec fn slot_of(labels: Seq<Seq<char>>) -> u64 {
    hashing::text_digest(joined(labels))
}

/// The id by which a registry knows the family of a name.
pub open spec fn family_id(name: Seq<char>) -> u64 {
    hashing::field_digest(name)
}

/// The texts of a list.
pub open spec fn label_texts(labels: Seq<&str>) -> Seq<Seq<char>> {
    labels.map_values(|l: &str| l@)
}

/// A character with which a label name may start.
pub open spec fn label_start(c: char) -> bool {
    'a' <= c <= 'z' || 'A' <= c <= 'Z' || c == '_'
}

/// A label name: letters, digits and underscores, no digit first.
pub open spec fn label_name(s: Seq<char>) -> bool {
    &&& s.len() > 0
    &&& label_start(s[0])
    &&& forall|i: int| 0 <= i < s.len() ==> label_start(#[trigger] s[i]) || '0' <= s[i] <= '9'
}

/// A family name: letters, digits, underscores and colons, no digit first.
pub open spec fn family_name(s: Seq<char>) -> bool {
    &&& s.len() > 0
    &&& label_start(s[0]) || s[0] == ':'
    &&& forall|i: int|
        0 <= i < s.len() ==> label_start(#[trigger] s[i]) || s[i] == ':' || '0' <= s[i] <= '9'
}

/// The name of a family within a namespace.
pub open spec fn full_name(namespace: Seq<char>, name: Seq<char>) -> Seq<char> {
    namespace.push('_') + name
}

/// A family that can be described: it has a help text and a name, and its labels have distinct
/// names.
pub open spec fn describable(shape: FamilyShape) -> bool {
    &&& shape.help.len() > 0
    &&& family_name(shape.name)
    &&& forall|i: int| 0 <= i < shape.labels.len() ==> label_name(#[trigger] shape.labels[i])
    &&& forall|i: int, j: int|
        0 <= i < j < shape.labels.len() ==> #[trigger] shape.labels[i] != #[trigger] shape.labels[j]
}

/// The shape of a counter or gauge family.
pub open spec fn plain_shape(
    namespace: Seq<char>,
    name: Seq<char>,
    help: Seq<char>,
    labels: Seq<Seq<char>>,
) -> FamilyShape {
    FamilyShape { name: full_name(namespace, name), help, labels, bounds: Seq::empty() }
}

/// The shape of a histogram family.
pub open spec fn bucketed_shape(
    namespace: Seq<char>,
    name: Seq<char>,
    help: Seq<char>,
    labels: Seq<Seq<char>>,
    bounds: Seq<u64>,
) -> FamilyShape {
    FamilyShape { name: full_name(namespace, name), help, labels, bounds }
}

/// The series at a slot, made with the label values and at its start where there is none yet.
pub open spec fn series_at<V>(series: Series<V>, labels: Seq<Seq<char>>, start: V) -> (
    Seq<Seq<char>>,
    V,
) {
    if series.contains_key(slot_of(labels)) {
        series[slot_of(labels)]
    } else {
        (labels, start)
    }
}

/// The series with the one of the label values set to a value.
pub open spec fn with_value<V>(series: Series<V>, labels: Seq<Seq<char>>, start: V, value: V) -> Series<
    V,
> {
    series.insert(slot_of(labels), (series_at(series, labels, start).0, value))
}

/// The count at a slot.
pub open spec fn count_at(counts: Series<u64>, slot: u64) -> u64 {
    if counts.contains_key(slot) {
        counts[slot].1
    } else {
        0
    }
}

/// The level at a slot.
pub open spec fn level_at(levels: Series<i64>, slot: u64) -> i64 {
    if levels.contains_key(slot) {
        levels[slot].1
    } else {
        0
    }
}

/// The counts once label values have been counted.
pub open spec fn counted(counts: Series<u64>, labels: Seq<Seq<char>>) -> Series<u64> {
    with_value(counts, labels, 0, count_at(counts, slot_of(labels)).wrapping_add(1))
}

/// The counts once label values have been read: they have a series.
pub open spec fn shown(counts: Series<u64>, labels: Seq<Seq<char>>) -> Series<u64> {
    with_value(counts, labels, 0, count_at(counts, slot_of(labels)))
}

/// The levels once label values have been raised by one.
pub open spec fn raised(levels: Series<i64>, labels: Seq<Seq<char>>) -> Series<i64> {
    with_value(levels, labels, 0, level_at(levels, slot_of(labels)).wrapping_add(1))
}

/// The levels once label values have been lowered by one.
pub open spec fn lowered(levels: Series<i64>, labels: Seq<Seq<char>>) -> Series<i64> {
    with_value(levels, labels, 0, level_at(levels, slot_of(labels)).wrapping_sub(1))
}

/// The observations once label values have observed another span.
pub open spec fn observed(
    spans: Series<Seq<Duration>>,
    labels: Seq<Seq<char>>,
    span: Duration,
) -> Series<Seq<Duration>> {
    with_value(
        spans,
        labels,
        Seq::empty(),
        series_at(spans, labels, Seq::empty()).1.push(span),
    )
}

impl Held {
    /// Nothing is held.
    pub open spec fn nothing() -> Held {
        Held { counters: Seq::empty(), gauges: Seq::empty(), histograms: Seq::empty() }
    }

    /// Some family has the id.
    pub open spec fn knows(self, id: u64) -> bool {
        ||| exists|i: int|
            0 <= i < self.counters.len() && family_id((#[trigger] self.counters[i]).0.name) == id
        ||| exists|i: int|
            0 <= i < self.gauges.len() && family_id((#[trigger] self.gauges[i]).0.name) == id
        ||| exists|i: int|
            0 <= i < self.histograms.len() && family_id((#[trigger] self.histograms[i]).0.name)
                == id
    }

    /// A family of the shape can be added.
    pub open spec fn takes(self, shape: FamilyShape) -> bool {
        describable(shape) && !self.knows(family_id(shape.name))
    }

    /// What is held once a counter family has been added.
    pub open spec fn with_counters(self, shape: FamilyShape) -> Held {
        Held { counters: self.counters.push((shape, Map::empty())), ..self }
    }

    /// What is held once a gauge family has been added.
    pub open spec fn with_gauges(self, shape: FamilyShape) -> Held {
        Held { gauges: self.gauges.push((shape, Map::empty())), ..self }
    }

    /// What is held once a histogram family has been added.
    pub open spec fn with_histograms(self, shape: FamilyShape) -> Held {
        Held { histograms: self.histograms.push((shape, Map::empty())), ..self }
    }

    /// What is held once a counter family has counted label values.
    pub open spec fn counted(self, family: int, labels: Seq<Seq<char>>) -> Held {
        let (shape, series) = self.counters[family];
        Held { counters: self.counters.update(family, (shape, counted(series, labels))), ..self }
    }

    /// What is held once the count of label values has been read off a counter family.
    pub open spec fn shown(self, family: int, labels: Seq<Seq<char>>) -> Held {
        let (shape, series) = self.counters[family];
        Held { counters: self.counters.update(family, (shape, shown(series, labels))), ..self }
    }

    /// What is held once a gauge family has raised label values.
    pub open spec fn raised(self, family: int, labels: Seq<Seq<char>>) -> Held {
        let (shape, series) = self.gauges[family];
        Held { gauges: self.gauges.update(family, (shape, raised(series, labels))), ..self }
    }

    /// What is held once a gauge family has lowered label values.
    pub open spec fn lowered(self, family: int, labels: Seq<Seq<char>>) -> Held {
        let (shape, series) = self.gauges[family];
        Held { gauges: self.gauges.update(family, (shape, lowered(series, labels))), ..self }
    }

    /// What is held once a histogram family has observed a span for label values.
    pub open spec fn observed(self, family: int, labels: Seq<Seq<char>>, span: Duration) -> Held {
        let (shape, series) = self.histograms[family];
        Held {
            histograms: self.histograms.update(family, (shape, observed(series, labels, span))),
            ..self
        }
    }
}

/// What an attempt to add a family does to instruments: it is added and holds no series, or
/// nothing changes.
pub open spec fn addition(before: Instruments, after: Instruments, with: Held, added: bool) -> bool {
    &&& exposed_prefix(after) == exposed_prefix(before)
    &&& held(after) == if added {
        with
    } else {
        held(before)
    }
}

/// `Registry::new_custom` with a prefix and no common labels: nothing is held; an empty prefix is
/// refused.
#[verifier::external_body]
fn new_instruments(prefix: &str) -> (r: Result<Instruments, prometheus::Error>)
    ensures
        match r {
            Ok(set) => {
                &&& prefix@.len() > 0
                &&& exposed_prefix(set) == prefix@
                &&& held(set) == Held::nothing()
            },
            Err(_) => prefix@.len() == 0,
        },
{
    let registry = prometheus::Registry::new_custom(Some(prefix.to_string()), None)?;
    Ok(
        Instruments {
            registry,
            counters: Vec::new(),
            gauges: Vec::new(),
            histograms: Vec::new(),
        },
    )
}

/// `IntCounterVec::new`, with `Opts` of a namespace, a name and a help text, and
/// `Registry::register` with the family: it is added where it can be described and no family has
/// its id.
#[verifier::external_body]
fn add_counters(
    set: &mut Instruments,
    namespace: &str,
    name: &str,
    help: &str,
    labels: &[&str],
) -> (r: Result<(), prometheus::Error>)
    requires
        namespace@.len() > 0,
        name@.len() > 0,
    ensures
        r is Ok <==> held(*old(set)).takes(
            plain_shape(namespace@, name@, help@, label_texts(labels@)),
        ),
        addition(
            *old(set),
            *final(set),
            held(*old(set)).with_counters(
                plain_shape(namespace@, name@, help@, label_texts(labels@)),
            ),
            r is Ok,
        ),
{
    let opts = prometheus::Opts::new(name, help).namespace(namespace);
    let family = prometheus::IntCounterVec::new(opts, labels)?;
    set.registry.register(Box::new(family.clone()))?;
    set.counters.push(family);
    Ok(())
}

/// `IntGaugeVec::new`, with `Opts` of a namespace, a name and a help text, and
/// `Registry::register` with the family: it is added where it can be described and no family has
/// its id.
#[verifier::external_body]
fn add_gauges(
    set: &mut Instruments,
    namespace: &str,
    name: &str,
    help: &str,
    labels: &[&str],
) -> (r: Result<(), prometheus::Error>)
    requires
        namespace@.len() > 0,
        name@.len() > 0,
    ensures
        r is Ok <==> held(*old(set)).takes(
            plain_shape(namespace@, name@, help@, label_texts(labels@)),
        ),
        addition(
            *old(set),
            *final(set),
            held(*old(set)).with_gauges(
                plain_shape(namespace@, name@, help@, label_texts(labels@)),
            ),
            r is Ok,
        ),
{
    let opts = prometheus::Opts::new(name, help).namespace(namespace);
    let family = prometheus::IntGaugeVec::new(opts, labels)?;
    set.registry.register(Box::new(family.clone()))?;
    set.gauges.push(family);
    Ok(())
}

/// `HistogramVec::new`, with `HistogramOpts` of a namespace, a name, a help text and bucket bounds,
/// given in milliseconds and handed on in seconds, and `Registry::register` with the family: it is
/// added where it can be described and no family has its id.
#[verifier::external_body]
fn add_histograms(
    set: &mut Instruments,
    namespace: &str,
    name: &str,
    help: &str,
    labels: &[&str],
    bounds: &[u64],
) -> (r: Result<(), prometheus::Error>)
    requires
        namespace@.len() > 0,
        name@.len() > 0,
    ensures
        r is Ok <==> held(*old(set)).takes(
            bucketed_shape(namespace@, name@, help@, label_texts(labels@), bounds@),
        ),
        addition(
            *old(set),
            *final(set),
            held(*old(set)).with_histograms(
                bucketed_shape(namespace@, name@, help@, label_texts(labels@), bounds@),
            ),
            r is Ok,
        ),
{
    let seconds = bounds.iter().map(|ms| Duration::from_millis(*ms).as_secs_f64()).collect();
    let opts = prometheus::HistogramOpts::new(name, help).namespace(namespace).buckets(seconds);
    let family = prometheus::HistogramVec::new(opts, labels)?;
    set.registry.register(Box::new(family.clone()))?;
    set.histograms.push(family);
    Ok(())
}

/// `IntCounterVec::with_label_values` and `IntCounter::inc`: counts the label values. It panics
/// where their number is not that of the labels.
#[verifier::external_body]
fn count(set: &mut Instruments, family: usize, labels: &[&str])
    requires
        family < held(*old(set)).counters.len(),
        labels@.len() == held(*old(set)).counters[family as int].0.labels.len(),
    ensures
        exposed_prefix(*final(set)) == exposed_prefix(*old(set)),
        held(*final(set)) == held(*old(set)).counted(family as int, label_texts(labels@)),
{
    set.counters[family].with_label_values(labels).inc();
}

/// `IntCounterVec::with_label_values` and `IntCounter::get`: the count of the label values, which
/// have a series from then on. It panics where their number is not that of the labels.
#[verifier::external_body]
fn read_count(set: &mut Instruments, family: usize, labels: &[&str]) -> (r: u64)
    requires
        family < held(*old(set)).counters.len(),
        labels@.len() == held(*old(set)).counters[family as int].0.labels.len(),
    ensures
        r == count_at(
            held(*old(set)).counters[family as int].1,
            slot_of(label_texts(labels@)),
        ),
        exposed_prefix(*final(set)) == exposed_prefix(*old(set)),
        held(*final(set)) == held(*old(set)).shown(family as int, label_texts(labels@)),
{
    set.counters[family].with_label_values(labels).get()
}

/// `IntGaugeVec::with_label_values` and `IntGauge::inc`: raises the label values. It panics where
/// their number is not that of the labels.
#[verifier::external_body]
fn raise(set: &mut Instruments, family: usize, labels: &[&str])
    requires
        family < held(*old(set)).gauges.len(),
        labels@.len() == held(*old(set)).gauges[family as int].0.labels.len(),
    ensures
        exposed_prefix(*final(set)) == exposed_prefix(*old(set)),
        held(*final(set)) == held(*old(set)).raised(family as int, label_texts(labels@)),
{
    set.gauges[family].with_label_values(labels).inc();
}

/// `IntGaugeVec::with_label_values` and `IntGauge::dec`: lowers the label values. It panics where
/// their number is not that of the labels.
#[verifier::external_body]
fn lower(set: &mut Instruments, family: usize, labels: &[&str])
    requires
        family < held(*old(set)).gauges.len(),
        labels@.len() == held(*old(set)).gauges[family as int].0.labels.len(),
    ensures
        exposed_prefix(*final(set)) == exposed_prefix(*old(set)),
        held(*final(set)) == held(*old(set)).lowered(family as int, label_texts(labels@)),
{
    set.gauges[family].with_label_values(labels).dec();
}

/// `HistogramVec::with_label_values` and `Histogram::observe`, with the span in seconds: the label
/// values observe the span. It panics where their number is not that of the labels, where a label
/// is named `le`, and where the bounds do not increase.
#[verifier::external_body]
fn observe(set: &mut Instruments, family: usize, labels: &[&str], span: Duration)
    requires
        family < held(*old(set)).histograms.len(),
        labels@.len() == held(*old(set)).histograms[family as int].0.labels.len(),
        observable(held(*old(set)).histograms[family as int].0),
    ensures
        exposed_prefix(*final(set)) == exposed_prefix(*old(set)),
        held(*final(set)) == held(*old(set)).observed(family as int, label_texts(labels@), span),
{
    set.histograms[family].with_label_values(labels).observe(span.as_secs_f64());
}

/// A histogram family that takes observations: no label has the name of the bucket bound, and the
/// bounds increase and are such as seconds tell apart.
pub open spec fn observable(shape: FamilyShape) -> bool {
    &&& !shape.labels.contains("le"@)
    &&& forall|i: int| 0 <= i < shape.bounds.len() ==> #[trigger] shape.bounds[i] <= u32::MAX
    &&& forall|i: int, j: int|
        0 <= i < j < shape.bounds.len() ==> #[trigger] shape.bounds[i] < #[trigger] shape.bounds[j]
}

/// `Registry::gather`: a snapshot of the families that have series. The text with which it is
/// exposed is determined by the prefix and by what is held.
#[verifier::external_body]
fn gather_families(set: &Instruments) -> (r: Vec<MetricFamily>)
    ensures
        exposition(r@) == Some(exposed_text(exposed_prefix(*set), held(*set))),
{
    set.registry.gather()
}

/// `TextEncoder::encode` into an empty buffer: the text is determined by the families.
#[verifier::external_body]
fn encode_families(families: &Vec<MetricFamily>) -> (r: Result<Vec<u8>, prometheus::Error>)
    requires
        exposition(families@) is Some,
    ensures
        r is Ok,
        r->Ok_0@ == exposition(families@)->0,
{
    let mut buffer = Vec::with_capacity(1024);
    prometheus::Encoder::encode(&prometheus::TextEncoder::new(), families, &mut buffer)?;
    Ok(buffer)
}

/// The upper bounds of the latency buckets in milliseconds.
pub open spec fn latency_bounds() -> Seq<u64> {
    seq![1, 5, 10, 25, 50, 100, 250, 500, 1000, 2500, 5000]
}

/// Requests accepted, by upstream and HTTP method.
pub open spec fn requests_shape() -> FamilyShape {
    plain_shape(
        "proxy"@,
        "requests_total"@,
        "Total requests accepted by the proxy"@,
        seq!["upstream"@, "method"@],
    )
}

/// Responses of upstreams, by upstream, HTTP method and status.
pub open spec fn responses_shape() -> FamilyShape {
    plain_shape(
        "proxy"@,
        "responses_total"@,
        "Responses returned from upstreams"@,
        seq!["upstream"@, "method"@, "status"@],
    )
}

/// Errors, by upstream, HTTP method and kind.
pub open spec fn errors_shape() -> FamilyShape {
    plain_shape(
        "proxy"@,
        "errors_total"@,
        "Proxy errors by upstream"@,
        seq!["upstream"@, "method"@, "kind"@],
    )
}

/// Requests under way, by upstream.
pub open spec fn inflight_shape() -> FamilyShape {
    plain_shape(
        "proxy"@,
        "inflight_requests"@,
        "In-flight requests per upstream"@,
        seq!["upstream"@],
    )
}

/// JSON-RPC calls, by upstream and JSON-RPC method.
pub open spec fn method_calls_shape() -> FamilyShape {
    plain_shape(
        "proxy"@,
        "method_calls_total"@,
        "Total JSON-RPC method invocations"@,
        seq!["upstream"@, "method"@],
    )
}

/// Latencies of requests, by upstream and HTTP method.
pub open spec fn latency_shape() -> FamilyShape {
    bucketed_shape(
        "proxy"@,
        "request_latency_seconds"@,
        "Proxy latency in seconds"@,
        seq!["upstream"@, "method"@],
        latency_bounds(),
    )
}

/// Latencies of JSON-RPC calls, by upstream and JSON-RPC method.
pub open spec fn method_latency_shape() -> FamilyShape {
    bucketed_shape(
        "rpc"@,
        "method_latency_seconds"@,
        "JSON-RPC method latency in seconds"@,
        seq!["upstream"@, "method"@],
        latency_bounds(),
    )
}

/// JSON-RPC calls that were answered with an error, by upstream, JSON-RPC method and error.
pub open spec fn method_errors_shape() -> FamilyShape {
    plain_shape(
        "rpc"@,
        "method_errors_total"@,
        "JSON-RPC method errors by class"@,
        seq!["upstream"@, "method"@, "error"@],
    )
}

/// The place of each counter family.
pub const REQUESTS: usize = 0;

pub const RESPONSES: usize = 1;

pub const ERRORS: usize = 2;

pub const METHOD_CALLS: usize = 3;

pub const METHOD_ERRORS: usize = 4;

/// The place of the one gauge family.
pub const INFLIGHT: usize = 0;

/// The place of each histogram family.
pub const LATENCY: usize = 0;

pub const METHOD_LATENCY: usize = 1;

/// All that the proxy keeps count of.
pub struct Metrics {
    set: Instruments,
}

/// What [`Metrics`] hold.
#[verifier::ext_equal]
pub struct MetricsView {
    /// What stands before the name of each family.
    pub prefix: Seq<char>,
    /// The families and their series.
    pub held: Held,
}

impl View for Metrics {
    type V = MetricsView;

    closed spec fn view(&self) -> MetricsView {
        MetricsView { prefix: exposed_prefix(self.set), held: held(self.set) }
    }
}

/// The families of the proxy, without series.
pub open spec fn documented_families() -> Held {
    Held::nothing().with_counters(requests_shape()).with_counters(responses_shape()).with_counters(
        errors_shape(),
    ).with_gauges(inflight_shape()).with_counters(method_calls_shape()).with_histograms(
        latency_shape(),
    ).with_histograms(method_latency_shape()).with_counters(method_errors_shape())
}

impl MetricsView {
    /// The documented families are there, and are exposed under the proxy's prefix.
    pub open spec fn valid(self) -> bool {
        &&& self.prefix == "roxy"@
        &&& self.held.counters.len() == 5
        &&& self.held.counters[REQUESTS as int].0 == requests_shape()
        &&& self.held.counters[RESPONSES as int].0 == responses_shape()
        &&& self.held.counters[ERRORS as int].0 == errors_shape()
        &&& self.held.counters[METHOD_CALLS as int].0 == method_calls_shape()
        &&& self.held.counters[METHOD_ERRORS as int].0 == method_errors_shape()
        &&& self.held.gauges.len() == 1
        &&& self.held.gauges[INFLIGHT as int].0 == inflight_shape()
        &&& self.held.histograms.len() == 2
        &&& self.held.histograms[LATENCY as int].0 == latency_shape()
        &&& self.held.histograms[METHOD_LATENCY as int].0 == method_latency_shape()
    }

    /// The requests under way, by upstream.
    pub open spec fn inflight(self) -> Series<i64> {
        self.held.gauges[INFLIGHT as int].1
    }

    /// The JSON-RPC calls, by upstream and method.
    pub open spec fn method_calls(self) -> Series<u64> {
        self.held.counters[METHOD_CALLS as int].1
    }

    /// The JSON-RPC calls that were answered with an error, by upstream, method and error.
    pub open spec fn method_errors(self) -> Series<u64> {
        self.held.counters[METHOD_ERRORS as int].1
    }

    /// What is held once a request has been accepted.
    pub open spec fn after_request(self, upstream: Seq<char>, method: Seq<char>) -> MetricsView {
        MetricsView {
            held: self.held.counted(REQUESTS as int, seq![upstream, method]).raised(
                INFLIGHT as int,
                seq![upstream],
            ),
            ..self
        }
    }

    /// What is held once a request has been answered by its upstream.
    pub open spec fn after_response(
        self,
        upstream: Seq<char>,
        method: Seq<char>,
        status: u16,
        elapsed: Duration,
    ) -> MetricsView {
        MetricsView {
            held: self.held.counted(
                RESPONSES as int,
                seq![upstream, method, text::decimal(status as nat)],
            ).observed(LATENCY as int, seq![upstream, method], elapsed).lowered(
                INFLIGHT as int,
                seq![upstream],
            ),
            ..self
        }
    }

    /// What is held once a request has failed.
    pub open spec fn after_error(
        self,
        upstream: Seq<char>,
        method: Seq<char>,
        kind: Seq<char>,
    ) -> MetricsView {
        MetricsView {
            held: self.held.counted(ERRORS as int, seq![upstream, method, kind]).lowered(
                INFLIGHT as int,
                seq![upstream],
            ),
            ..self
        }
    }

    /// What is held once a request has matched no route.
    pub open spec fn after_unmatched(self, method: Seq<char>) -> MetricsView {
        MetricsView {
            held: self.held.counted(ERRORS as int, seq!["__unmatched__"@, method, "no_route"@]),
            ..self
        }
    }

    /// What is held once JSON-RPC calls have been counted.
    pub open spec fn after_methods(self, upstream: Seq<char>, methods: Seq<Seq<char>>) -> MetricsView
        decreases methods.len(),
    {
        if methods.len() == 0 {
            self
        } else {
            let before = self.after_methods(upstream, methods.drop_last());
            MetricsView {
                held: before.held.counted(METHOD_CALLS as int, seq![upstream, methods.last()]),
                ..before
            }
        }
    }

    /// What is held once the latency of JSON-RPC calls has been observed.
    pub open spec fn after_method_latency(
        self,
        upstream: Seq<char>,
        methods: Seq<Seq<char>>,
        elapsed: Duration,
    ) -> MetricsView
        decreases methods.len(),
    {
        if methods.len() == 0 {
            self
        } else {
            let before = self.after_method_latency(upstream, methods.drop_last(), elapsed);
            MetricsView {
                held: before.held.observed(
                    METHOD_LATENCY as int,
                    seq![upstream, methods.last()],
                    elapsed,
                ),
                ..before
            }
        }
    }

    /// What is held once a JSON-RPC call has been answered with an error.
    pub open spec fn after_method_error(
        self,
        upstream: Seq<char>,
        method: Seq<char>,
        error: Seq<char>,
    ) -> MetricsView {
        MetricsView {
            held: self.held.counted(METHOD_ERRORS as int, seq![upstream, method, error]),
            ..self
        }
    }

    /// What is held once a count of JSON-RPC calls has been read.
    pub open spec fn after_reading(self, upstream: Seq<char>, method: Seq<char>) -> MetricsView {
        MetricsView {
            held: self.held.shown(METHOD_CALLS as int, seq![upstream, method]),
            ..self
        }
    }
}

/// Lower-case letters and underscores.
spec fn word(s: Seq<char>) -> bool {
    &&& s.len() > 0
    &&& forall|i: int| 0 <= i < s.len() ==> 'a' <= #[trigger] s[i] <= 'z' || s[i] == '_'
}

proof fn lemma_full_name_of_words(namespace: Seq<char>, name: Seq<char>)
    requires
        word(namespace),
        word(name),
    ensures
        family_name(full_name(namespace, name)),
{
    let full = full_name(namespace, name);
    assert forall|i: int| 0 <= i < full.len() implies label_start(#[trigger] full[i]) by {
        if i < namespace.len() {
            assert(full[i] == namespace[i]);
        } else if i > namespace.len() {
            assert(full[i] == name[i - namespace.len() - 1]);
        }
    }
}

proof fn lemma_shapes()
    ensures
        "proxy"@.len() > 0,
        "rpc"@.len() > 0,
        "requests_total"@.len() > 0,
        "responses_total"@.len() > 0,
        "errors_total"@.len() > 0,
        "inflight_requests"@.len() > 0,
        "method_calls_total"@.len() > 0,
        "request_latency_seconds"@.len() > 0,
        "method_latency_seconds"@.len() > 0,
        "method_errors_total"@.len() > 0,
        describable(requests_shape()),
        describable(responses_shape()),
        describable(errors_shape()),
        describable(inflight_shape()),
        describable(method_calls_shape()),
        describable(latency_shape()),
        describable(method_latency_shape()),
        describable(method_errors_shape()),
{
    reveal_strlit("proxy");
    reveal_strlit("rpc");
    reveal_strlit("requests_total");
    reveal_strlit("responses_total");
    reveal_strlit("errors_total");
    reveal_strlit("inflight_requests");
    reveal_strlit("method_calls_total");
    reveal_strlit("request_latency_seconds");
    reveal_strlit("method_latency_seconds");
    reveal_strlit("method_errors_total");
    lemma_full_name_of_words("proxy"@, "requests_total"@);
    lemma_full_name_of_words("proxy"@, "responses_total"@);
    lemma_full_name_of_words("proxy"@, "errors_total"@);
    lemma_full_name_of_words("proxy"@, "inflight_requests"@);
    lemma_full_name_of_words("proxy"@, "method_calls_total"@);
    lemma_full_name_of_words("proxy"@, "request_latency_seconds"@);
    lemma_full_name_of_words("rpc"@, "method_latency_seconds"@);
    lemma_full_name_of_words("rpc"@, "method_errors_total"@);
    reveal_strlit("Total requests accepted by the proxy");
    reveal_strlit("Responses returned from upstreams");
    reveal_strlit("Proxy errors by upstream");
    reveal_strlit("In-flight requests per upstream");
    reveal_strlit("Total JSON-RPC method invocations");
    reveal_strlit("Proxy latency in seconds");
    reveal_strlit("JSON-RPC method latency in seconds");
    reveal_strlit("JSON-RPC method errors by class");
    lemma_label_names();
}

proof fn lemma_label_names()
    ensures
        label_name("upstream"@),
        label_name("method"@),
        label_name("status"@),
        label_name("kind"@),
        label_name("error"@),
        "upstream"@ != "method"@,
        "upstream"@ != "status"@,
        "upstream"@ != "kind"@,
        "method"@ != "status"@,
        "method"@ != "kind"@,
        "upstream"@ != "error"@,
        "method"@ != "error"@,
        !seq!["upstream"@, "method"@].contains("le"@),
{
    reveal_strlit("upstream");
    reveal_strlit("method");
    reveal_strlit("status");
    reveal_strlit("kind");
    reveal_strlit("error");
    reveal_strlit("le");
    assert("upstream"@.len() == 8);
    assert("method"@.len() == 6);
    assert("status"@.len() == 6);
    assert("method"@[0] == 'm' && "status"@[0] == 's');
    assert("kind"@.len() == 4);
    assert("error"@.len() == 5);
}

/// The label values as texts.
proof fn lemma_labels(a: &str, b: &str, c: &str)
    ensures
        label_texts(seq![a]) == seq![a@],
        label_texts(seq![a, b]) == seq![a@, b@],
        label_texts(seq![a, b, c]) == seq![a@, b@, c@],
{
    assert(label_texts(seq![a]) =~= seq![a@]);
    assert(label_texts(seq![a, b]) =~= seq![a@, b@]);
    assert(label_texts(seq![a, b, c]) =~= seq![a@, b@, c@]);
}

/// The families of valid metrics take as many label values as recording gives them, and the
/// histograms take observations.
proof fn lemma_pieces(metrics: MetricsView)
    requires
        metrics.valid(),
    ensures
        metrics.held.counters[REQUESTS as int].0.labels.len() == 2,
        metrics.held.counters[RESPONSES as int].0.labels.len() == 3,
        metrics.held.counters[ERRORS as int].0.labels.len() == 3,
        metrics.held.counters[METHOD_CALLS as int].0.labels.len() == 2,
        metrics.held.counters[METHOD_ERRORS as int].0.labels.len() == 3,
        metrics.held.gauges[INFLIGHT as int].0.labels.len() == 1,
        metrics.held.histograms[LATENCY as int].0.labels.len() == 2,
        metrics.held.histograms[METHOD_LATENCY as int].0.labels.len() == 2,
        observable(metrics.held.histograms[LATENCY as int].0),
        observable(metrics.held.histograms[METHOD_LATENCY as int].0),
{
    lemma_label_names();
}

impl Metrics {
    /// A registry with all families registered and nothing recorded.
    pub fn new() -> (r: Result<Metrics, prometheus::Error>)
        ensures
            r is Ok,
            r->Ok_0@ == (MetricsView { prefix: "roxy"@, held: documented_families() }),
            r->Ok_0@.valid(),
    {
        proof {
            reveal_strlit("roxy");
            lemma_shapes();
            ids::families_have_their_ids();
        }
        let upstream_and_method: [&str; 2] = ["upstream", "method"];
        let upstream_method_status: [&str; 3] = ["upstream", "method", "status"];
        let upstream_method_kind: [&str; 3] = ["upstream", "method", "kind"];
        let upstream_method_error: [&str; 3] = ["upstream", "method", "error"];
        let upstream_only: [&str; 1] = ["upstream"];
        assert(label_texts(upstream_and_method@) =~= seq!["upstream"@, "method"@]);
        assert(label_texts(upstream_method_status@) =~= seq!["upstream"@, "method"@, "status"@]);
        assert(label_texts(upstream_method_kind@) =~= seq!["upstream"@, "method"@, "kind"@]);
        assert(label_texts(upstream_method_error@) =~= seq!["upstream"@, "method"@, "error"@]);
        assert(label_texts(upstream_only@) =~= seq!["upstream"@]);
        let bounds: [u64; 11] = [1, 5, 10, 25, 50, 100, 250, 500, 1000, 2500, 5000];
        assert(bounds@ =~= latency_bounds());

        let mut set = new_instruments("roxy")?;
        add_counters(
            &mut set,
            "proxy",
            "requests_total",
            "Total requests accepted by the proxy",
            &upstream_and_method,
        )?;
        add_counters(
            &mut set,
            "proxy",
            "responses_total",
            "Responses returned from upstreams",
            &upstream_method_status,
        )?;
        add_counters(
            &mut set,
            "proxy",
            "errors_total",
            "Proxy errors by upstream",
            &upstream_method_kind,
        )?;
        add_gauges(
            &mut set,
            "proxy",
            "inflight_requests",
            "In-flight requests per upstream",
            &upstream_only,
        )?;
        add_counters(
            &mut set,
            "proxy",
            "method_calls_total",
            "Total JSON-RPC method invocations",
            &upstream_and_method,
        )?;
        add_histograms(
            &mut set,
            "proxy",
            "request_latency_seconds",
            "Proxy latency in seconds",
            &upstream_and_method,
            &bounds,
        )?;
        add_histograms(
            &mut set,
            "rpc",
            "method_latency_seconds",
            "JSON-RPC method latency in seconds",
            &upstream_and_method,
            &bounds,
        )?;
        add_counters(
            &mut set,
            "rpc",
            "method_errors_total",
            "JSON-RPC method errors by class",
            &upstream_method_error,
        )?;
        Ok(Metrics { set })
    }

    /// Record a received request before proxying to the upstream.
    pub fn record_request(&mut self, upstream: &str, method: &str)
        requires
            old(self)@.valid(),
        ensures
            final(self)@ == old(self)@.after_request(upstream@, method@),
    {
        let labels: [&str; 2] = [upstream, method];
        let owner: [&str; 1] = [upstream];
        proof {
            lemma_pieces(self@);
            lemma_labels(upstream, method, "");
            assert(labels@ =~= seq![upstream, method]);
            assert(owner@ =~= seq![upstream]);
        }
        count(&mut self.set, REQUESTS, &labels);
        raise(&mut self.set, INFLIGHT, &owner);
    }

    /// Record an upstream response along with latency.
    pub fn record_response(&mut self, upstream: &str, method: &str, status: u16, elapsed: Duration)
        requires
            old(self)@.valid(),
        ensures
            final(self)@ == old(self)@.after_response(upstream@, method@, status, elapsed),
    {
        let numeral = text::decimal_text(status as usize);
        let status_label = numeral.as_str();
        let labels: [&str; 3] = [upstream, method, status_label];
        let pair: [&str; 2] = [upstream, method];
        let owner: [&str; 1] = [upstream];
        proof {
            lemma_pieces(self@);
            lemma_labels(upstream, method, status_label);
            assert(labels@ =~= seq![upstream, method, status_label]);
            assert(pair@ =~= seq![upstream, method]);
            assert(owner@ =~= seq![upstream]);
        }
        count(&mut self.set, RESPONSES, &labels);
        observe(&mut self.set, LATENCY, &pair, elapsed);
        lower(&mut self.set, INFLIGHT, &owner);
    }

    /// Record a proxy error to help track quality-of-service issues.
    pub fn record_error(&mut self, upstream: &str, method: &str, kind: &str)
        requires
            old(self)@.valid(),
        ensures
            final(self)@ == old(self)@.after_error(upstream@, method@, kind@),
    {
        let labels: [&str; 3] = [upstream, method, kind];
        let owner: [&str; 1] = [upstream];
        proof {
            lemma_pieces(self@);
            lemma_labels(upstream, method, kind);
            assert(labels@ =~= seq![upstream, method, kind]);
            assert(owner@ =~= seq![upstream]);
        }
        count(&mut self.set, ERRORS, &labels);
        lower(&mut self.set, INFLIGHT, &owner);
    }

    /// Record a request that failed to match any upstream route.
    pub fn record_unmatched(&mut self, method: &str)
        requires
            old(self)@.valid(),
        ensures
            final(self)@ == old(self)@.after_unmatched(method@),
    {
        let labels: [&str; 3] = ["__unmatched__", method, "no_route"];
        proof {
            lemma_pieces(self@);
            lemma_labels("__unmatched__", method, "no_route");
            assert(labels@ =~= seq!["__unmatched__", method, "no_route"]);
        }
        count(&mut self.set, ERRORS, &labels);
    }

    /// Record one or more JSON-RPC methods extracted from the request payload.
    pub fn record_method_calls(&mut self, upstream: &str, methods: &[String])
        requires
            old(self)@.valid(),
        ensures
            final(self)@ == old(self)@.after_methods(upstream@, method_texts(methods@)),
            final(self)@.valid(),
    {
        let ghost listed = method_texts(methods@);
        let mut i: usize = 0;
        assert(listed.take(0) =~= Seq::<Seq<char>>::empty());
        while i < methods.len()
            invariant
                i <= methods@.len(),
                listed == method_texts(methods@),
                self@.valid(),
                self@ == old(self)@.after_methods(upstream@, listed.take(i as int)),
            decreases methods@.len() - i,
        {
            let method = methods[i].as_str();
            let labels: [&str; 2] = [upstream, method];
            proof {
                lemma_pieces(self@);
                lemma_labels(upstream, method, "");
                assert(labels@ =~= seq![upstream, method]);
                assert(listed.take(i + 1).drop_last() =~= listed.take(i as int));
                assert(listed.take(i + 1).last() == method@);
            }
            count(&mut self.set, METHOD_CALLS, &labels);
            i += 1;
        }
        assert(listed.take(methods@.len() as int) =~= listed);
    }

    /// Record the latency of the JSON-RPC methods of an answered request.
    pub fn record_method_latency(&mut self, upstream: &str, methods: &[String], elapsed: Duration)
        requires
            old(self)@.valid(),
        ensures
            final(self)@ == old(self)@.after_method_latency(
                upstream@,
                method_texts(methods@),
                elapsed,
            ),
            final(self)@.valid(),
    {
        let ghost listed = method_texts(methods@);
        let mut i: usize = 0;
        assert(listed.take(0) =~= Seq::<Seq<char>>::empty());
        while i < methods.len()
            invariant
                i <= methods@.len(),
                listed == method_texts(methods@),
                self@.valid(),
                self@ == old(self)@.after_method_latency(upstream@, listed.take(i as int), elapsed),
            decreases methods@.len() - i,
        {
            let method = methods[i].as_str();
            let labels: [&str; 2] = [upstream, method];
            proof {
                lemma_pieces(self@);
                lemma_labels(upstream, method, "");
                assert(labels@ =~= seq![upstream, method]);
                assert(listed.take(i + 1).drop_last() =~= listed.take(i as int));
                assert(listed.take(i + 1).last() == method@);
            }
            observe(&mut self.set, METHOD_LATENCY, &labels, elapsed);
            i += 1;
        }
        assert(listed.take(methods@.len() as int) =~= listed);
    }

    /// Record a JSON-RPC call that was answered with an error.
    pub fn record_method_error(&mut self, upstream: &str, method: &str, error: &str)
        requires
            old(self)@.valid(),
        ensures
            final(self)@ == old(self)@.after_method_error(upstream@, method@, error@),
    {
        let labels: [&str; 3] = [upstream, method, error];
        proof {
            lemma_pieces(self@);
            lemma_labels(upstream, method, error);
            assert(labels@ =~= seq![upstream, method, error]);
        }
        count(&mut self.set, METHOD_ERRORS, &labels);
    }

    /// How often a JSON-RPC method was called on an upstream. The count is exposed from then on,
    /// if only as zero.
    pub fn method_calls(&mut self, upstream: &str, method: &str) -> (r: u64)
        requires
            old(self)@.valid(),
        ensures
            r == count_at(old(self)@.method_calls(), slot_of(seq![upstream@, method@])),
            final(self)@ == old(self)@.after_reading(upstream@, method@),
    {
        let labels: [&str; 2] = [upstream, method];
        proof {
            lemma_pieces(self@);
            lemma_labels(upstream, method, "");
            assert(labels@ =~= seq![upstream, method]);
        }
        read_count(&mut self.set, METHOD_CALLS, &labels)
    }

    /// Snapshot all metric families for Prometheus exposition.
    pub fn gather(&self) -> (r: Vec<MetricFamily>)
        ensures
            exposition(r@) == Some(exposed_text(self@.prefix, self@.held)),
    {
        gather_families(&self.set)
    }

    /// Encode metrics to a text body consumable by Prometheus scrapers.
    pub fn encode(&self) -> (r: Result<Vec<u8>, prometheus::Error>)
        ensures
            r is Ok,
            r->Ok_0@ == exposed_text(self@.prefix, self@.held),
    {
        let families = self.gather();
        encode_families(&families)
    }
}

/// What the metrics endpoint answers.
#[derive(Debug, PartialEq, Eq)]
pub struct MetricsReply {
    pub status: u16,
    pub content_type: Option<&'static str>,
    pub body: Vec<u8>,
}

/// `prometheus::TEXT_FORMAT`: the media type of the text exposition.
#[verifier::external_body]
fn text_format() -> (r: &'static str)
    ensures
        r@ == "text/plain; version=0.0.4"@,
{
    prometheus::TEXT_FORMAT
}

/// The reply of the metrics endpoint: the encoded metrics, or a bare server error where they could
/// not be encoded.
pub fn reply_with(encoded: Result<Vec<u8>, prometheus::Error>) -> (r: MetricsReply)
    ensures
        match encoded {
            Ok(buffer) => {
                &&& r.status == 200
                &&& r.content_type is Some
                &&& r.content_type->0@ == "text/plain; version=0.0.4"@
                &&& r.body == buffer
            },
            Err(_) => r.status == 500 && r.content_type is None && r.body@.len() == 0,
        },
{
    match encoded {
        Ok(buffer) => MetricsReply {
            status: 200,
            content_type: Some(text_format()),
            body: buffer,
        },
        Err(_) => MetricsReply { status: 500, content_type: None, body: Vec::new() },
    }
}

/// The texts of a list of methods.
pub open spec fn method_texts(methods: Seq<String>) -> Seq<Seq<char>> {
    methods.map_values(|m: String| m@)
}

/// Counting JSON-RPC calls touches nothing but their counts.
pub proof fn counting_methods_keeps_the_rest(
    metrics: MetricsView,
    upstream: Seq<char>,
    methods: Seq<Seq<char>>,
)
    requires
        metrics.valid(),
    ensures
        ({
            let after = metrics.after_methods(upstream, methods);
            &&& after.valid()
            &&& after.held.gauges == metrics.held.gauges
            &&& after.held.histograms == metrics.held.histograms
            &&& forall|i: int|
                0 <= i < after.held.counters.len() && i != METHOD_CALLS
                    ==> #[trigger] after.held.counters[i] == metrics.held.counters[i]
        }),
    decreases methods.len(),
{
    if methods.len() > 0 {
        counting_methods_keeps_the_rest(metrics, upstream, methods.drop_last());
    }
}

/// Timing JSON-RPC calls touches nothing but their latencies.
pub proof fn timing_methods_keeps_the_rest(
    metrics: MetricsView,
    upstream: Seq<char>,
    methods: Seq<Seq<char>>,
    elapsed: Duration,
)
    requires
        metrics.valid(),
    ensures
        ({
            let after = metrics.after_method_latency(upstream, methods, elapsed);
            &&& after.valid()
            &&& after.held.gauges == metrics.held.gauges
            &&& after.held.counters == metrics.held.counters
            &&& after.held.histograms[LATENCY as int] == metrics.held.histograms[LATENCY as int]
        }),
    decreases methods.len(),
{
    if methods.len() > 0 {
        timing_methods_keeps_the_rest(metrics, upstream, methods.drop_last(), elapsed);
    }
}

/// How many of the calls are kept at the slot.
pub open spec fn calls_at(upstream: Seq<char>, methods: Seq<Seq<char>>, slot: u64) -> nat
    decreases methods.len(),
{
    if methods.len() == 0 {
        0
    } else {
        calls_at(upstream, methods.drop_last(), slot) + if slot_of(seq![upstream, methods.last()])
            == slot {
            1nat
        } else {
            0nat
        }
    }
}

/// Every JSON-RPC call of a request is counted once, at the slot of its upstream and method,
/// unless the count runs out of range.
pub proof fn each_call_is_counted_once(
    metrics: MetricsView,
    upstream: Seq<char>,
    methods: Seq<Seq<char>>,
    slot: u64,
)
    requires
        metrics.valid(),
        count_at(metrics.method_calls(), slot) + calls_at(upstream, methods, slot) <= u64::MAX,
    ensures
        count_at(metrics.after_methods(upstream, methods).method_calls(), slot) == count_at(
            metrics.method_calls(),
            slot,
        ) + calls_at(upstream, methods, slot),
    decreases methods.len(),
{
    if methods.len() > 0 {
        each_call_is_counted_once(metrics, upstream, methods.drop_last(), slot);
        counting_methods_keeps_the_rest(metrics, upstream, methods.drop_last());
    }
}

/// How often a method occurs in a list.
pub open spec fn occurrences(methods: Seq<Seq<char>>, method: Seq<char>) -> nat
    decreases methods.len(),
{
    if methods.len() == 0 {
        0
    } else {
        occurrences(methods.drop_last(), method) + if methods.last() == method {
            1nat
        } else {
            0nat
        }
    }
}

/// A method is counted as often as a request calls it, where no other method of the request shares
/// its slot and the count stays in range.
pub proof fn each_method_is_counted_as_often_as_called(
    metrics: MetricsView,
    upstream: Seq<char>,
    methods: Seq<Seq<char>>,
    method: Seq<char>,
)
    requires
        metrics.valid(),
        forall|i: int|
            0 <= i < methods.len() && #[trigger] methods[i] != method ==> slot_of(
                seq![upstream, methods[i]],
            ) != slot_of(seq![upstream, method]),
        count_at(metrics.method_calls(), slot_of(seq![upstream, method])) + occurrences(
            methods,
            method,
        ) <= u64::MAX,
    ensures
        count_at(
            metrics.after_methods(upstream, methods).method_calls(),
            slot_of(seq![upstream, method]),
        ) == count_at(metrics.method_calls(), slot_of(seq![upstream, method])) + occurrences(
            methods,
            method,
        ),
{
    lemma_calls_are_occurrences(upstream, methods, method);
    each_call_is_counted_once(metrics, upstream, methods, slot_of(seq![upstream, method]));
}

proof fn lemma_calls_are_occurrences(
    upstream: Seq<char>,
    methods: Seq<Seq<char>>,
    method: Seq<char>,
)
    requires
        forall|i: int|
            0 <= i < methods.len() && #[trigger] methods[i] != method ==> slot_of(
                seq![upstream, methods[i]],
            ) != slot_of(seq![upstream, method]),
    ensures
        calls_at(upstream, methods, slot_of(seq![upstream, method])) == occurrences(
            methods,
            method,
        ),
    decreases methods.len(),
{
    if methods.len() > 0 {
        let head = methods.drop_last();
        assert forall|i: int| 0 <= i < head.len() && #[trigger] head[i] != method implies slot_of(
            seq![upstream, head[i]],
        ) != slot_of(seq![upstream, method]) by {
            assert(methods[i] == head[i]);
        }
        lemma_calls_are_occurrences(upstream, head, method);
        assert(methods.last() == methods[methods.len() - 1]);
    }
}

/// A request that is accepted and then answered leaves the number of requests under way as it
/// was, for every upstream.
pub proof fn answered_request_is_no_longer_under_way(
    metrics: MetricsView,
    upstream: Seq<char>,
    method: Seq<char>,
    status: u16,
    elapsed: Duration,
    slot: u64,
)
    requires
        metrics.valid(),
    ensures
        level_at(
            metrics.after_request(upstream, method).after_response(
                upstream,
                method,
                status,
                elapsed,
            ).inflight(),
            slot,
        ) == level_at(metrics.inflight(), slot),
{
}

/// A request that is accepted and then fails leaves the number of requests under way as it was,
/// for every upstream.
pub proof fn failed_request_is_no_longer_under_way(
    metrics: MetricsView,
    upstream: Seq<char>,
    method: Seq<char>,
    kind: Seq<char>,
    slot: u64,
)
    requires
        metrics.valid(),
    ensures
        level_at(
            metrics.after_request(upstream, method).after_error(upstream, method, kind).inflight(),
            slot,
        ) == level_at(metrics.inflight(), slot),
{
}

/// Whatever is recorded of a request, the families stay the documented ones.
pub proof fn recording_keeps_the_families(
    metrics: MetricsView,
    upstream: Seq<char>,
    method: Seq<char>,
    label: Seq<char>,
    status: u16,
    elapsed: Duration,
)
    requires
        metrics.valid(),
    ensures
        metrics.after_request(upstream, method).valid(),
        metrics.after_response(upstream, method, status, elapsed).valid(),
        metrics.after_error(upstream, method, label).valid(),
        metrics.after_unmatched(method).valid(),
        metrics.after_method_error(upstream, method, label).valid(),
        metrics.after_reading(upstream, method).valid(),
{
}

/// The texts of lists of labels and of methods are as many as the list has, each at its place.
pub proof fn texts_keep_every_label(labels: Seq<&str>, methods: Seq<String>)
    ensures
        label_texts(labels).len() == labels.len(),
        forall|i: int| 0 <= i < labels.len() ==> #[trigger] label_texts(labels)[i] == labels[i]@,
        method_texts(methods).len() == methods.len(),
        forall|i: int|
            0 <= i < methods.len() ==> #[trigger] method_texts(methods)[i] == methods[i]@,
{
}

/// Label values are kept at the slot of all of them together, one behind the other.
pub proof fn slot_depends_on_every_label(
    first: Seq<char>,
    second: Seq<char>,
    third: Seq<char>,
)
    ensures
        slot_of(seq![first]) == hashing::text_digest(first),
        slot_of(seq![first, second]) == hashing::text_digest(first + second),
        slot_of(seq![first, second, third]) == hashing::text_digest(first + second + third),
{
    reveal_with_fuel(joined, 4);
    let one = seq![first];
    let two = seq![first, second];
    let three = seq![first, second, third];
    assert(one.drop_last() =~= Seq::<Seq<char>>::empty());
    assert(two.drop_last() =~= one);
    assert(three.drop_last() =~= two);
    assert(joined(one) =~= first);
    assert(joined(two) =~= first + second);
    assert(joined(three) =~= first + second + third);
}

/// Counting label values adds one to the count at their slot, which starts over behind the last
/// number of its range, and leaves every other count as it is. A slot that had no series has one
/// with these label values, and one that had keeps its own.
pub proof fn counting_adds_one(counts: Series<u64>, labels: Seq<Seq<char>>, slot: u64)
    ensures
        slot == slot_of(labels) && count_at(counts, slot) < u64::MAX ==> count_at(
            counted(counts, labels),
            slot,
        ) == count_at(counts, slot) + 1,
        slot == slot_of(labels) && count_at(counts, slot) == u64::MAX ==> count_at(
            counted(counts, labels),
            slot,
        ) == 0,
        slot != slot_of(labels) ==> count_at(counted(counts, labels), slot) == count_at(
            counts,
            slot,
        ),
        counted(counts, labels).contains_key(slot) <==> counts.contains_key(slot) || slot
            == slot_of(labels),
        counts.contains_key(slot) ==> counted(counts, labels)[slot].0 == counts[slot].0,
        !counts.contains_key(slot) && slot == slot_of(labels) ==> counted(counts, labels)[slot].0
            == labels,
{
}

/// The count at a slot is that of its series, and zero where there is none; the level likewise.
pub proof fn slot_without_series_stands_at_zero(
    counts: Series<u64>,
    levels: Series<i64>,
    slot: u64,
)
    ensures
        counts.contains_key(slot) ==> count_at(counts, slot) == counts[slot].1,
        !counts.contains_key(slot) ==> count_at(counts, slot) == 0,
        levels.contains_key(slot) ==> level_at(levels, slot) == levels[slot].1,
        !levels.contains_key(slot) ==> level_at(levels, slot) == 0,
{
}

/// Reading the count of label values changes no count; it is exposed from then on.
pub proof fn reading_changes_no_count(counts: Series<u64>, labels: Seq<Seq<char>>, slot: u64)
    ensures
        count_at(shown(counts, labels), slot) == count_at(counts, slot),
        shown(counts, labels).contains_key(slot) <==> counts.contains_key(slot) || slot
            == slot_of(labels),
        counts.contains_key(slot) ==> shown(counts, labels)[slot].0 == counts[slot].0,
        !counts.contains_key(slot) && slot == slot_of(labels) ==> shown(counts, labels)[slot].0
            == labels,
{
}

/// Raising label values adds one to the level at their slot and lowering them takes one away,
/// within the range of a level; every other level stays as it is.
pub proof fn levels_move_by_one(levels: Series<i64>, labels: Seq<Seq<char>>, slot: u64)
    ensures
        slot == slot_of(labels) && level_at(levels, slot) < i64::MAX ==> level_at(
            raised(levels, labels),
            slot,
        ) == level_at(levels, slot) + 1,
        slot == slot_of(labels) && level_at(levels, slot) > i64::MIN ==> level_at(
            lowered(levels, labels),
            slot,
        ) == level_at(levels, slot) - 1,
        slot != slot_of(labels) ==> level_at(raised(levels, labels), slot) == level_at(
            levels,
            slot,
        ),
        slot != slot_of(labels) ==> level_at(lowered(levels, labels), slot) == level_at(
            levels,
            slot,
        ),
        raised(levels, labels).contains_key(slot) <==> levels.contains_key(slot) || slot
            == slot_of(labels),
        lowered(levels, labels).contains_key(slot) <==> levels.contains_key(slot) || slot
            == slot_of(labels),
        levels.contains_key(slot) ==> raised(levels, labels)[slot].0 == levels[slot].0,
        levels.contains_key(slot) ==> lowered(levels, labels)[slot].0 == levels[slot].0,
        !levels.contains_key(slot) && slot == slot_of(labels) ==> raised(levels, labels)[slot].0
            == labels && lowered(levels, labels)[slot].0 == labels,
{
}

/// The spans that were observed at a slot.
pub open spec fn spans_at(spans: Series<Seq<Duration>>, slot: u64) -> Seq<Duration> {
    if spans.contains_key(slot) {
        spans[slot].1
    } else {
        Seq::empty()
    }
}

/// Observing a span for label values puts it behind those observed at their slot before, and
/// leaves every other slot as it is.
pub proof fn observing_adds_the_span(
    spans: Series<Seq<Duration>>,
    labels: Seq<Seq<char>>,
    span: Duration,
    slot: u64,
)
    ensures
        slot == slot_of(labels) ==> spans_at(observed(spans, labels, span), slot) == spans_at(
            spans,
            slot,
        ) + seq![span],
        slot != slot_of(labels) ==> spans_at(observed(spans, labels, span), slot) == spans_at(
            spans,
            slot,
        ),
        observed(spans, labels, span).contains_key(slot) <==> spans.contains_key(slot) || slot
            == slot_of(labels),
        spans.contains_key(slot) ==> observed(spans, labels, span)[slot].0 == spans[slot].0,
        !spans.contains_key(slot) && slot == slot_of(labels) ==> observed(
            spans,
            labels,
            span,
        )[slot].0 == labels,
{
    if slot == slot_of(labels) {
        assert(spans_at(observed(spans, labels, span), slot) =~= spans_at(spans, slot)
            + seq![span]);
    }
}

/// What stands for one family of the documented ones: its name, its labels, and where it is a
/// histogram the upper bounds of its buckets.
pub proof fn families_bear_their_documented_names(metrics: MetricsView)
    requires
        metrics.valid(),
    ensures
        metrics.prefix == "roxy"@,
        metrics.held.counters.len() == 5,
        metrics.held.counters[0].0.name == "proxy_requests_total"@,
        metrics.held.counters[0].0.labels == seq!["upstream"@, "method"@],
        metrics.held.counters[1].0.name == "proxy_responses_total"@,
        metrics.held.counters[1].0.labels == seq!["upstream"@, "method"@, "status"@],
        metrics.held.counters[2].0.name == "proxy_errors_total"@,
        metrics.held.counters[2].0.labels == seq!["upstream"@, "method"@, "kind"@],
        metrics.held.counters[3].0.name == "proxy_method_calls_total"@,
        metrics.held.counters[3].0.labels == seq!["upstream"@, "method"@],
        metrics.held.counters[4].0.name == "rpc_method_errors_total"@,
        metrics.held.counters[4].0.labels == seq!["upstream"@, "method"@, "error"@],
        metrics.held.gauges.len() == 1,
        metrics.held.gauges[0].0.name == "proxy_inflight_requests"@,
        metrics.held.gauges[0].0.labels == seq!["upstream"@],
        metrics.held.histograms.len() == 2,
        metrics.held.histograms[0].0.name == "proxy_request_latency_seconds"@,
        metrics.held.histograms[0].0.labels == seq!["upstream"@, "method"@],
        metrics.held.histograms[1].0.name == "rpc_method_latency_seconds"@,
        metrics.held.histograms[1].0.labels == seq!["upstream"@, "method"@],
        forall|i: int|
            0 <= i < 2 ==> (#[trigger] metrics.held.histograms[i]).0.bounds == seq![
                1u64,
                5u64,
                10u64,
                25u64,
                50u64,
                100u64,
                250u64,
                500u64,
                1000u64,
                2500u64,
                5000u64,
            ],
{
    reveal_strlit("proxy");
    reveal_strlit("rpc");
    reveal_strlit("requests_total");
    reveal_strlit("responses_total");
    reveal_strlit("errors_total");
    reveal_strlit("inflight_requests");
    reveal_strlit("method_calls_total");
    reveal_strlit("request_latency_seconds");
    reveal_strlit("method_latency_seconds");
    reveal_strlit("method_errors_total");
    reveal_strlit("proxy_requests_total");
    reveal_strlit("proxy_responses_total");
    reveal_strlit("proxy_errors_total");
    reveal_strlit("proxy_inflight_requests");
    reveal_strlit("proxy_method_calls_total");
    reveal_strlit("proxy_request_latency_seconds");
    reveal_strlit("rpc_method_latency_seconds");
    reveal_strlit("rpc_method_errors_total");
    assert("proxy"@.push('_') + "requests_total"@ =~= "proxy_requests_total"@);
    assert("proxy"@.push('_') + "responses_total"@ =~= "proxy_responses_total"@);
    assert("proxy"@.push('_') + "errors_total"@ =~= "proxy_errors_total"@);
    assert("proxy"@.push('_') + "inflight_requests"@ =~= "proxy_inflight_requests"@);
    assert("proxy"@.push('_') + "method_calls_total"@ =~= "proxy_method_calls_total"@);
    assert("proxy"@.push('_') + "request_latency_seconds"@ =~= "proxy_request_latency_seconds"@);
    assert("rpc"@.push('_') + "method_latency_seconds"@ =~= "rpc_method_latency_seconds"@);
    assert("rpc"@.push('_') + "method_errors_total"@ =~= "rpc_method_errors_total"@);
}

/// New metrics have recorded nothing: every count and every level is zero, and no latency was
/// observed.
pub proof fn new_metrics_have_recorded_nothing(slot: u64)
    ensures
        ({
            let start = MetricsView { prefix: "roxy"@, held: documented_families() };
            &&& start.valid()
            &&& forall|i: int|
                0 <= i < 5 ==> count_at((#[trigger] start.held.counters[i]).1, slot) == 0
                    && !start.held.counters[i].1.contains_key(slot)
            &&& level_at(start.held.gauges[0].1, slot) == 0
            &&& !start.held.gauges[0].1.contains_key(slot)
            &&& forall|i: int|
                0 <= i < 2 ==> !(#[trigger] start.held.histograms[i]).1.contains_key(slot)
        }),
{
}

/// An accepted request is counted once, by its upstream and HTTP method, and is one more under
/// way at its upstream. Nothing else changes.
pub proof fn accepted_request_is_counted_and_under_way(
    metrics: MetricsView,
    upstream: Seq<char>,
    method: Seq<char>,
)
    requires
        metrics.valid(),
    ensures
        ({
            let before = metrics.held;
            let after = metrics.after_request(upstream, method).held;
            &&& metrics.after_request(upstream, method).prefix == metrics.prefix
            &&& after.counters == before.counters.update(
                0,
                (before.counters[0].0, counted(before.counters[0].1, seq![upstream, method])),
            )
            &&& after.gauges == before.gauges.update(
                0,
                (before.gauges[0].0, raised(before.gauges[0].1, seq![upstream])),
            )
            &&& after.histograms == before.histograms
        }),
{
}

/// An answer is counted once, by its upstream, HTTP method and status in decimal digits, its
/// latency is observed once, by its upstream and HTTP method, and one request less is under way at
/// its upstream. Nothing else changes.
pub proof fn answer_is_counted_and_timed(
    metrics: MetricsView,
    upstream: Seq<char>,
    method: Seq<char>,
    status: u16,
    elapsed: Duration,
)
    requires
        metrics.valid(),
    ensures
        ({
            let before = metrics.held;
            let after = metrics.after_response(upstream, method, status, elapsed).held;
            &&& metrics.after_response(upstream, method, status, elapsed).prefix == metrics.prefix
            &&& after.counters == before.counters.update(
                1,
                (
                    before.counters[1].0,
                    counted(
                        before.counters[1].1,
                        seq![upstream, method, text::decimal(status as nat)],
                    ),
                ),
            )
            &&& after.gauges == before.gauges.update(
                0,
                (before.gauges[0].0, lowered(before.gauges[0].1, seq![upstream])),
            )
            &&& after.histograms == before.histograms.update(
                0,
                (
                    before.histograms[0].0,
                    observed(before.histograms[0].1, seq![upstream, method], elapsed),
                ),
            )
        }),
{
}

/// A failed request is counted once, by its upstream, HTTP method and kind of failure, and one
/// request less is under way at its upstream. Nothing else changes.
pub proof fn failed_request_is_counted(
    metrics: MetricsView,
    upstream: Seq<char>,
    method: Seq<char>,
    kind: Seq<char>,
)
    requires
        metrics.valid(),
    ensures
        ({
            let before = metrics.held;
            let after = metrics.after_error(upstream, method, kind).held;
            &&& metrics.after_error(upstream, method, kind).prefix == metrics.prefix
            &&& after.counters == before.counters.update(
                2,
                (before.counters[2].0, counted(before.counters[2].1, seq![upstream, method, kind])),
            )
            &&& after.gauges == before.gauges.update(
                0,
                (before.gauges[0].0, lowered(before.gauges[0].1, seq![upstream])),
            )
            &&& after.histograms == before.histograms
        }),
{
}

/// A request without route is counted once among the errors, under a name that stands for no
/// upstream. It was never under way, and nothing else changes.
pub proof fn request_without_route_is_counted(metrics: MetricsView, method: Seq<char>)
    requires
        metrics.valid(),
    ensures
        ({
            let before = metrics.held;
            let after = metrics.after_unmatched(method).held;
            &&& metrics.after_unmatched(method).prefix == metrics.prefix
            &&& after.counters == before.counters.update(
                2,
                (
                    before.counters[2].0,
                    counted(
                        before.counters[2].1,
                        seq!["__unmatched__"@, method, "no_route"@],
                    ),
                ),
            )
            &&& after.gauges == before.gauges
            &&& after.histograms == before.histograms
        }),
{
}

/// A JSON-RPC call that was answered with an error is counted once, by its upstream, method and
/// class of error, and reading the count of a method changes none of the counts. Nothing else
/// changes.
pub proof fn failed_call_is_counted(
    metrics: MetricsView,
    upstream: Seq<char>,
    method: Seq<char>,
    error: Seq<char>,
)
    requires
        metrics.valid(),
    ensures
        ({
            let before = metrics.held;
            let after = metrics.after_method_error(upstream, method, error).held;
            let read = metrics.after_reading(upstream, method).held;
            &&& metrics.after_method_error(upstream, method, error).prefix == metrics.prefix
            &&& after.counters == before.counters.update(
                4,
                (before.counters[4].0, counted(before.counters[4].1, seq![upstream, method, error])),
            )
            &&& after.gauges == before.gauges
            &&& after.histograms == before.histograms
            &&& metrics.after_reading(upstream, method).prefix == metrics.prefix
            &&& read.counters == before.counters.update(
                3,
                (before.counters[3].0, shown(before.counters[3].1, seq![upstream, method])),
            )
            &&& read.gauges == before.gauges
            &&& read.histograms == before.histograms
        }),
{
}

/// Every JSON-RPC call of an answered request is timed once: the time that the answer took is
/// observed as often as the request has calls at a slot.
pub proof fn each_call_is_timed_once(
    metrics: MetricsView,
    upstream: Seq<char>,
    methods: Seq<Seq<char>>,
    elapsed: Duration,
    slot: u64,
)
    requires
        metrics.valid(),
    ensures
        spans_at(
            metrics.after_method_latency(upstream, methods, elapsed).held.histograms[1].1,
            slot,
        ) == spans_at(metrics.held.histograms[1].1, slot) + Seq::new(
            calls_at(upstream, methods, slot),
            |i: int| elapsed,
        ),
    decreases methods.len(),
{
    let before = spans_at(metrics.held.histograms[1].1, slot);
    if methods.len() > 0 {
        let head = methods.drop_last();
        let earlier = metrics.after_method_latency(upstream, head, elapsed);
        each_call_is_timed_once(metrics, upstream, head, elapsed, slot);
        timing_methods_keeps_the_rest(metrics, upstream, head, elapsed);
        observing_adds_the_span(
            earlier.held.histograms[1].1,
            seq![upstream, methods.last()],
            elapsed,
            slot,
        );
        let n = calls_at(upstream, head, slot);
        assert(before + Seq::new(n, |i: int| elapsed) + seq![elapsed] =~= before + Seq::new(
            n + 1,
            |i: int| elapsed,
        ));
    } else {
        assert(before + Seq::new(0, |i: int| elapsed) =~= before);
    }
}

/// The calls at a slot add up over the parts of a list, one call at the slot of its upstream and
/// method is one, and a method occurs in a list as often as in its parts together.
pub proof fn calls_add_up(
    upstream: Seq<char>,
    first: Seq<Seq<char>>,
    second: Seq<Seq<char>>,
    method: Seq<char>,
    slot: u64,
)
    ensures
        calls_at(upstream, first + second, slot) == calls_at(upstream, first, slot) + calls_at(
            upstream,
            second,
            slot,
        ),
        calls_at(upstream, seq![method], slot) == if slot_of(seq![upstream, method]) == slot {
            1nat
        } else {
            0nat
        },
        occurrences(first + second, method) == occurrences(first, method) + occurrences(
            second,
            method,
        ),
        occurrences(seq![method], method) == 1,
        first.len() == 1 && first[0] != method ==> occurrences(first, method) == 0,
    decreases second.len(),
{
    reveal_with_fuel(calls_at, 2);
    reveal_with_fuel(occurrences, 2);
    assert(seq![method].drop_last() =~= Seq::<Seq<char>>::empty());
    if second.len() > 0 {
        calls_add_up(upstream, first, second.drop_last(), method, slot);
        assert((first + second).drop_last() =~= first + second.drop_last());
        assert((first + second).last() == second.last());
    } else {
        assert(first + second =~= first);
    }
}

/// One more JSON-RPC call in a request is counted once more, by its upstream and method, however
/// many calls came before it; a request without calls counts none.
pub proof fn one_more_call_is_counted_once_more(
    metrics: MetricsView,
    upstream: Seq<char>,
    methods: Seq<Seq<char>>,
    method: Seq<char>,
)
    requires
        metrics.valid(),
    ensures
        metrics.after_methods(upstream, Seq::empty()) == metrics,
        metrics.after_methods(upstream, methods.push(method)).held.counters[3].1 == counted(
            metrics.after_methods(upstream, methods).held.counters[3].1,
            seq![upstream, method],
        ),
{
    assert(methods.push(method).drop_last() =~= methods);
    counting_methods_keeps_the_rest(metrics, upstream, methods);
}

/// One more JSON-RPC call in an answered request is timed once more, by its upstream and method,
/// however many calls came before it; a request without calls times none.
pub proof fn one_more_call_is_timed_once_more(
    metrics: MetricsView,
    upstream: Seq<char>,
    methods: Seq<Seq<char>>,
    method: Seq<char>,
    elapsed: Duration,
)
    requires
        metrics.valid(),
    ensures
        metrics.after_method_latency(upstream, Seq::empty(), elapsed) == metrics,
        metrics.after_method_latency(upstream, methods.push(method), elapsed).held.histograms[1].1
            == observed(
            metrics.after_method_latency(upstream, methods, elapsed).held.histograms[1].1,
            seq![upstream, method],
            elapsed,
        ),
{
    assert(methods.push(method).drop_last() =~= methods);
    timing_methods_keeps_the_rest(metrics, upstream, methods, elapsed);
}

/// The metrics endpoint answers with the encoded metrics as they are, in the text format of
/// Prometheus, and with a bare server error where they could not be encoded.
pub proof fn endpoint_answers_with_the_encoded_metrics(
    encoded: Result<Vec<u8>, prometheus::Error>,
    r: MetricsReply,
)
    requires
        call_ensures(reply_with, (encoded,), r),
    ensures
        encoded is Ok ==> r.status == 200 && r.body@ == encoded->Ok_0@ && r.content_type is Some
            && r.content_type->Some_0@ == "text/plain; version=0.0.4"@,
        encoded is Err ==> r.status == 500 && r.body@ == Seq::<u8>::empty() && r.content_type is None,
{
}

/// Recording an accepted request raises the count of its upstream and HTTP method by one and the
/// number of requests under way at its upstream by one, within their ranges; no other count and no
/// other level changes.
pub proof fn recording_a_request_counts_it(
    metrics: &mut Metrics,
    upstream: &str,
    method: &str,
    family: int,
    slot: u64,
)
    requires
        call_ensures(Metrics::record_request, (metrics, upstream, method), ()),
        old(metrics)@.valid(),
        0 <= family < 5,
        count_at(old(metrics)@.held.counters[family].1, slot) < u64::MAX,
        level_at(old(metrics)@.held.gauges[0].1, slot) < i64::MAX,
    ensures
        ({
            let before = old(metrics)@.held;
            let after = final(metrics)@.held;
            let counted_here = family == 0 && slot == slot_of(seq![upstream@, method@]);
            &&& counted_here ==> count_at(after.counters[family].1, slot) == count_at(
                before.counters[family].1,
                slot,
            ) + 1
            &&& !counted_here ==> count_at(after.counters[family].1, slot) == count_at(
                before.counters[family].1,
                slot,
            )
            &&& slot == slot_of(seq![upstream@]) ==> level_at(after.gauges[0].1, slot) == level_at(
                before.gauges[0].1,
                slot,
            ) + 1
            &&& slot != slot_of(seq![upstream@]) ==> level_at(after.gauges[0].1, slot) == level_at(
                before.gauges[0].1,
                slot,
            )
            &&& after.histograms == before.histograms
        }),
{
    let before = old(metrics)@.held;
    accepted_request_is_counted_and_under_way(old(metrics)@, upstream@, method@);
    counting_adds_one(before.counters[0].1, seq![upstream@, method@], slot);
    levels_move_by_one(before.gauges[0].1, seq![upstream@], slot);
}

/// Recording an answer raises the count of its upstream, HTTP method and status by one, puts the
/// time that it took behind those observed for the upstream and HTTP method, and lowers the number
/// of requests under way at its upstream by one, within their ranges; no other count, level or
/// latency changes.
pub proof fn recording_an_answer_counts_and_times_it(
    metrics: &mut Metrics,
    upstream: &str,
    method: &str,
    status: u16,
    elapsed: Duration,
    family: int,
    slot: u64,
)
    requires
        call_ensures(Metrics::record_response, (metrics, upstream, method, status, elapsed), ()),
        old(metrics)@.valid(),
        0 <= family < 5,
        count_at(old(metrics)@.held.counters[family].1, slot) < u64::MAX,
        level_at(old(metrics)@.held.gauges[0].1, slot) > i64::MIN,
    ensures
        ({
            let before = old(metrics)@.held;
            let after = final(metrics)@.held;
            let labels = seq![upstream@, method@, text::decimal(status as nat)];
            let counted_here = family == 1 && slot == slot_of(labels);
            &&& counted_here ==> count_at(after.counters[family].1, slot) == count_at(
                before.counters[family].1,
                slot,
            ) + 1
            &&& !counted_here ==> count_at(after.counters[family].1, slot) == count_at(
                before.counters[family].1,
                slot,
            )
            &&& slot == slot_of(seq![upstream@]) ==> level_at(after.gauges[0].1, slot) == level_at(
                before.gauges[0].1,
                slot,
            ) - 1
            &&& slot != slot_of(seq![upstream@]) ==> level_at(after.gauges[0].1, slot) == level_at(
                before.gauges[0].1,
                slot,
            )
            &&& slot == slot_of(seq![upstream@, method@]) ==> spans_at(
                after.histograms[0].1,
                slot,
            ) == spans_at(before.histograms[0].1, slot) + seq![elapsed]
            &&& slot != slot_of(seq![upstream@, method@]) ==> spans_at(
                after.histograms[0].1,
                slot,
            ) == spans_at(before.histograms[0].1, slot)
            &&& after.histograms[1] == before.histograms[1]
        }),
{
    let before = old(metrics)@.held;
    let labels = seq![upstream@, method@, text::decimal(status as nat)];
    answer_is_counted_and_timed(old(metrics)@, upstream@, method@, status, elapsed);
    counting_adds_one(before.counters[1].1, labels, slot);
    levels_move_by_one(before.gauges[0].1, seq![upstream@], slot);
    observing_adds_the_span(before.histograms[0].1, seq![upstream@, method@], elapsed, slot);
}

/// Recording a failure raises the count of its upstream, HTTP method and kind by one and lowers
/// the number of requests under way at its upstream by one, within their ranges; no other count,
/// level or latency changes.
pub proof fn recording_a_failure_counts_it(
    metrics: &mut Metrics,
    upstream: &str,
    method: &str,
    kind: &str,
    family: int,
    slot: u64,
)
    requires
        call_ensures(Metrics::record_error, (metrics, upstream, method, kind), ()),
        old(metrics)@.valid(),
        0 <= family < 5,
        count_at(old(metrics)@.held.counters[family].1, slot) < u64::MAX,
        level_at(old(metrics)@.held.gauges[0].1, slot) > i64::MIN,
    ensures
        ({
            let before = old(metrics)@.held;
            let after = final(metrics)@.held;
            let counted_here = family == 2 && slot == slot_of(seq![upstream@, method@, kind@]);
            &&& counted_here ==> count_at(after.counters[family].1, slot) == count_at(
                before.counters[family].1,
                slot,
            ) + 1
            &&& !counted_here ==> count_at(after.counters[family].1, slot) == count_at(
                before.counters[family].1,
                slot,
            )
            &&& slot == slot_of(seq![upstream@]) ==> level_at(after.gauges[0].1, slot) == level_at(
                before.gauges[0].1,
                slot,
            ) - 1
            &&& slot != slot_of(seq![upstream@]) ==> level_at(after.gauges[0].1, slot) == level_at(
                before.gauges[0].1,
                slot,
            )
            &&& after.histograms == before.histograms
        }),
{
    let before = old(metrics)@.held;
    failed_request_is_counted(old(metrics)@, upstream@, method@, kind@);
    counting_adds_one(before.counters[2].1, seq![upstream@, method@, kind@], slot);
    levels_move_by_one(before.gauges[0].1, seq![upstream@], slot);
}

/// Recording a request without route raises one count by one, that of requests without route by
/// HTTP method, within its range; it changes nothing else.
pub proof fn recording_a_request_without_route_counts_it(
    metrics: &mut Metrics,
    method: &str,
    family: int,
    slot: u64,
)
    requires
        call_ensures(Metrics::record_unmatched, (metrics, method), ()),
        old(metrics)@.valid(),
        0 <= family < 5,
        count_at(old(metrics)@.held.counters[family].1, slot) < u64::MAX,
    ensures
        ({
            let before = old(metrics)@.held;
            let after = final(metrics)@.held;
            let labels = seq!["__unmatched__"@, method@, "no_route"@];
            let counted_here = family == 2 && slot == slot_of(labels);
            &&& counted_here ==> count_at(after.counters[family].1, slot) == count_at(
                before.counters[family].1,
                slot,
            ) + 1
            &&& !counted_here ==> count_at(after.counters[family].1, slot) == count_at(
                before.counters[family].1,
                slot,
            )
            &&& after.gauges == before.gauges
            &&& after.histograms == before.histograms
        }),
{
    let before = old(metrics)@.held;
    request_without_route_is_counted(old(metrics)@, method@);
    counting_adds_one(before.counters[2].1, seq!["__unmatched__"@, method@, "no_route"@], slot);
}

/// Recording the JSON-RPC calls of a request counts each method as often as the request calls it,
/// however many calls it has, where no other method of the request shares its slot and the count
/// stays in range; it touches nothing but these counts.
pub proof fn recording_calls_counts_each_of_them(
    metrics: &mut Metrics,
    upstream: &str,
    methods: &[String],
    method: Seq<char>,
)
    requires
        call_ensures(Metrics::record_method_calls, (metrics, upstream, methods), ()),
        old(metrics)@.valid(),
        forall|i: int|
            0 <= i < methods@.len() && (#[trigger] methods@[i])@ != method ==> slot_of(
                seq![upstream@, methods@[i]@],
            ) != slot_of(seq![upstream@, method]),
        count_at(old(metrics)@.held.counters[3].1, slot_of(seq![upstream@, method])) + occurrences(
            methods@.map_values(|m: String| m@),
            method,
        ) <= u64::MAX,
    ensures
        count_at(final(metrics)@.held.counters[3].1, slot_of(seq![upstream@, method])) == count_at(
            old(metrics)@.held.counters[3].1,
            slot_of(seq![upstream@, method]),
        ) + occurrences(methods@.map_values(|m: String| m@), method),
        final(metrics)@.held.gauges == old(metrics)@.held.gauges,
        final(metrics)@.held.histograms == old(metrics)@.held.histograms,
        forall|i: int|
            0 <= i < 5 && i != 3 ==> #[trigger] final(metrics)@.held.counters[i]
                == old(metrics)@.held.counters[i],
{
    let listed = method_texts(methods@);
    assert(listed =~= methods@.map_values(|m: String| m@));
    assert forall|i: int| 0 <= i < listed.len() && #[trigger] listed[i] != method implies slot_of(
        seq![upstream@, listed[i]],
    ) != slot_of(seq![upstream@, method]) by {
        assert(listed[i] == methods@[i]@);
    }
    each_method_is_counted_as_often_as_called(old(metrics)@, upstream@, listed, method);
    counting_methods_keeps_the_rest(old(metrics)@, upstream@, listed);
}

/// Recording the latency of the JSON-RPC calls of a request puts it behind those observed before,
/// once for each call, however many there are; it touches nothing but these latencies.
pub proof fn recording_latency_times_each_call(
    metrics: &mut Metrics,
    upstream: &str,
    methods: &[String],
    elapsed: Duration,
    slot: u64,
)
    requires
        call_ensures(Metrics::record_method_latency, (metrics, upstream, methods, elapsed), ()),
        old(metrics)@.valid(),
    ensures
        spans_at(final(metrics)@.held.histograms[1].1, slot) == spans_at(
            old(metrics)@.held.histograms[1].1,
            slot,
        ) + Seq::new(
            calls_at(upstream@, methods@.map_values(|m: String| m@), slot),
            |i: int| elapsed,
        ),
        final(metrics)@.held.counters == old(metrics)@.held.counters,
        final(metrics)@.held.gauges == old(metrics)@.held.gauges,
        final(metrics)@.held.histograms[0] == old(metrics)@.held.histograms[0],
{
    let listed = method_texts(methods@);
    assert(listed =~= methods@.map_values(|m: String| m@));
    each_call_is_timed_once(old(metrics)@, upstream@, listed, elapsed, slot);
    timing_methods_keeps_the_rest(old(metrics)@, upstream@, listed, elapsed);
}

/// Recording a JSON-RPC call that was answered with an error raises the count of its upstream,
/// method and class of error by one, within its range; it changes nothing else.
pub proof fn recording_a_failed_call_counts_it(
    metrics: &mut Metrics,
    upstream: &str,
    method: &str,
    error: &str,
    family: int,
    slot: u64,
)
    requires
        call_ensures(Metrics::record_method_error, (metrics, upstream, method, error), ()),
        old(metrics)@.valid(),
        0 <= family < 5,
        count_at(old(metrics)@.held.counters[family].1, slot) < u64::MAX,
    ensures
        ({
            let before = old(metrics)@.held;
            let after = final(metrics)@.held;
            let counted_here = family == 4 && slot == slot_of(seq![upstream@, method@, error@]);
            &&& counted_here ==> count_at(after.counters[family].1, slot) == count_at(
                before.counters[family].1,
                slot,
            ) + 1
            &&& !counted_here ==> count_at(after.counters[family].1, slot) == count_at(
                before.counters[family].1,
                slot,
            )
            &&& after.gauges == before.gauges
            &&& after.histograms == before.histograms
        }),
{
    let before = old(metrics)@.held;
    failed_call_is_counted(old(metrics)@, upstream@, method@, error@);
    counting_adds_one(before.counters[4].1, seq![upstream@, method@, error@], slot);
}

/// The count that is read of a method is the one that was recorded, and reading it changes no
/// count.
pub proof fn count_is_read_as_recorded(
    metrics: &mut Metrics,
    upstream: &str,
    method: &str,
    count: u64,
    family: int,
    slot: u64,
)
    requires
        call_ensures(Metrics::method_calls, (metrics, upstream, method), count),
        old(metrics)@.valid(),
        0 <= family < 5,
    ensures
        count == count_at(
            old(metrics)@.held.counters[3].1,
            slot_of(seq![upstream@, method@]),
        ),
        count_at(final(metrics)@.held.counters[family].1, slot) == count_at(
            old(metrics)@.held.counters[family].1,
            slot,
        ),
        final(metrics)@.held.gauges == old(metrics)@.held.gauges,
        final(metrics)@.held.histograms == old(metrics)@.held.histograms,
{
    let before = old(metrics)@.held;
    failed_call_is_counted(old(metrics)@, upstream@, method@, method@);
    reading_changes_no_count(before.counters[3].1, seq![upstream@, method@], slot);
}

/// Metrics can always be set up and always be encoded, and what is encoded is all that they hold.
pub proof fn metrics_are_encoded_in_full(
    created: Result<Metrics, prometheus::Error>,
    metrics: Metrics,
    text: Result<Vec<u8>, prometheus::Error>,
)
    requires
        call_ensures(Metrics::new, (), created),
        call_ensures(Metrics::encode, (&metrics,), text),
    ensures
        created is Ok,
        created->Ok_0@.prefix == "roxy"@,
        created->Ok_0@.valid(),
        text is Ok,
        text->Ok_0@ == exposed_text(metrics@.prefix, metrics@.held),
{
}

} // verus!
