//! Data model of the Prometheus `io.prometheus.client` protobuf messages that
//! the encoder fills.
use vstd::prelude::*;

use crate::encoding::IntegerValue;

verus! {

/// The type of a metric family.
#[derive(Debug, Clone, Copy, PartialEq, Eq, Structural)]
pub enum MetricType {
    Counter,
    Gauge,
    Summary,
    Untyped,
    Histogram,
    GaugeHistogram,
}

/// The wire number of a metric type.
pub open spec fn metric_type_number(t: MetricType) -> i32 {
    match t {
        MetricType::Counter => 0,
        MetricType::Gauge => 1,
        MetricType::Summary => 2,
        MetricType::Untyped => 3,
        MetricType::Histogram => 4,
        MetricType::GaugeHistogram => 5,
    }
}

/// The wire numbers are those of the `MetricType` enum of the
/// `io.prometheus.client` schema: COUNTER = 0, GAUGE = 1, SUMMARY = 2,
/// UNTYPED = 3, HISTOGRAM = 4, GAUGE_HISTOGRAM = 5; no two types share one.
pub proof fn lemma_wire_numbers()
    ensures
        metric_type_number(MetricType::Counter) == 0,
        metric_type_number(MetricType::Gauge) == 1,
        metric_type_number(MetricType::Summary) == 2,
        metric_type_number(MetricType::Untyped) == 3,
        metric_type_number(MetricType::Histogram) == 4,
        metric_type_number(MetricType::GaugeHistogram) == 5,
        forall|a: MetricType, b: MetricType|
            #[trigger] metric_type_number(a) == #[trigger] metric_type_number(b) ==> a == b,
{
}

impl MetricType {
    /// The wire number of the metric type, as the schema fixes it.
    pub fn number(&self) -> (r: i32)
        ensures
            r == metric_type_number(*self),
            *self == MetricType::Counter ==> r == 0,
            *self == MetricType::Gauge ==> r == 1,
            *self == MetricType::Summary ==> r == 2,
            *self == MetricType::Untyped ==> r == 3,
            *self == MetricType::Histogram ==> r == 4,
            *self == MetricType::GaugeHistogram ==> r == 5,
    {
        match self {
            MetricType::Counter => 0,
            MetricType::Gauge => 1,
            MetricType::Summary => 2,
            MetricType::Untyped => 3,
            MetricType::Histogram => 4,
            MetricType::GaugeHistogram => 5,
        }
    }
}

/// A label.
#[derive(Debug)]
pub struct LabelPair {
    pub name: String,
    pub value: String,
}

/// The value of a gauge.
#[derive(Debug)]
pub struct Gauge {
    pub value: IntegerValue,
}

/// The value of a counter.
#[derive(Debug)]
pub struct Counter {
    pub value: IntegerValue,
}

/// One metric of a family: its labels and its value.
#[derive(Debug)]
pub struct Metric {
    pub label: Vec<LabelPair>,
    pub gauge: Option<Gauge>,
    pub counter: Option<Counter>,
}

/// A metric family: a name, a help text, a type, a unit and its metrics.
#[derive(Debug)]
pub struct MetricFamily {
    pub name: String,
    pub help: String,
    pub metric_type: i32,
    pub metric: Vec<Metric>,
    pub unit: String,
}

} // verus!
