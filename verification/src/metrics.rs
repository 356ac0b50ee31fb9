//! Metric type implementations.
use vstd::prelude::*;

pub mod counter;
pub mod exemplar;
pub mod family;
pub mod gauge;
pub mod histogram;
pub mod info;

verus! {

/// A metric that is aware of its Open Metrics metric type.
pub trait TypedMetric {
    /// The OpenMetrics metric type.
    const TYPE: MetricType = MetricType::Unknown;
}

/// OpenMetrics metric type.
#[derive(Clone, Copy, Debug)]
pub enum MetricType {
    Counter,
    Gauge,
    Histogram,
    Info,
    Unknown,
}

/// The name of a metric type in the text exposition.
pub open spec fn metric_type_name(t: MetricType) -> Seq<char> {
    match t {
        MetricType::Counter => "counter"@,
        MetricType::Gauge => "gauge"@,
        MetricType::Histogram => "histogram"@,
        MetricType::Info => "info"@,
        MetricType::Unknown => "unknown"@,
    }
}

impl MetricType {
    /// Returns the given metric type's str representation.
    pub fn as_str(&self) -> (r: &str)
        ensures
            r@ == metric_type_name(*self),
    {
        match self {
            MetricType::Counter => "counter",
            MetricType::Gauge => "gauge",
            MetricType::Histogram => "histogram",
            MetricType::Info => "info",
            MetricType::Unknown => "unknown",
        }
    }
}

} // verus!
