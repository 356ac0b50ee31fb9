//! Module implementing the constructors of the metrics of an Open Metrics
//! family.
use vstd::prelude::*;

verus! {

/// A constructor for creating new metrics in a family.
///
/// Any function or closure without arguments that returns a metric is one.
pub trait MetricConstructor<M> {
    /// Whether a metric can be created now.
    spec fn can_create(&self) -> bool;

    /// Create a new metric.
    fn new_metric(&self) -> M
        requires
            self.can_create(),
    ;
}

impl<M, F: Fn() -> M> MetricConstructor<M> for F {
    open spec fn can_create(&self) -> bool {
        call_requires(*self, ())
    }

    fn new_metric(&self) -> (r: M)
        ensures
            call_ensures(*self, (), r),
    {
        self()
    }
}

} // verus!
