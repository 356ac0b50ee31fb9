//! Module implementing an Open Metrics counter.
//!
//! See [`Counter`] for details.
use std::marker::PhantomData;
use std::sync::atomic::{AtomicU32, AtomicU64, Ordering};
use std::sync::Arc;
use vstd::prelude::*;

use crate::encoding::text::{labels_block, value_part};
use crate::encoding::{
    EncodeCounterValue, EncodeMetric, IntegerValue, LabelView, MetricEncoder, MetricView, SampleConfig,
};
use crate::metrics::{MetricType, TypedMetric};

verus! {

/// Open Metrics [`Counter`] to measure discrete events.
///
/// Single monotonically increasing value metric.
///
/// [`Counter`] is generic over the actual data type tracking the [`Counter`]
/// state as well as the data type used to interact with the [`Counter`]. Out
/// of convenience the generic type parameters are set to use an [`AtomicU64`]
/// as a storage and [`u64`] on the interface by default.
///
/// Clones share the same storage: an increase through one clone is seen
/// through all of them.
pub struct Counter<N = u64, A = AtomicU64> {
    value: Arc<A>,
    phantom: PhantomData<N>,
}

impl<N, A> Counter<N, A> {
    /// The value store of the counter.
    pub closed spec fn store(&self) -> A {
        *self.value
    }
}

impl<N, A> Clone for Counter<N, A> {
    fn clone(&self) -> (r: Self)
        ensures
            r.store() == self.store(),
    {
        Counter { value: Arc::clone(&self.value), phantom: PhantomData }
    }
}

impl<N, A: Default> Default for Counter<N, A> {
    fn default() -> Self {
        Counter { value: Arc::new(A::default()), phantom: PhantomData }
    }
}

impl<N, A: Atomic<N>> Counter<N, A> {
    /// Increase the [`Counter`] by 1, returning the previous value.
    pub fn inc(&self) -> N {
        self.value.inc()
    }

    /// Increase the [`Counter`] by `v`, returning the previous value.
    pub fn inc_by(&self, v: N) -> N {
        self.value.inc_by(v)
    }

    /// Get the current value of the [`Counter`].
    pub fn get(&self) -> N {
        self.value.get()
    }

    /// Exposes the inner atomic type of the [`Counter`].
    ///
    /// This should only be used for advanced use-cases which are not directly
    /// supported by the library.
    ///
    /// The caller of this function has to uphold the property of an Open
    /// Metrics counter namely that the value is monotonically increasing,
    /// i.e. either stays the same or increases.
    pub fn inner(&self) -> (r: &A)
        ensures
            *r == self.store(),
    {
        &self.value
    }
}

/// Atomic operations for a [`Counter`] value store.
///
/// The store is shared between threads, so nothing is stated here of the
/// values that the operations return: another thread may change the store
/// at any time.
pub trait Atomic<N> {
    /// Increase the value by 1, returning the previous value.
    fn inc(&self) -> N;

    /// Increase the value by `v`, returning the previous value.
    fn inc_by(&self, v: N) -> N;

    /// Get the current value.
    fn get(&self) -> N;
}

impl Atomic<u64> for AtomicU64 {
    fn inc(&self) -> u64 {
        self.fetch_add(1, Ordering::Relaxed)
    }

    fn inc_by(&self, v: u64) -> u64 {
        self.fetch_add(v, Ordering::Relaxed)
    }

    fn get(&self) -> u64 {
        self.load(Ordering::Relaxed)
    }
}

impl Atomic<u32> for AtomicU32 {
    fn inc(&self) -> u32 {
        self.fetch_add(1, Ordering::Relaxed)
    }

    fn inc_by(&self, v: u32) -> u32 {
        self.fetch_add(v, Ordering::Relaxed)
    }

    fn get(&self) -> u32 {
        self.load(Ordering::Relaxed)
    }
}

impl<N, A> TypedMetric for Counter<N, A> {
    const TYPE: MetricType = MetricType::Counter;
}

impl<N, A> EncodeMetric for Counter<N, A> where N: EncodeCounterValue, A: Atomic<N> {
    /// Encoding succeeds where every value of the type encodes.
    open spec fn encode_succeeds(&self) -> bool {
        forall|v: N| #[trigger] v.counter_encodes()
    }

    open spec fn spec_metric_type(&self) -> MetricType {
        MetricType::Counter
    }

    /// One `_total` sample with a value of the counter's type.
    open spec fn text_samples(&self, cfg: SampleConfig, s: Seq<char>) -> bool {
        exists|v: N|
            s == cfg.0 + seq!['_'] + "total"@ + labels_block(cfg.1, None, cfg.2) + value_part(
                Some(#[trigger] v.counter_value()),
            ) + seq!['\n']
    }

    /// One counter metric with the encoder's labels and a value of the
    /// counter's type.
    open spec fn proto_samples(&self, labels: Seq<LabelView>, ms: Seq<MetricView>) -> bool {
        exists|v: N| ms == seq![(labels, None::<IntegerValue>, Some(#[trigger] v.counter_value()))]
    }

    /// Encodes one `_total` sample with the current value.
    fn encode(&self, encoder: &mut MetricEncoder) -> (r: Result<(), std::fmt::Error>) {
        let v = self.get();
        let r = encoder.encode_counter(&v);
        proof {
            let x = v.counter_value();
            if r is Ok {
                if old(encoder).text() is Some {
                    let a = old(encoder).text()->0;
                    let b = encoder.text()->0;
                    assert(b.output().skip(a.output().len() as int) =~= a.sample_name() + seq!['_']
                        + "total"@ + a.sample_labels(None) + value_part(Some(x)) + seq!['\n']);
                }
                if old(encoder).proto() is Some {
                    let a = old(encoder).proto()->0;
                    let b = encoder.proto()->0;
                    assert(b.spec_metrics().skip(a.spec_metrics().len() as int) =~= seq![
                        (a.spec_labels(), None::<IntegerValue>, Some(x)),
                    ]);
                }
            }
        }
        r
    }

    fn metric_type(&self) -> (r: MetricType)
        ensures
            r == MetricType::Counter,
    {
        MetricType::Counter
    }
}

} // verus!
