//! Module implementing an Open Metrics gauge.
//!
//! See [`Gauge`] for details.
use std::marker::PhantomData;
use std::sync::atomic::{AtomicI32, AtomicI64, AtomicU32, AtomicU64, Ordering};
use std::sync::Arc;
use vstd::prelude::*;

use crate::encoding::text::{labels_block, value_part};
use crate::encoding::{
    EncodeGaugeValue, EncodeMetric, IntegerValue, LabelView, MetricEncoder, MetricView, SampleConfig,
};
use crate::metrics::{MetricType, TypedMetric};

verus! {

/// Open Metrics [`Gauge`] to record current measurements.
///
/// Single increasing, decreasing or constant value metric.
///
/// [`Gauge`] is generic over the actual data type tracking the [`Gauge`]
/// state as well as the data type used to interact with the [`Gauge`]. Out of
/// convenience the generic type parameters are set to use an [`AtomicU64`] as
/// a storage and [`u64`] on the interface by default.
///
/// Clones share the same storage: a change through one clone is seen through
/// all of them.
pub struct Gauge<N = u64, A = AtomicU64> {
    value: Arc<A>,
    phantom: PhantomData<N>,
}

impl<N, A> Gauge<N, A> {
    /// The value store of the gauge.
    pub closed spec fn store(&self) -> A {
        *self.value
    }
}

impl<N, A> Clone for Gauge<N, A> {
    fn clone(&self) -> (r: Self)
        ensures
            r.store() == self.store(),
    {
        Gauge { value: Arc::clone(&self.value), phantom: PhantomData }
    }
}

impl<N, A: Default> Default for Gauge<N, A> {
    fn default() -> Self {
        Gauge { value: Arc::new(A::default()), phantom: PhantomData }
    }
}

impl<N, A: Atomic<N>> Gauge<N, A> {
    /// Increase the [`Gauge`] by 1, returning the previous value.
    pub fn inc(&self) -> N {
        self.value.inc()
    }

    /// Increase the [`Gauge`] by `v`, returning the previous value.
    pub fn inc_by(&self, v: N) -> N {
        self.value.inc_by(v)
    }

    /// Decrease the [`Gauge`] by 1, returning the previous value.
    pub fn dec(&self) -> N {
        self.value.dec()
    }

    /// Decrease the [`Gauge`] by `v`, returning the previous value.
    pub fn dec_by(&self, v: N) -> N {
        self.value.dec_by(v)
    }

    /// Sets the [`Gauge`] to `v`, returning the previous value.
    pub fn set(&self, v: N) -> N {
        self.value.set(v)
    }

    /// Get the current value of the [`Gauge`].
    pub fn get(&self) -> N {
        self.value.get()
    }

    /// Exposes the inner atomic type of the [`Gauge`].
    ///
    /// This should only be used for advanced use-cases which are not directly
    /// supported by the library.
    pub fn inner(&self) -> (r: &A)
        ensures
            *r == self.store(),
    {
        &self.value
    }
}

/// Atomic operations for a [`Gauge`] value store.
///
/// The store is shared between threads, so nothing is stated here of the
/// values that the operations return: another thread may change the store
/// at any time.
pub trait Atomic<N> {
    /// Increase the value by 1, returning the previous value.
    fn inc(&self) -> N;

    /// Increase the value by `v`, returning the previous value.
    fn inc_by(&self, v: N) -> N;

    /// Decrease the value by 1, returning the previous value.
    fn dec(&self) -> N;

    /// Decrease the value by `v`, returning the previous value.
    fn dec_by(&self, v: N) -> N;

    /// Set the value to `v`, returning the previous value.
    fn set(&self, v: N) -> N;

    /// Get the current value.
    fn get(&self) -> N;
}

impl Atomic<u64> for AtomicU64 {
    fn inc(&self) -> u64 {
        self.fetch_add(1, Ordering::Relaxed)
    }

    fn inc_by(&self, v: u64) -> u64 {
        self.fetch_add(v, Ordering::Relaxed)
    }

    fn dec(&self) -> u64 {
        self.fetch_sub(1, Ordering::Relaxed)
    }

    fn dec_by(&self, v: u64) -> u64 {
        self.fetch_sub(v, Ordering::Relaxed)
    }

    fn set(&self, v: u64) -> u64 {
        self.swap(v, Ordering::Relaxed)
    }

    fn get(&self) -> u64 {
        self.load(Ordering::Relaxed)
    }
}

impl Atomic<u32> for AtomicU32 {
    fn inc(&self) -> u32 {
        self.fetch_add(1, Ordering::Relaxed)
    }

    fn inc_by(&self, v: u32) -> u32 {
        self.fetch_add(v, Ordering::Relaxed)
    }

    fn dec(&self) -> u32 {
        self.fetch_sub(1, Ordering::Relaxed)
    }

    fn dec_by(&self, v: u32) -> u32 {
        self.fetch_sub(v, Ordering::Relaxed)
    }

    fn set(&self, v: u32) -> u32 {
        self.swap(v, Ordering::Relaxed)
    }

    fn get(&self) -> u32 {
        self.load(Ordering::Relaxed)
    }
}

impl Atomic<i64> for AtomicI64 {
    fn inc(&self) -> i64 {
        self.fetch_add(1, Ordering::Relaxed)
    }

    fn inc_by(&self, v: i64) -> i64 {
        self.fetch_add(v, Ordering::Relaxed)
    }

    fn dec(&self) -> i64 {
        self.fetch_sub(1, Ordering::Relaxed)
    }

    fn dec_by(&self, v: i64) -> i64 {
        self.fetch_sub(v, Ordering::Relaxed)
    }

    fn set(&self, v: i64) -> i64 {
        self.swap(v, Ordering::Relaxed)
    }

    fn get(&self) -> i64 {
        self.load(Ordering::Relaxed)
    }
}

impl Atomic<i32> for AtomicI32 {
    fn inc(&self) -> i32 {
        self.fetch_add(1, Ordering::Relaxed)
    }

    fn inc_by(&self, v: i32) -> i32 {
        self.fetch_add(v, Ordering::Relaxed)
    }

    fn dec(&self) -> i32 {
        self.fetch_sub(1, Ordering::Relaxed)
    }

    fn dec_by(&self, v: i32) -> i32 {
        self.fetch_sub(v, Ordering::Relaxed)
    }

    fn set(&self, v: i32) -> i32 {
        self.swap(v, Ordering::Relaxed)
    }

    fn get(&self) -> i32 {
        self.load(Ordering::Relaxed)
    }
}

impl<N, A> TypedMetric for Gauge<N, A> {
    const TYPE: MetricType = MetricType::Gauge;
}

impl<N, A> EncodeMetric for Gauge<N, A> where N: EncodeGaugeValue, A: Atomic<N> {
    /// Encoding succeeds where every value of the type encodes.
    open spec fn encode_succeeds(&self) -> bool {
        forall|v: N| #[trigger] v.gauge_encodes()
    }

    open spec fn spec_metric_type(&self) -> MetricType {
        MetricType::Gauge
    }

    /// One sample with a value of the gauge's type.
    open spec fn text_samples(&self, cfg: SampleConfig, s: Seq<char>) -> bool {
        exists|v: N|
            s == cfg.0 + labels_block(cfg.1, None, cfg.2) + value_part(
                Some(#[trigger] v.gauge_value()),
            ) + seq!['\n']
    }

    /// One gauge metric with the encoder's labels and a value of the gauge's
    /// type.
    open spec fn proto_samples(&self, labels: Seq<LabelView>, ms: Seq<MetricView>) -> bool {
        exists|v: N| ms == seq![(labels, Some(#[trigger] v.gauge_value()), None::<IntegerValue>)]
    }

    /// Encodes one sample with the current value.
    fn encode(&self, encoder: &mut MetricEncoder) -> (r: Result<(), std::fmt::Error>) {
        let v = self.get();
        let r = encoder.encode_gauge(&v);
        proof {
            let x = v.gauge_value();
            if r is Ok {
                if old(encoder).text() is Some {
                    let a = old(encoder).text()->0;
                    let b = encoder.text()->0;
                    assert(b.output().skip(a.output().len() as int) =~= a.sample_name()
                        + a.sample_labels(None) + value_part(Some(x)) + seq!['\n']);
                }
                if old(encoder).proto() is Some {
                    let a = old(encoder).proto()->0;
                    let b = encoder.proto()->0;
                    assert(b.spec_metrics().skip(a.spec_metrics().len() as int) =~= seq![
                        (a.spec_labels(), Some(x), None::<IntegerValue>),
                    ]);
                }
            }
        }
        r
    }

    fn metric_type(&self) -> (r: MetricType)
        ensures
            r == MetricType::Gauge,
    {
        MetricType::Gauge
    }
}

} // verus!
