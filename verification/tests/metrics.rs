use prometheus_client::counter::Counter as PlainCounter;
use prometheus_client::gauge::Gauge as PlainGauge;
use prometheus_client::metrics::counter::Counter;
use prometheus_client::metrics::exemplar::CounterWithExemplarInner;
use prometheus_client::metrics::family::MetricConstructor;
use prometheus_client::metrics::gauge::Gauge;
use prometheus_client::metrics::info::Info;
use prometheus_client::metrics::{MetricType, TypedMetric};
use prometheus_client::MaybeOwned;
use std::sync::atomic::{AtomicI64, AtomicU32, AtomicU64};

#[test]
fn counter_inc_and_get() {
    let counter = PlainCounter::<AtomicU64>::new();
    assert_eq!(0, counter.inc());
    assert_eq!(1, counter.get());

    let counter: Counter = Counter::default();
    assert_eq!(0, counter.inc());
    assert_eq!(1, counter.get());
}

#[test]
fn gauge_inc_and_get() {
    let gauge = PlainGauge::<AtomicU64>::new();
    assert_eq!(0, gauge.inc());
    assert_eq!(1, gauge.get());
    assert_eq!(1, gauge.set(10));
    assert_eq!(10, gauge.get());
}

#[test]
fn inc_dec_and_get() {
    let gauge: Gauge = Gauge::default();
    assert_eq!(0, gauge.inc());
    assert_eq!(1, gauge.get());

    assert_eq!(1, gauge.dec());
    assert_eq!(0, gauge.get());

    assert_eq!(0, gauge.set(10));
    assert_eq!(10, gauge.get());
}

#[test]
fn counter_clones_share_their_value() {
    let counter: Counter = Counter::default();
    let clone = counter.clone();
    assert_eq!(0, clone.inc_by(5));
    assert_eq!(5, counter.get());
    assert_eq!(5, counter.inner().load(std::sync::atomic::Ordering::Relaxed));
}

#[test]
fn u32_counter_and_signed_gauge() {
    let counter = Counter::<u32, AtomicU32>::default();
    assert_eq!(0, counter.inc_by(7));
    assert_eq!(7, counter.get());

    let gauge = Gauge::<i64, AtomicI64>::default();
    assert_eq!(0, gauge.dec_by(3));
    assert_eq!(-3, gauge.get());
    assert_eq!(-3, gauge.inc_by(5));
    assert_eq!(2, gauge.get());
}

#[test]
fn metric_types() {
    assert_eq!(MetricType::Counter.as_str(), "counter");
    assert_eq!(MetricType::Gauge.as_str(), "gauge");
    assert_eq!(MetricType::Histogram.as_str(), "histogram");
    assert_eq!(MetricType::Info.as_str(), "info");
    assert_eq!(MetricType::Unknown.as_str(), "unknown");
    assert_eq!(<Counter as TypedMetric>::TYPE.as_str(), "counter");
    assert_eq!(<Gauge as TypedMetric>::TYPE.as_str(), "gauge");
    assert_eq!(<Info<Vec<(String, String)>> as TypedMetric>::TYPE.as_str(), "info");
}

#[test]
fn exemplar_follows_the_last_labelled_increase() {
    let mut inner: CounterWithExemplarInner<Vec<(String, String)>, u64, AtomicU64> =
        CounterWithExemplarInner::default();
    assert!(inner.get().1.is_none());

    let labels = vec![("user_id".to_string(), "42".to_string())];
    assert_eq!(0, inner.inc_by(3, Some(labels.clone())));
    let (value, exemplar) = inner.get();
    assert_eq!(3, value);
    let exemplar = exemplar.as_ref().unwrap();
    assert_eq!(&labels, exemplar.label_set());
    assert_eq!(&3, exemplar.value());

    assert_eq!(3, inner.inc_by(2, None));
    let (value, exemplar) = inner.get();
    assert_eq!(5, value);
    assert!(exemplar.is_none());
    assert_eq!(5, inner.counter().get());
}

#[test]
fn maybe_owned_derefs_to_its_data() {
    let owned: MaybeOwned<'_, u64> = MaybeOwned::Owned(5);
    assert_eq!(5, *owned);
    let x = 7u64;
    let borrowed = MaybeOwned::Borrowed(&x);
    assert_eq!(7, *borrowed);
}

#[test]
fn closures_construct_metrics() {
    let constructor = || {
        let counter: Counter = Counter::default();
        counter.inc_by(2);
        counter
    };
    let counter = constructor.new_metric();
    assert_eq!(2, counter.get());
}
