use prometheus_client::encoding::protobuf::{encode, encode_to_vec};
use prometheus_client::encoding::protobuf::prometheus_data_model::MetricType;
use prometheus_client::encoding::IntegerValue;
use prometheus_client::metrics::counter::Counter;
use prometheus_client::metrics::gauge::Gauge;
use prometheus_client::metrics::info::Info;
use prometheus_client::registry::{Registry, Unit};
use std::borrow::Cow;
use std::sync::atomic::{AtomicI64, AtomicU64};

fn as_f64(v: &IntegerValue) -> f64 {
    match v {
        IntegerValue::Unsigned(u) => *u as f64,
        IntegerValue::Signed(i) => *i as f64,
    }
}

#[test]
fn protobuf_encode_counter_int() {
    let counter: Counter = Counter::default();
    let mut registry = Registry::default();
    registry.register("my_counter", "My counter", counter.clone());
    counter.inc();

    let metric_families = encode(&registry).unwrap();
    let family = metric_families.first().unwrap();
    assert_eq!("my_counter_total", family.name);
    assert_eq!("My counter.", family.help);
    assert_eq!(MetricType::Counter.number(), family.metric_type);

    let metric = family.metric.first().unwrap();
    assert_eq!(1.0, as_f64(&metric.counter.as_ref().unwrap().value));
}

#[test]
fn protobuf_encode_counter_with_unit() {
    let counter: Counter = Counter::default();
    let mut registry = Registry::default();
    registry.register_with_unit("my_counter", "My counter", Unit::Seconds, counter);

    let metric_families = encode(&registry).unwrap();
    let family = metric_families.first().unwrap();
    assert_eq!("my_counter_seconds_total", family.name);
    assert_eq!("seconds", family.unit);
}

#[test]
fn protobuf_encode_gauge() {
    let gauge = Gauge::<i64, AtomicI64>::default();
    let mut registry = Registry::default();
    registry.register("my_gauge", "My gauge", gauge.clone());
    gauge.inc();

    let metric_families = encode(&registry).unwrap();
    let family = metric_families.first().unwrap();
    assert_eq!("my_gauge", family.name.as_str());
    assert_eq!(MetricType::Gauge.number(), family.metric_type);
    assert_eq!(1.0, as_f64(&family.metric[0].gauge.as_ref().unwrap().value));
}

#[test]
fn encode_gauge_u64_max() {
    let gauge = Gauge::<u64, AtomicU64>::default();
    let mut registry = Registry::default();
    registry.register("my_gauge", "My gauge", gauge.clone());
    gauge.set(u64::MAX);

    let metric_families = encode(&registry).unwrap();
    assert_eq!(
        u64::MAX as f64,
        as_f64(&metric_families[0].metric[0].gauge.as_ref().unwrap().value)
    );
}

#[test]
fn protobuf_encode_info() {
    let info = Info::new(vec![("os".to_string(), "GNU/linux".to_string())]);
    let mut registry = Registry::default();
    registry.register("my_info_metric", "My info metric", info);

    let metric_families = encode(&registry).unwrap();
    let family = metric_families.first().unwrap();
    assert_eq!("my_info_metric_info", family.name.as_str());
    assert_eq!(MetricType::Gauge.number(), family.metric_type);

    let metric = family.metric.first().unwrap();
    assert_eq!(1.0, as_f64(&metric.gauge.as_ref().unwrap().value));
    assert_eq!("os", metric.label[0].name);
    assert_eq!("GNU/linux", metric.label[0].value);
}

#[test]
fn protobuf_empty_registry_has_no_families() {
    let registry = Registry::default();
    assert!(encode(&registry).unwrap().is_empty());
}

#[test]
fn protobuf_sub_registry_prefix_and_labels() {
    let mut registry = Registry::with_prefix("app");
    let sub = registry.sub_registry_with_label((Cow::Borrowed("zone"), Cow::Borrowed("a")));
    let counter: Counter = Counter::default();
    sub.register("requests", "Requests", counter.clone());
    counter.inc_by(3);
    registry.register("up", "Up", Gauge::<u64, AtomicU64>::default());

    let families = encode(&registry).unwrap();
    assert_eq!(2, families.len());
    assert_eq!("app_up", families[0].name);
    assert_eq!("app_requests_total", families[1].name);
    assert_eq!("Requests.", families[1].help);
    let metric = &families[1].metric[0];
    assert_eq!("zone", metric.label[0].name);
    assert_eq!("a", metric.label[0].value);
    assert_eq!(IntegerValue::Unsigned(3), metric.counter.as_ref().unwrap().value);
}

#[test]
fn encode_to_vec_frames_messages() {
    let long: Vec<u8> = (0..200u32).map(|i| i as u8).collect();
    let messages = vec![vec![7u8, 8], Vec::new(), long.clone()];
    let framed = encode_to_vec(&messages).unwrap();
    let mut expected = vec![2u8, 7, 8, 0, 0xC8, 0x01];
    expected.extend_from_slice(&long);
    assert_eq!(expected, framed);
    assert!(encode_to_vec(&Vec::new()).unwrap().is_empty());
}

#[test]
fn encode_to_vec_reads_back_into_the_messages() {
    let messages = vec![vec![7u8; 300], vec![1u8, 2u8], Vec::new()];
    let framed = encode_to_vec(&messages).unwrap();
    assert_eq!(&framed[..2], &[0xAC, 0x02]);

    let mut read: Vec<Vec<u8>> = Vec::new();
    let mut at = 0;
    while at < framed.len() {
        let mut len: usize = 0;
        let mut shift = 0;
        loop {
            let byte = framed[at];
            at += 1;
            len |= ((byte & 0x7F) as usize) << shift;
            shift += 7;
            if byte < 0x80 {
                break;
            }
        }
        read.push(framed[at..at + len].to_vec());
        at += len;
    }
    assert_eq!(messages, read);
}
