use prometheus_client::collector::Collector;
use prometheus_client::encoding::text::{encode, encode_eof, encode_registry};
use prometheus_client::encoding::{DescriptorEncoder, EncodeMetric};
use prometheus_client::metrics::counter::Counter;
use prometheus_client::metrics::gauge::Gauge;
use prometheus_client::metrics::info::Info;
use prometheus_client::registry::{Registry, Unit};
use std::borrow::Cow;
use std::sync::atomic::{AtomicI32, AtomicI64, AtomicU32};

#[test]
fn text_encode_counter_with_unit() {
    let mut registry = Registry::default();
    let counter: Counter = Counter::default();
    registry.register_with_unit("my_counter", "My counter", Unit::Seconds, counter);

    let mut encoded = String::new();
    encode(&mut encoded, &registry).unwrap();

    let expected = "# HELP my_counter_seconds My counter.\n".to_owned()
        + "# TYPE my_counter_seconds counter\n"
        + "# UNIT my_counter_seconds seconds\n"
        + "my_counter_seconds_total 0\n"
        + "# EOF\n";
    assert_eq!(expected, encoded);
}

#[test]
fn text_encode_info() {
    let mut registry = Registry::default();
    let info = Info::new(vec![("os".to_string(), "GNU/linux".to_string())]);
    registry.register("my_info_metric", "My info metric", info);

    let mut encoded = String::new();
    encode(&mut encoded, &registry).unwrap();

    let expected = "# HELP my_info_metric My info metric.\n".to_owned()
        + "# TYPE my_info_metric info\n"
        + "my_info_metric_info{os=\"GNU/linux\"} 1\n"
        + "# EOF\n";
    assert_eq!(expected, encoded);
}

#[test]
fn sub_registry_with_prefix_and_label() {
    let top_level_metric_name = "my_top_level_metric";
    let mut registry = Registry::default();
    let counter: Counter = Counter::default();
    registry.register(top_level_metric_name, "some help", counter.clone());

    let prefix_1 = "prefix_1";
    let prefix_1_metric_name = "my_prefix_1_metric";
    let sub_registry = registry.sub_registry_with_prefix(prefix_1);
    sub_registry.register(prefix_1_metric_name, "some help", counter.clone());

    let prefix_1_1 = "prefix_1_1";
    let prefix_1_1_metric_name = "my_prefix_1_1_metric";
    let sub_sub_registry = sub_registry.sub_registry_with_prefix(prefix_1_1);
    sub_sub_registry.register(prefix_1_1_metric_name, "some help", counter.clone());

    let label_1_2 = (Cow::Borrowed("registry"), Cow::Borrowed("1_2"));
    let prefix_1_2_metric_name = "my_prefix_1_2_metric";
    let sub_sub_registry = sub_registry.sub_registry_with_label(label_1_2.clone());
    sub_sub_registry.register(prefix_1_2_metric_name, "some help", counter.clone());

    let labels_1_3 = vec![
        (Cow::Borrowed("label_1_3_1"), Cow::Borrowed("value_1_3_1")),
        (Cow::Borrowed("label_1_3_2"), Cow::Borrowed("value_1_3_2")),
    ];
    let prefix_1_3_metric_name = "my_prefix_1_3_metric";
    let sub_sub_registry = sub_registry.sub_registry_with_labels(labels_1_3.clone());
    sub_sub_registry.register(prefix_1_3_metric_name, "some help", counter.clone());

    let prefix_1_3_1 = "prefix_1_3_1";
    let prefix_1_3_1_metric_name = "my_prefix_1_3_1_metric";
    let sub_sub_sub_registry = sub_sub_registry.sub_registry_with_prefix(prefix_1_3_1);
    sub_sub_sub_registry.register(prefix_1_3_1_metric_name, "some help", counter.clone());

    let prefix_2 = "prefix_2";
    let _ = registry.sub_registry_with_prefix(prefix_2);

    let prefix_3 = "prefix_3";
    let prefix_3_metric_name = "my_prefix_3_metric";
    let sub_registry = registry.sub_registry_with_prefix(prefix_3);
    sub_registry.register(prefix_3_metric_name, "some help", counter);

    let mut encoded = String::new();
    encode(&mut encoded, &registry).unwrap();

    let expected = "# HELP my_top_level_metric some help.\n".to_owned()
        + "# TYPE my_top_level_metric counter\n"
        + "my_top_level_metric_total 0\n"
        + "# HELP prefix_1_my_prefix_1_metric some help.\n"
        + "# TYPE prefix_1_my_prefix_1_metric counter\n"
        + "prefix_1_my_prefix_1_metric_total 0\n"
        + "# HELP prefix_1_prefix_1_1_my_prefix_1_1_metric some help.\n"
        + "# TYPE prefix_1_prefix_1_1_my_prefix_1_1_metric counter\n"
        + "prefix_1_prefix_1_1_my_prefix_1_1_metric_total 0\n"
        + "# HELP prefix_1_my_prefix_1_2_metric some help.\n"
        + "# TYPE prefix_1_my_prefix_1_2_metric counter\n"
        + "prefix_1_my_prefix_1_2_metric_total{registry=\"1_2\"} 0\n"
        + "# HELP prefix_1_my_prefix_1_3_metric some help.\n"
        + "# TYPE prefix_1_my_prefix_1_3_metric counter\n"
        + "prefix_1_my_prefix_1_3_metric_total{label_1_3_1=\"value_1_3_1\",label_1_3_2=\"value_1_3_2\"} 0\n"
        + "# HELP prefix_1_prefix_1_3_1_my_prefix_1_3_1_metric some help.\n"
        + "# TYPE prefix_1_prefix_1_3_1_my_prefix_1_3_1_metric counter\n"
        + "prefix_1_prefix_1_3_1_my_prefix_1_3_1_metric_total{label_1_3_1=\"value_1_3_1\",label_1_3_2=\"value_1_3_2\"} 0\n"
        + "# HELP prefix_3_my_prefix_3_metric some help.\n"
        + "# TYPE prefix_3_my_prefix_3_metric counter\n"
        + "prefix_3_my_prefix_3_metric_total 0\n"
        + "# EOF\n";
    assert_eq!(expected, encoded);
}

struct TestCollector {
    name: String,
}

impl TestCollector {
    fn new(name: impl Into<String>) -> Self {
        Self { name: name.into() }
    }
}

impl Collector for TestCollector {
    fn encode(&self, encoder: &mut DescriptorEncoder) -> Result<(), std::fmt::Error> {
        let counter: Counter = Counter::default();
        counter.inc_by(42);
        let mut metric_encoder =
            encoder.encode_descriptor(&self.name, "some help", None, counter.metric_type())?;
        counter.encode(&mut metric_encoder)?;
        encoder.absorb(metric_encoder)
    }
}

#[test]
fn sub_registry_collector() {
    let mut registry = Registry::default();
    registry.register_collector(Box::new(TestCollector::new("top_level")));

    let sub_registry = registry.sub_registry_with_prefix("prefix_1");
    sub_registry.register_collector(Box::new(TestCollector::new("sub_level")));

    let sub_sub_registry = sub_registry.sub_registry_with_prefix("prefix_1_2");
    sub_sub_registry.register_collector(Box::new(TestCollector::new("sub_sub_level")));

    let mut encoded = String::new();
    encode(&mut encoded, &registry).unwrap();

    let expected = "# HELP top_level some help\n".to_owned()
        + "# TYPE top_level counter\n"
        + "top_level_total 42\n"
        + "# HELP prefix_1_sub_level some help\n"
        + "# TYPE prefix_1_sub_level counter\n"
        + "prefix_1_sub_level_total 42\n"
        + "# HELP prefix_1_prefix_1_2_sub_sub_level some help\n"
        + "# TYPE prefix_1_prefix_1_2_sub_sub_level counter\n"
        + "prefix_1_prefix_1_2_sub_sub_level_total 42\n"
        + "# EOF\n";
    assert_eq!(expected, encoded);
}

#[test]
fn empty_registry_encodes_only_eof() {
    let registry = Registry::default();
    let mut encoded = String::from("start\n");
    encode_registry(&mut encoded, &registry).unwrap();
    assert_eq!("start\n", encoded);
    encode_eof(&mut encoded).unwrap();
    assert_eq!("start\n# EOF\n", encoded);
}

#[test]
fn text_encode_signed_gauge_with_registry_labels() {
    let mut registry = Registry::with_prefix_and_labels(
        "app",
        vec![(Cow::Borrowed("env"), Cow::Owned("prod".to_string()))],
    );
    let gauge = Gauge::<i64, AtomicI64>::default();
    registry.register_with_unit("temperature", "Room temperature", Unit::Celsius, gauge.clone());
    gauge.set(-12);

    let mut encoded = String::new();
    encode(&mut encoded, &registry).unwrap();

    let expected = "# HELP app_temperature_celsius Room temperature.\n".to_owned()
        + "# TYPE app_temperature_celsius gauge\n"
        + "# UNIT app_temperature_celsius celsius\n"
        + "app_temperature_celsius{env=\"prod\"} -12\n"
        + "# EOF\n";
    assert_eq!(expected, encoded);
}

#[test]
fn encode_registry_appends_to_the_writer() {
    let mut first = Registry::default();
    let counter: Counter = Counter::default();
    first.register("orders", "Total orders received", counter.clone());
    counter.inc();
    let mut second = Registry::with_labels(vec![(Cow::Borrowed("k"), Cow::Borrowed("v"))]);
    let other = Unit::Other("requests".to_string());
    second.register_with_unit("logins", "Total logins", other, Counter::<u64>::default());

    let mut response = String::new();
    encode_registry(&mut response, &first).unwrap();
    assert!(response.ends_with("orders_total 1\n"));
    encode_registry(&mut response, &second).unwrap();
    assert!(response.ends_with("logins_requests_total{k=\"v\"} 0\n"));
    encode_eof(&mut response).unwrap();
    assert!(response.starts_with("# HELP orders Total orders received.\n"));
    assert!(response.ends_with("{k=\"v\"} 0\n# EOF\n"));
}

#[test]
fn encode_counter() {
    let counter: Counter = Counter::default();
    let mut registry = Registry::default();
    registry.register("my_counter", "My counter", counter);
    let counter_u32 = Counter::<u32, AtomicU32>::default();
    registry.register("u32_counter", "Counter::<u32, AtomicU32>", counter_u32);

    let mut encoded = String::new();
    encode(&mut encoded, &registry).unwrap();

    let expected = "# HELP my_counter My counter.\n".to_owned()
        + "# TYPE my_counter counter\n"
        + "my_counter_total 0\n"
        + "# HELP u32_counter Counter::<u32, AtomicU32>.\n"
        + "# TYPE u32_counter counter\n"
        + "u32_counter_total 0\n"
        + "# EOF\n";
    assert_eq!(expected, encoded);
}

#[test]
fn text_encode_gauge() {
    let mut registry = Registry::default();
    let gauge: Gauge = Gauge::default();
    registry.register("my_gauge", "My gauge", gauge);
    let gauge = Gauge::<u32, AtomicU32>::default();
    registry.register("u32_gauge", "Gauge::<u32, AtomicU32>", gauge);
    let gauge_i32 = Gauge::<i32, AtomicI32>::default();
    registry.register("i32_gauge", "Gauge::<i32, AtomicU32>", gauge_i32.clone());
    gauge_i32.set(-3);

    let mut encoded = String::new();
    encode(&mut encoded, &registry).unwrap();

    let expected = "# HELP my_gauge My gauge.\n".to_owned()
        + "# TYPE my_gauge gauge\n"
        + "my_gauge 0\n"
        + "# HELP u32_gauge Gauge::<u32, AtomicU32>.\n"
        + "# TYPE u32_gauge gauge\n"
        + "u32_gauge 0\n"
        + "# HELP i32_gauge Gauge::<i32, AtomicU32>.\n"
        + "# TYPE i32_gauge gauge\n"
        + "i32_gauge -3\n"
        + "# EOF\n";
    assert_eq!(expected, encoded);
}

#[test]
fn metrics_then_collectors_then_sub_registries() {
    let mut registry = Registry::with_prefix("app");
    let sub_registry = registry.sub_registry_with_label((Cow::Borrowed("k"), Cow::Borrowed("v")));
    sub_registry.register("sub_metric", "Sub metric", Counter::<u64>::default());
    registry.register_collector(Box::new(TestCollector::new("collected")));
    let counter: Counter = Counter::default();
    registry.register("own", "Own metric", counter.clone());
    counter.inc_by(5);

    let mut encoded = String::new();
    encode_registry(&mut encoded, &registry).unwrap();

    let expected = "# HELP app_own Own metric.\n".to_owned()
        + "# TYPE app_own counter\n"
        + "app_own_total 5\n"
        + "# HELP app_collected some help\n"
        + "# TYPE app_collected counter\n"
        + "app_collected_total 42\n"
        + "# HELP app_sub_metric Sub metric.\n"
        + "# TYPE app_sub_metric counter\n"
        + "app_sub_metric_total{k=\"v\"} 0\n";
    assert_eq!(expected, encoded);
}

#[test]
fn encode_registry_eof() {
    let mut orders_registry = Registry::default();

    let total_orders: Counter<u64> = Default::default();
    orders_registry.register("orders", "Total orders received", total_orders.clone());
    total_orders.inc();

    let mut user_auth_registry = Registry::default();

    let successful_logins: Counter<u64> = Default::default();
    user_auth_registry.register(
        "successful_logins",
        "Total successful logins",
        successful_logins.clone(),
    );
    successful_logins.inc();

    let failed_logins: Counter<u64> = Default::default();
    user_auth_registry.register("failed_logins", "Total failed logins", failed_logins.clone());

    let mut response = String::new();

    encode_registry(&mut response, &orders_registry).unwrap();
    assert!(response.ends_with("# TYPE orders counter\norders_total 1\n"));

    encode_registry(&mut response, &user_auth_registry).unwrap();
    assert_eq!(&response[response.len() - 20..], "iled_logins_total 0\n");

    encode_eof(&mut response).unwrap();
    assert_eq!(&response[response.len() - 20..], "ogins_total 0\n# EOF\n");
}
