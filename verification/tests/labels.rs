use prometheus_client::encoding::protobuf::encode;
use prometheus_client::encoding::text::encode as encode_text;
use prometheus_client::encoding::protobuf::DescriptorEncoder as ProtoEncoder;
use prometheus_client::encoding::text::DescriptorEncoder as TextEncoder;
use prometheus_client::encoding::{DescriptorEncoder, EncodeLabelSet, LabelSetEncoder, NoLabelSet};
use prometheus_client::metrics::MetricType;
use prometheus_client::metrics::info::Info;
use prometheus_client::registry::Registry;

#[test]
fn label_encoders_collect_labels() {
    let mut key = LabelSetEncoder::new().encode_label().encode_label_key().unwrap();
    key.write_str("me").unwrap();
    key.write_str("thod").unwrap();
    let mut value = key.encode_label_value().unwrap();
    value.write_str("GET").unwrap();
    let set = value.finish().unwrap();
    let labels = set.into_labels();
    assert_eq!(vec![("method".to_string(), "GET".to_string())], labels);
}

#[test]
fn label_sets_of_many_value_types() {
    let labels: Vec<(&str, u64)> = vec![("a", 1), ("b", 22)];
    let encoded = labels.encode(LabelSetEncoder::new()).unwrap().into_labels();
    assert_eq!(
        vec![("a".to_string(), "1".to_string()), ("b".to_string(), "22".to_string())],
        encoded
    );

    let flags: Vec<(String, bool)> = vec![("x".to_string(), true), ("y".to_string(), false)];
    let encoded = flags.encode(LabelSetEncoder::new()).unwrap().into_labels();
    assert_eq!(
        vec![("x".to_string(), "true".to_string()), ("y".to_string(), "false".to_string())],
        encoded
    );

    let optional: Vec<(&str, Option<i64>)> = vec![("p", Some(-3)), ("q", None)];
    let encoded = optional.encode(LabelSetEncoder::new()).unwrap().into_labels();
    assert_eq!(
        vec![("p".to_string(), "-3".to_string()), ("q".to_string(), "".to_string())],
        encoded
    );

    let none = NoLabelSet.encode(LabelSetEncoder::new()).unwrap().into_labels();
    assert!(none.is_empty());
}

#[test]
fn info_with_numeric_labels_in_both_formats() {
    let mut registry = Registry::default();
    registry.register("build", "Build information", Info::new(vec![("revision", 42u32)]));

    let mut text = String::new();
    encode_text(&mut text, &registry).unwrap();
    assert_eq!(
        "# HELP build Build information.\n# TYPE build info\nbuild_info{revision=\"42\"} 1\n# EOF\n",
        text
    );

    let families = encode(&registry).unwrap();
    assert_eq!("build_info", families[0].name);
    assert_eq!("revision", families[0].metric[0].label[0].name);
    assert_eq!("42", families[0].metric[0].label[0].value);
}

#[test]
fn family_member_encoder_adds_its_labels() {
    let text = DescriptorEncoder::from_text(TextEncoder::new());
    let metric = text.encode_descriptor("fam", "help", None, MetricType::Counter).unwrap();
    let labels = vec![("method".to_string(), "GET".to_string())];
    let mut member = metric.encode_family(&labels).unwrap();
    member.encode_counter(&2u64).unwrap();
    let mut metric = metric;
    metric.absorb(member).unwrap();
    let mut text = text;
    text.absorb(metric).unwrap();
    let out = text.into_text().unwrap().into_output();
    assert_eq!(
        "# HELP fam help\n# TYPE fam counter\nfam_total{method=\"GET\"} 2\n",
        out
    );

    let proto = DescriptorEncoder::from_protobuf(ProtoEncoder::new());
    let metric = proto.encode_descriptor("fam", "help", None, MetricType::Counter).unwrap();
    let member = metric.encode_family(&labels).unwrap();
    let mut metric = metric;
    metric.absorb(member).unwrap();
}
