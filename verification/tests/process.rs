use prometheus_client::collector::Collector;
use prometheus_client::encoding::text::{encode, DescriptorEncoder as TextEncoder};
use prometheus_client::encoding::protobuf::DescriptorEncoder as ProtoEncoder;
use prometheus_client::encoding::{DescriptorEncoder, IntegerValue};
use prometheus_client::process::{
    read_netstat_pair, IpOctetTokens,
    limit_value, Limit, ProcLimits, ProcStat, ProcessCollector, ProcessStats,
};
use prometheus_client::registry::Registry;

fn full_stats() -> ProcessStats {
    ProcessStats {
        start_time_seconds: Some(1_700_000_000),
        ticks_per_second: 100,
        stat: Some(ProcStat {
            utime: 250,
            stime: 130,
            vsize: 1_000_000,
            rss: 25,
        }),
        limits: Some(ProcLimits {
            max_open_files: (Limit::Value(1024), Limit::Value(4096)),
            max_address_space: (Limit::Unlimited, Limit::Unlimited),
        }),
        open_fds: Some(12),
        network: Some((300, 400)),
    }
}

fn encode_text(collector: &ProcessCollector, stats: &ProcessStats) -> Result<String, std::fmt::Error> {
    let mut encoder = DescriptorEncoder::from_text(TextEncoder::new());
    collector.encode_stats(&mut encoder, stats)?;
    Ok(encoder.into_text().unwrap().into_output())
}

#[test]
fn limit_value_prefers_soft_then_hard() {
    assert_eq!(5, limit_value(Limit::Value(5), Limit::Value(9)));
    assert_eq!(9, limit_value(Limit::Unlimited, Limit::Value(9)));
    assert_eq!(0, limit_value(Limit::Unlimited, Limit::Unlimited));
}

#[test]
fn process_start_time_only_without_process_figures() {
    let collector = ProcessCollector::new(Some("my".to_string()), 4096);
    let mut stats = full_stats();
    stats.stat = None;
    let text = encode_text(&collector, &stats).unwrap();
    let expected = "# HELP my_process_start_time_seconds Start time of the process since unix epoch in seconds.\n".to_owned()
        + "# TYPE my_process_start_time_seconds gauge\n"
        + "# UNIT my_process_start_time_seconds seconds\n"
        + "my_process_start_time_seconds 1700000000\n";
    assert_eq!(expected, text);
}

#[test]
fn process_all_metrics() {
    let collector = ProcessCollector::new(None, 4096);
    assert_eq!(4096, collector.page_size());
    let text = encode_text(&collector, &full_stats()).unwrap();
    let expected = "# HELP process_start_time_seconds Start time of the process since unix epoch in seconds.\n".to_owned()
        + "# TYPE process_start_time_seconds gauge\n"
        + "# UNIT process_start_time_seconds seconds\n"
        + "process_start_time_seconds 1700000000\n"
        + "# HELP process_resident_memory_bytes Resident memory size in bytes.\n"
        + "# TYPE process_resident_memory_bytes gauge\n"
        + "# UNIT process_resident_memory_bytes bytes\n"
        + "process_resident_memory_bytes 102400\n"
        + "# HELP process_virtual_memory_bytes Virtual memory size in bytes\n"
        + "# TYPE process_virtual_memory_bytes gauge\n"
        + "# UNIT process_virtual_memory_bytes bytes\n"
        + "process_virtual_memory_bytes 1000000\n"
        + "# HELP process_virtual_memory_max Maximum amount of virtual memory available in bytes.\n"
        + "# TYPE process_virtual_memory_max gauge\n"
        + "process_virtual_memory_max 0\n"
        + "# HELP process_open_fds Number of open file descriptors.\n"
        + "# TYPE process_open_fds counter\n"
        + "process_open_fds_total 12\n"
        + "# HELP process_max_fds Maximum number of open file descriptors.\n"
        + "# TYPE process_max_fds gauge\n"
        + "process_max_fds 1024\n"
        + "# HELP process_cpu_seconds Total user and system CPU time spent in seconds.\n"
        + "# TYPE process_cpu_seconds counter\n"
        + "# UNIT process_cpu_seconds seconds\n"
        + "process_cpu_seconds_total 3\n"
        + "# HELP process_network_receive_bytes Number of bytes received by the process over the network.\n"
        + "# TYPE process_network_receive_bytes counter\n"
        + "# UNIT process_network_receive_bytes bytes\n"
        + "process_network_receive_bytes_total 300\n"
        + "# HELP process_network_transmit_bytes Number of bytes sent by the process over the network.\n"
        + "# TYPE process_network_transmit_bytes counter\n"
        + "# UNIT process_network_transmit_bytes bytes\n"
        + "process_network_transmit_bytes_total 400\n";
    assert_eq!(expected, text);
}

#[test]
fn process_errors_without_start_time_or_fd_count() {
    let collector = ProcessCollector::new(None, 4096);
    let mut stats = full_stats();
    stats.start_time_seconds = None;
    assert!(encode_text(&collector, &stats).is_err());

    let mut stats = full_stats();
    stats.open_fds = None;
    assert!(encode_text(&collector, &stats).is_err());

    stats.stat = None;
    assert!(encode_text(&collector, &stats).is_ok());
}

struct FixedProcess {
    collector: ProcessCollector,
    stats: ProcessStats,
}

impl Collector for FixedProcess {
    fn encode(&self, encoder: &mut DescriptorEncoder) -> Result<(), std::fmt::Error> {
        self.collector.encode_stats(encoder, &self.stats)
    }
}

#[test]
fn process_collector_in_a_registry() {
    let mut registry = Registry::default();
    registry.register_collector(Box::new(FixedProcess {
        collector: ProcessCollector::new(None, 4096),
        stats: full_stats(),
    }));
    let mut encoded = String::new();
    encode(&mut encoded, &registry).unwrap();
    let open_fds = "# HELP process_open_fds Number of open file descriptors.\n".to_owned()
        + "# TYPE process_open_fds counter\n"
        + "process_open_fds_total ";
    assert!(encoded.contains(&open_fds));
    assert!(encoded.ends_with("# EOF\n"));
}

#[test]
fn process_metrics_as_protobuf_families() {
    let collector = ProcessCollector::new(Some("my".to_string()), 4096);
    let mut encoder = DescriptorEncoder::from_protobuf(ProtoEncoder::new());
    collector.encode_stats(&mut encoder, &full_stats()).unwrap();
    let families = encoder.into_protobuf().unwrap().into_families();
    let names: Vec<&str> = families.iter().map(|f| f.name.as_str()).collect();
    assert_eq!(
        vec![
            "my_process_start_time_seconds",
            "my_process_resident_memory_bytes",
            "my_process_virtual_memory_bytes",
            "my_process_virtual_memory_max",
            "my_process_open_fds_total",
            "my_process_max_fds",
            "my_process_cpu_seconds_total",
            "my_process_network_receive_bytes_total",
            "my_process_network_transmit_bytes_total",
        ],
        names
    );
    assert_eq!("seconds", families[0].unit);
    assert_eq!(1, families[0].metric.len());
    assert!(matches!(
        families[0].metric[0].gauge.as_ref().unwrap().value,
        IntegerValue::Unsigned(1_700_000_000)
    ));
    assert!(matches!(
        families[6].metric[0].counter.as_ref().unwrap().value,
        IntegerValue::Unsigned(3)
    ));
    assert!(families[6].metric[0].gauge.is_none());
}

fn words(line: &str) -> Vec<String> {
    line.split_whitespace().map(String::from).collect()
}

#[test]
fn netstat_pairs_keep_the_ip_octet_tokens() {
    let mut tokens = IpOctetTokens { in_octets: None, out_octets: None };
    read_netstat_pair(
        &words("TcpExt: SyncookiesSent InOctets"),
        &words("TcpExt: 0 99"),
        &mut tokens,
    )
    .unwrap();
    assert!(tokens.in_octets.is_none());
    read_netstat_pair(
        &words("IpExt: InNoRoutes InOctets OutOctets"),
        &words("IpExt: 0 1234 5678"),
        &mut tokens,
    )
    .unwrap();
    assert_eq!(Some("1234".to_string()), tokens.in_octets);
    assert_eq!(Some("5678".to_string()), tokens.out_octets);
    read_netstat_pair(&words("IpExt:: InOctets"), &words("IpExt:: 7"), &mut tokens).unwrap();
    assert_eq!(Some("7".to_string()), tokens.in_octets);
    assert_eq!(Some("5678".to_string()), tokens.out_octets);

    let err = read_netstat_pair(&words("IpExt: InOctets"), &words("IpExt:"), &mut tokens)
        .unwrap_err();
    assert_eq!("IpExt", err.0);
    assert_eq!(Some("7".to_string()), tokens.in_octets);
}

fn encode_process_registry() -> String {
    let mut registry = Registry::default();
    registry.register_collector(Box::new(FixedProcess {
        collector: ProcessCollector::new(None, 4096),
        stats: full_stats(),
    }));
    let mut encoded = String::new();
    encode(&mut encoded, &registry).unwrap();
    encoded
}

#[test]
fn register_start_time() {
    let encoded = encode_process_registry();
    let start_time = "# HELP process_start_time_seconds Start time of the process since unix epoch in seconds.\n".to_owned()
        + "# TYPE process_start_time_seconds gauge\n"
        + "# UNIT process_start_time_seconds seconds\n"
        + "process_start_time_seconds ";
    assert!(encoded.contains(&start_time), "encoded does not contain expected start_time");
}

#[test]
fn register_resident_memory() {
    let encoded = encode_process_registry();
    let resident_memory = "# HELP process_resident_memory_bytes Resident memory size in bytes.\n".to_owned()
        + "# TYPE process_resident_memory_bytes gauge\n"
        + "# UNIT process_resident_memory_bytes bytes\n"
        + "process_resident_memory_bytes ";
    assert!(encoded.contains(&resident_memory), "encoded does not contain expected resident_memory");
}

#[test]
fn register_virtual_memory() {
    let encoded = encode_process_registry();
    let virtual_memory = "# HELP process_virtual_memory_bytes Virtual memory size in bytes\n".to_owned()
        + "# TYPE process_virtual_memory_bytes gauge\n"
        + "# UNIT process_virtual_memory_bytes bytes\n"
        + "process_virtual_memory_bytes ";
    assert!(encoded.contains(&virtual_memory), "encoded does not contain expected virtual_memory");
}

#[test]
fn register_virtual_memory_max() {
    let encoded = encode_process_registry();
    let virtual_memory_max = "# HELP process_virtual_memory_max Maximum amount of virtual memory available in bytes.\n".to_owned()
        + "# TYPE process_virtual_memory_max gauge\n"
        + "process_virtual_memory_max ";
    assert!(encoded.contains(&virtual_memory_max), "encoded does not contain expected virtual_memory_max");
}

#[test]
fn register_open_fds() {
    let encoded = encode_process_registry();
    let open_fds = "# HELP process_open_fds Number of open file descriptors.\n".to_owned()
        + "# TYPE process_open_fds counter\n"
        + "process_open_fds_total ";
    assert!(encoded.contains(&open_fds), "encoded does not contain expected open_fds");
}

#[test]
fn register_max_fds() {
    let encoded = encode_process_registry();
    let max_fds = "# HELP process_max_fds Maximum number of open file descriptors.\n".to_owned()
        + "# TYPE process_max_fds gauge\n"
        + "process_max_fds ";
    assert!(encoded.contains(&max_fds), "encoded does not contain expected max_fds");
}

#[test]
fn register_cpu_seconds() {
    let encoded = encode_process_registry();
    let cpu_seconds = "# HELP process_cpu_seconds Total user and system CPU time spent in seconds.\n".to_owned()
        + "# TYPE process_cpu_seconds counter\n"
        + "# UNIT process_cpu_seconds seconds\n"
        + "process_cpu_seconds_total ";
    assert!(encoded.contains(&cpu_seconds), "encoded does not contain expected cpu_seconds");
}

#[test]
fn register_network_receive() {
    let encoded = encode_process_registry();
    let network_receive = "# HELP process_network_receive_bytes Number of bytes received by the process over the network.\n".to_owned()
        + "# TYPE process_network_receive_bytes counter\n"
        + "# UNIT process_network_receive_bytes bytes\n"
        + "process_network_receive_bytes_total ";
    assert!(encoded.contains(&network_receive), "encoded does not contain expected network_receive");
}

#[test]
fn register_network_transmit() {
    let encoded = encode_process_registry();
    let network_transmit = "# HELP process_network_transmit_bytes Number of bytes sent by the process over the network.\n".to_owned()
        + "# TYPE process_network_transmit_bytes counter\n"
        + "# UNIT process_network_transmit_bytes bytes\n"
        + "process_network_transmit_bytes_total ";
    assert!(encoded.contains(&network_transmit), "encoded does not contain expected network_transmit");
}

#[test]
fn netstat_lines_split_into_fields() {
    assert_eq!(words("  IpExt:\tInOctets  OutOctets \n"), prometheus_client::process::fields("  IpExt:\tInOctets  OutOctets \n"));
    assert_eq!(
        vec!["IpExt:".to_string(), "0".to_string(), "12".to_string()],
        prometheus_client::process::fields("IpExt: 0\u{2003}12")
    );
    assert!(prometheus_client::process::fields(" \t ").is_empty());
}
