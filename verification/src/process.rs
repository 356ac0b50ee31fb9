//! Metrics of the running process: start time, memory, file descriptors, CPU
//! time and network traffic.
//!
//! The figures are read from the operating system by the caller and handed
//! over as a [`ProcessStats`]; [`ProcessCollector::encode_stats`] turns them
//! into metrics.
use vstd::prelude::*;

use crate::encoding::protobuf::prometheus_data_model::metric_type_number;
use crate::encoding::protobuf::{
    family_header, family_name, family_view, families_view, metrics_view, proto_type, FamilyView,
};
use crate::encoding::text::{descriptor_text, full_name, labels_block, opt_view, value_part};
use crate::util::chars_of;
use crate::encoding::{
    lemma_descriptor_grows_refl, lemma_descriptor_grows_trans, DescriptorEncoder, IntegerValue,
    LabelView, MetricView,
};
use crate::metrics::MetricType;
use crate::registry::{opt_unit_name, Unit};

verus! {

// ---------------------------------------------------------------------------
// The figures of a process.
/// A resource limit.
#[derive(Debug, Clone, Copy)]
pub enum Limit {
    /// No limit.
    Unlimited,
    /// A limit of the given value.
    Value(u64),
}

/// The value of a limit: the soft limit, else the hard limit, else 0.
pub open spec fn spec_limit_value(soft: Limit, hard: Limit) -> u64 {
    match soft {
        Limit::Value(s) => s,
        Limit::Unlimited => match hard {
            Limit::Value(h) => h,
            Limit::Unlimited => 0,
        },
    }
}

/// The value of a limit: the soft limit, else the hard limit, else 0.
pub fn limit_value(soft: Limit, hard: Limit) -> (r: u64)
    ensures
        r == spec_limit_value(soft, hard),
{
    match soft {
        Limit::Value(s) => s,
        Limit::Unlimited => match hard {
            Limit::Value(h) => h,
            Limit::Unlimited => 0,
        },
    }
}

/// The status figures of a process.
#[derive(Debug, Clone, Copy)]
pub struct ProcStat {
    /// Time spent in user mode, in clock ticks.
    pub utime: u64,
    /// Time spent in kernel mode, in clock ticks.
    pub stime: u64,
    /// Virtual memory size in bytes.
    pub vsize: u64,
    /// Resident set size in pages.
    pub rss: u64,
}

/// The limits of a process, soft and hard.
#[derive(Debug, Clone, Copy)]
pub struct ProcLimits {
    /// The limit on open file descriptors.
    pub max_open_files: (Limit, Limit),
    /// The limit on the address space.
    pub max_address_space: (Limit, Limit),
}

/// What was read of the process on one scrape.
#[derive(Debug, Clone, Copy)]
pub struct ProcessStats {
    /// Seconds since the unix epoch; none where the clock is before it.
    pub start_time_seconds: Option<u64>,
    /// Clock ticks per second.
    pub ticks_per_second: u64,
    /// The status figures; none where the process could not be read.
    pub stat: Option<ProcStat>,
    /// The limits; none where they could not be read.
    pub limits: Option<ProcLimits>,
    /// The number of open file descriptors; none where they could not be
    /// counted.
    pub open_fds: Option<u64>,
    /// Bytes received and sent over the network; none where they could not
    /// be read.
    pub network: Option<(u64, u64)>,
}

// ---------------------------------------------------------------------------
// The output of the metrics.
/// What encoding appends: text in the text format, and the views of the
/// families in the protobuf format.
pub type Output = (Seq<char>, Seq<FamilyView>);

/// One output after the other.
pub open spec fn cat(x: Output, y: Output) -> Output {
    (x.0 + y.0, x.1 + y.1)
}

/// No output.
pub open spec fn nothing() -> Output {
    (Seq::empty(), Seq::empty())
}

/// The unit text of a family: the unit, or nothing.
pub open spec fn unit_or_empty(unit: Option<Seq<char>>) -> Seq<char> {
    match unit {
        Some(u) => u,
        None => Seq::empty(),
    }
}

/// The header of the family of a metric.
pub open spec fn family_head(
    prefix: Option<Seq<char>>,
    name: Seq<char>,
    help: Seq<char>,
    unit: Option<Seq<char>>,
    t: MetricType,
) -> (Seq<char>, Seq<char>, i32, Seq<char>) {
    (family_name(prefix, name, unit, t), help, metric_type_number(proto_type(t)), unit_or_empty(unit))
}

/// The output of a gauge without labels of its own.
#[verifier::opaque]
pub open spec fn gauge_out(
    prefix: Option<Seq<char>>,
    labels: Seq<LabelView>,
    name: Seq<char>,
    help: Seq<char>,
    unit: Option<Seq<char>>,
    v: u64,
) -> Output {
    (
        descriptor_text(prefix, name, help, unit, MetricType::Gauge) + full_name(prefix, name, unit)
            + labels_block(labels, None, None) + value_part(Some(IntegerValue::Unsigned(v)))
            + seq!['\n'],
        seq![
            (
                family_head(prefix, name, help, unit, MetricType::Gauge),
                seq![(labels, Some(IntegerValue::Unsigned(v)), None::<IntegerValue>)],
            ),
        ],
    )
}

/// The output of a counter without labels of its own.
#[verifier::opaque]
pub open spec fn counter_out(
    prefix: Option<Seq<char>>,
    labels: Seq<LabelView>,
    name: Seq<char>,
    help: Seq<char>,
    unit: Option<Seq<char>>,
    v: u64,
) -> Output {
    (
        descriptor_text(prefix, name, help, unit, MetricType::Counter) + full_name(
            prefix,
            name,
            unit,
        ) + seq!['_'] + "total"@ + labels_block(labels, None, None) + value_part(
            Some(IntegerValue::Unsigned(v)),
        ) + seq!['\n'],
        seq![
            (
                family_head(prefix, name, help, unit, MetricType::Counter),
                seq![(labels, None::<IntegerValue>, Some(IntegerValue::Unsigned(v)))],
            ),
        ],
    )
}

/// The output of the memory metrics: resident and virtual memory, and the
/// limit of the address space where the limits were read.
#[verifier::opaque]
pub open spec fn memory_out(
    prefix: Option<Seq<char>>,
    labels: Seq<LabelView>,
    ns: Seq<char>,
    page_size: u64,
    stat: ProcStat,
    limits: Option<ProcLimits>,
) -> Output {
    cat(
        cat(
            gauge_out(
                prefix,
                labels,
                ns + "process_resident_memory"@,
                "Resident memory size in bytes."@,
                Some("bytes"@),
                (stat.rss * page_size) as u64,
            ),
            gauge_out(
                prefix,
                labels,
                ns + "process_virtual_memory"@,
                "Virtual memory size in bytes"@,
                Some("bytes"@),
                stat.vsize,
            ),
        ),
        match limits {
            Some(l) => gauge_out(
                prefix,
                labels,
                ns + "process_virtual_memory_max"@,
                "Maximum amount of virtual memory available in bytes."@,
                None,
                spec_limit_value(l.max_address_space.0, l.max_address_space.1),
            ),
            None => nothing(),
        },
    )
}

/// The output of the file descriptor and CPU metrics: open file
/// descriptors, their limit where the limits were read, and the CPU time.
#[verifier::opaque]
pub open spec fn fds_cpu_out(
    prefix: Option<Seq<char>>,
    labels: Seq<LabelView>,
    ns: Seq<char>,
    open_fds: u64,
    limits: Option<ProcLimits>,
    stat: ProcStat,
    ticks_per_second: u64,
) -> Output {
    cat(
        cat(
            counter_out(
                prefix,
                labels,
                ns + "process_open_fds"@,
                "Number of open file descriptors."@,
                None,
                open_fds,
            ),
            match limits {
                Some(l) => gauge_out(
                    prefix,
                    labels,
                    ns + "process_max_fds"@,
                    "Maximum number of open file descriptors."@,
                    None,
                    spec_limit_value(l.max_open_files.0, l.max_open_files.1),
                ),
                None => nothing(),
            },
        ),
        counter_out(
            prefix,
            labels,
            ns + "process_cpu"@,
            "Total user and system CPU time spent in seconds."@,
            Some("seconds"@),
            ((stat.stime + stat.utime) / ticks_per_second as int) as u64,
        ),
    )
}

/// The output of the network metrics, where the traffic was read.
#[verifier::opaque]
pub open spec fn network_out(
    prefix: Option<Seq<char>>,
    labels: Seq<LabelView>,
    ns: Seq<char>,
    network: Option<(u64, u64)>,
) -> Output {
    match network {
        Some((received, sent)) => cat(
            counter_out(
                prefix,
                labels,
                ns + "process_network_receive"@,
                "Number of bytes received by the process over the network."@,
                Some("bytes"@),
                received,
            ),
            counter_out(
                prefix,
                labels,
                ns + "process_network_transmit"@,
                "Number of bytes sent by the process over the network."@,
                Some("bytes"@),
                sent,
            ),
        ),
        None => nothing(),
    }
}

/// The output of the process metrics, for a namespace (empty or ending in
/// `_`) and a page size, where encoding succeeds.
pub open spec fn process_out(
    prefix: Option<Seq<char>>,
    labels: Seq<LabelView>,
    ns: Seq<char>,
    page_size: u64,
    stats: ProcessStats,
) -> Output {
    cat(
        gauge_out(
            prefix,
            labels,
            ns + "process_start_time"@,
            "Start time of the process since unix epoch in seconds."@,
            Some("seconds"@),
            stats.start_time_seconds->0,
        ),
        match stats.stat {
            None => nothing(),
            Some(stat) => cat(
                cat(
                    memory_out(prefix, labels, ns, page_size, stat, stats.limits),
                    fds_cpu_out(
                        prefix,
                        labels,
                        ns,
                        stats.open_fds->0,
                        stats.limits,
                        stat,
                        stats.ticks_per_second,
                    ),
                ),
                network_out(prefix, labels, ns, stats.network),
            ),
        },
    )
}

/// The text of the process metrics.
pub open spec fn process_text(
    prefix: Option<Seq<char>>,
    labels: Seq<LabelView>,
    ns: Seq<char>,
    page_size: u64,
    stats: ProcessStats,
) -> Seq<char> {
    process_out(prefix, labels, ns, page_size, stats).0
}

/// The views of the families of the process metrics.
pub open spec fn process_families(
    prefix: Option<Seq<char>>,
    labels: Seq<LabelView>,
    ns: Seq<char>,
    page_size: u64,
    stats: ProcessStats,
) -> Seq<FamilyView> {
    process_out(prefix, labels, ns, page_size, stats).1
}

/// `new` grows from `old` by `out`: its text in the text format, its
/// families in the protobuf format.
pub open spec fn extends_by(old: DescriptorEncoder, new: DescriptorEncoder, out: Output) -> bool {
    &&& old.grows_to(new)
    &&& old.text() matches Some(a) ==> (new.text() matches Some(b) && b.output() == a.output()
        + out.0)
    &&& old.proto() matches Some(a) ==> (new.proto() matches Some(b) && families_view(
        b.spec_families(),
    ) == families_view(a.spec_families()) + out.1)
}

/// Extending by two outputs in turn extends by both.
proof fn lemma_extends_trans(
    a: DescriptorEncoder,
    b: DescriptorEncoder,
    c: DescriptorEncoder,
    x: Output,
    y: Output,
)
    requires
        extends_by(a, b, x),
        extends_by(b, c, y),
    ensures
        extends_by(a, c, cat(x, y)),
{
    lemma_descriptor_grows_trans(a, b, c);
    if a.text() is Some {
        assert(c.text()->0.output() =~= a.text()->0.output() + (x.0 + y.0));
    }
    if a.proto() is Some {
        assert(families_view(c.proto()->0.spec_families()) =~= families_view(
            a.proto()->0.spec_families(),
        ) + (x.1 + y.1));
    }
}

/// Extending by nothing.
proof fn lemma_extends_refl(a: DescriptorEncoder)
    ensures
        extends_by(a, a, nothing()),
{
    lemma_descriptor_grows_refl(a);
    if a.text() is Some {
        assert(a.text()->0.output() =~= a.text()->0.output() + Seq::<char>::empty());
    }
    if a.proto() is Some {
        let f = families_view(a.proto()->0.spec_families());
        assert(f =~= f + Seq::<FamilyView>::empty());
    }
}

/// Growing keeps the prefix and the labels.
proof fn lemma_grows_keeps(a: DescriptorEncoder, b: DescriptorEncoder)
    requires
        a.grows_to(b),
    ensures
        a.spec_prefix() == b.spec_prefix(),
        a.spec_labels() == b.spec_labels(),
{
}

/// The text of an optional unit.
pub open spec fn unit_view(unit: Option<&Unit>) -> Option<Seq<char>> {
    match unit {
        Some(u) => opt_unit_name(Some(*u)),
        None => None,
    }
}

/// Encodes one gauge.
fn encode_gauge_value(
    encoder: &mut DescriptorEncoder,
    name: &str,
    help: &str,
    unit: Option<&Unit>,
    v: u64,
) -> (r: Result<(), std::fmt::Error>)
    ensures
        r is Ok,
        extends_by(
            *old(encoder),
            *final(encoder),
            gauge_out(
                old(encoder).spec_prefix(),
                old(encoder).spec_labels(),
                name@,
                help@,
                unit_view(unit),
                v,
            ),
        ),
{
    reveal(gauge_out);
    let ghost start = *encoder;
    let mut metric_encoder = encoder.encode_descriptor(name, help, unit, MetricType::Gauge)?;
    let ghost m0 = metric_encoder;
    proof {
        crate::encoding::lemma_descriptor_format(start);
        crate::encoding::lemma_metric_format(m0);
    }
    metric_encoder.encode_gauge(&v)?;
    let ghost m1 = metric_encoder;
    proof {
        crate::encoding::lemma_descriptor_format(start);
        crate::encoding::lemma_metric_format(m0);
        crate::encoding::lemma_metric_format(m1);
    }
    encoder.absorb(metric_encoder)?;
    proof {
        let o = gauge_out(
            start.spec_prefix(),
            start.spec_labels(),
            name@,
            help@,
            unit_view(unit),
            v,
        );
        if start.text() is Some {
            let t = start.text()->0;
            assert(encoder.text()->0.output() =~= t.output() + o.0);
        } else {
            let pa = start.proto()->0;
            let f = m1.proto()->0.spec_family();
            assert(m0.proto()->0.spec_metrics() =~= Seq::<MetricView>::empty());
            assert(metrics_view(f.metric@) =~= o.1[0].1);
            assert(family_header(f) == o.1[0].0);
            assert(family_view(f) == o.1[0]);
            assert(families_view(encoder.proto()->0.spec_families()) =~= families_view(
                pa.spec_families(),
            ) + o.1);
        }
    }
    Ok(())
}

/// Encodes one counter.
fn encode_counter_value(
    encoder: &mut DescriptorEncoder,
    name: &str,
    help: &str,
    unit: Option<&Unit>,
    v: u64,
) -> (r: Result<(), std::fmt::Error>)
    ensures
        r is Ok,
        extends_by(
            *old(encoder),
            *final(encoder),
            counter_out(
                old(encoder).spec_prefix(),
                old(encoder).spec_labels(),
                name@,
                help@,
                unit_view(unit),
                v,
            ),
        ),
{
    reveal(counter_out);
    let ghost start = *encoder;
    let mut metric_encoder = encoder.encode_descriptor(name, help, unit, MetricType::Counter)?;
    let ghost m0 = metric_encoder;
    proof {
        crate::encoding::lemma_descriptor_format(start);
        crate::encoding::lemma_metric_format(m0);
    }
    metric_encoder.encode_counter(&v)?;
    let ghost m1 = metric_encoder;
    proof {
        crate::encoding::lemma_descriptor_format(start);
        crate::encoding::lemma_metric_format(m0);
        crate::encoding::lemma_metric_format(m1);
    }
    encoder.absorb(metric_encoder)?;
    proof {
        let o = counter_out(
            start.spec_prefix(),
            start.spec_labels(),
            name@,
            help@,
            unit_view(unit),
            v,
        );
        if start.text() is Some {
            let t = start.text()->0;
            assert(encoder.text()->0.output() =~= t.output() + o.0);
        } else {
            let pa = start.proto()->0;
            let f = m1.proto()->0.spec_family();
            assert(m0.proto()->0.spec_metrics() =~= Seq::<MetricView>::empty());
            assert(metrics_view(f.metric@) =~= o.1[0].1);
            assert(family_header(f) == o.1[0].0);
            assert(family_view(f) == o.1[0]);
            assert(families_view(encoder.proto()->0.spec_families()) =~= families_view(
                pa.spec_families(),
            ) + o.1);
        }
    }
    Ok(())
}

// ---------------------------------------------------------------------------
// The network counters of the process.
/// The octet counters of the IP extension in `/proc/<pid>/net/netstat`, as
/// the text of their values; the caller reads them as numbers.
#[derive(Debug)]
pub struct IpOctetTokens {
    /// The value of `InOctets`, where there is one.
    pub in_octets: Option<String>,
    /// The value of `OutOctets`, where there is one.
    pub out_octets: Option<String>,
}

/// A header line and a value line of `/proc/<pid>/net/netstat` with
/// different numbers of fields, for the protocol they name.
#[derive(Debug)]
pub struct FieldCountMismatch(pub String);

/// The text without its trailing colons.
pub open spec fn trim_colons(s: Seq<char>) -> Seq<char>
    decreases s.len(),
{
    if s.len() > 0 && s.last() == ':' {
        trim_colons(s.drop_last())
    } else {
        s
    }
}

/// The value of the last of the fields `1..n` of the header named `key`, or
/// `prev` where none is.
pub open spec fn last_field(
    header: Seq<Seq<char>>,
    values: Seq<Seq<char>>,
    key: Seq<char>,
    prev: Option<Seq<char>>,
    n: int,
) -> Option<Seq<char>>
    decreases n,
{
    if n <= 1 {
        prev
    } else if header[n - 1] == key {
        Some(values[n - 1])
    } else {
        last_field(header, values, key, prev, n - 1)
    }
}

/// The texts of strings.
pub open spec fn strings_view(v: Seq<String>) -> Seq<Seq<char>> {
    v.map_values(|s: String| s@)
}

/// Whether `c` is whitespace as `char::is_whitespace` tells it: a character
/// of Unicode's `White_Space` property.
pub uninterp spec fn whitespace(c: char) -> bool;

/// `char::is_whitespace`; its result is named by [`whitespace`].
#[verifier::external_body]
fn is_whitespace(c: char) -> (r: bool)
    ensures
        r == whitespace(c),
{
    c.is_whitespace()
}

/// The fields of a line: its runs of characters other than whitespace, in
/// order.
pub open spec fn fields_of(s: Seq<char>) -> Seq<Seq<char>>
    decreases s.len(),
{
    if s.len() == 0 {
        Seq::empty()
    } else {
        let w = fields_of(s.drop_last());
        let c = s.last();
        if whitespace(c) {
            w
        } else if s.len() >= 2 && !whitespace(s[s.len() - 2]) {
            w.update(w.len() - 1, w.last().push(c))
        } else {
            w.push(seq![c])
        }
    }
}

/// Splits a line into its fields, as `str::split_whitespace` does.
pub fn fields(line: &str) -> (r: Vec<String>)
    ensures
        strings_view(r@) == fields_of(line@),
{
    let chars = chars_of(line);
    let mut done: Vec<String> = Vec::new();
    let mut current = String::new();
    let mut in_field = false;
    let mut i: usize = 0;
    while i < chars.len()
        invariant
            i <= chars.len(),
            chars@ == line@,
            in_field <==> (i > 0 && !whitespace(chars@[i - 1])),
            !in_field ==> current@.len() == 0,
            fields_of(chars@.take(i as int)) == if in_field {
                strings_view(done@).push(current@)
            } else {
                strings_view(done@)
            },
        decreases chars.len() - i,
    {
        let c = chars[i];
        let ghost t = chars@.take(i + 1);
        proof {
            assert(t.drop_last() =~= chars@.take(i as int));
            assert(t.last() == c);
            if i > 0 {
                assert(t[i - 1] == chars@[i - 1]);
            }
        }
        if is_whitespace(c) {
            if in_field {
                let ghost d = done@;
                let ghost cur = current@;
                done.push(current);
                current = String::new();
                proof {
                    assert(strings_view(done@) =~= strings_view(d).push(cur));
                }
            }
            in_field = false;
        } else {
            let ghost before = strings_view(done@);
            let ghost cur = current@;
            current.push(c);
            proof {
                if in_field {
                    assert(before.push(cur).update(before.len() as int, cur.push(c))
                        =~= before.push(current@));
                } else {
                    assert(cur.len() == 0);
                    assert(current@ =~= seq![c]);
                }
            }
            in_field = true;
        }
        i += 1;
    }
    let ghost d = done@;
    let ghost cur = current@;
    if in_field {
        done.push(current);
        proof {
            assert(strings_view(done@) =~= strings_view(d).push(cur));
        }
    }
    proof {
        assert(chars@.take(chars.len() as int) =~= chars@);
    }
    done
}

/// Reads a header line and its value line of `/proc/<pid>/net/netstat`,
/// each split into its fields. The first field of the header names the
/// protocol, with trailing colons; for `IpExt` the values of the fields
/// `InOctets` and `OutOctets` are kept, the last of each where a name comes
/// more than once. Fails where the lines have different numbers of fields.
pub fn read_netstat_pair(
    header: &Vec<String>,
    values: &Vec<String>,
    octets: &mut IpOctetTokens,
) -> (r: Result<(), FieldCountMismatch>)
    requires
        header@.len() > 0,
    ensures
        r is Err <==> header@.len() != values@.len(),
        r matches Err(FieldCountMismatch(p)) ==> p@ == trim_colons(header@[0]@),
        r is Err ==> *final(octets) == *old(octets),
        r is Ok ==> opt_view(final(octets).in_octets) == if trim_colons(header@[0]@) == "IpExt"@ {
            last_field(
                strings_view(header@),
                strings_view(values@),
                "InOctets"@,
                opt_view(old(octets).in_octets),
                header@.len() as int,
            )
        } else {
            opt_view(old(octets).in_octets)
        },
        r is Ok ==> opt_view(final(octets).out_octets) == if trim_colons(header@[0]@) == "IpExt"@ {
            last_field(
                strings_view(header@),
                strings_view(values@),
                "OutOctets"@,
                opt_view(old(octets).out_octets),
                header@.len() as int,
            )
        } else {
            opt_view(old(octets).out_octets)
        },
{
    let chars = chars_of(header[0].as_str());
    let mut end: usize = chars.len();
    proof {
        assert(chars@.take(end as int) =~= chars@);
    }
    while end > 0 && chars[end - 1] == ':'
        invariant
            end <= chars.len(),
            trim_colons(chars@.take(end as int)) == trim_colons(chars@),
        decreases end,
    {
        proof {
            assert(chars@.take(end as int).drop_last() =~= chars@.take(end - 1));
        }
        end -= 1;
    }
    let mut protocol = String::new();
    let mut k: usize = 0;
    while k < end
        invariant
            k <= end <= chars.len(),
            protocol@ == chars@.take(k as int),
        decreases end - k,
    {
        protocol.push(chars[k]);
        proof {
            assert(chars@.take(k + 1) =~= chars@.take(k as int).push(chars@[k as int]));
        }
        k += 1;
    }
    proof {
        assert(protocol@ == trim_colons(header@[0]@));
    }
    if header.len() != values.len() {
        return Err(FieldCountMismatch(protocol));
    }
    let ip_ext = String::from_str("IpExt");
    if protocol == ip_ext {
        let in_key = String::from_str("InOctets");
        let out_key = String::from_str("OutOctets");
        proof {
            reveal_strlit("InOctets");
            reveal_strlit("OutOctets");
            assert(in_key@ != out_key@) by {
                assert(in_key@.len() != out_key@.len());
            }
        }
        let ghost h = strings_view(header@);
        let ghost v = strings_view(values@);
        let ghost in0 = opt_view(octets.in_octets);
        let ghost out0 = opt_view(octets.out_octets);
        let mut i: usize = 1;
        while i < header.len()
            invariant
                1 <= i <= header.len(),
                header.len() == values.len(),
                h == strings_view(header@),
                v == strings_view(values@),
                in_key@ == "InOctets"@,
                out_key@ == "OutOctets"@,
                in_key@ != out_key@,
                opt_view(octets.in_octets) == last_field(h, v, "InOctets"@, in0, i as int),
                opt_view(octets.out_octets) == last_field(h, v, "OutOctets"@, out0, i as int),
            decreases header.len() - i,
        {
            if header[i] == in_key {
                octets.in_octets = Some(values[i].clone());
            } else if header[i] == out_key {
                octets.out_octets = Some(values[i].clone());
            }
            proof {
                assert(h[i as int] == header@[i as int]@);
                assert(v[i as int] == values@[i as int]@);
            }
            i += 1;
        }
    }
    Ok(())
}

// ---------------------------------------------------------------------------
// The collector.
/// Collects the metrics of the running process, each name in a namespace.
#[derive(Debug)]
pub struct ProcessCollector {
    namespace: String,
    page_size: u64,
}

impl ProcessCollector {
    /// The text before each metric name: the namespace and `_`, or nothing.
    pub closed spec fn spec_namespace(&self) -> Seq<char> {
        self.namespace@
    }

    /// The page size of the system, in bytes.
    pub closed spec fn spec_page_size(&self) -> u64 {
        self.page_size
    }

    /// A collector whose metric names start with `namespace` and `_`, for a
    /// system with pages of `page_size` bytes.
    pub fn new(namespace: Option<String>, page_size: u64) -> (r: Self)
        ensures
            r.spec_namespace() == match namespace {
                Some(n) => n@.push('_'),
                None => Seq::empty(),
            },
            r.spec_page_size() == page_size,
    {
        let namespace = match namespace {
            Some(n) => {
                let mut n = n;
                n.push('_');
                n
            },
            None => String::new(),
        };
        ProcessCollector { namespace, page_size }
    }

    /// The page size of the system, in bytes.
    pub fn page_size(&self) -> (r: u64)
        ensures
            r == self.spec_page_size(),
    {
        self.page_size
    }

    fn metric_name(&self, name: &str) -> (r: String)
        ensures
            r@ == self.spec_namespace() + name@,
    {
        let mut full = self.namespace.clone();
        full.append(name);
        full
    }

    fn encode_memory(
        &self,
        encoder: &mut DescriptorEncoder,
        stat: &ProcStat,
        limits: &Option<ProcLimits>,
    ) -> (r: Result<(), std::fmt::Error>)
        requires
            stat.rss * self.spec_page_size() <= u64::MAX,
        ensures
            r is Ok,
            extends_by(
                *old(encoder),
                *final(encoder),
                memory_out(
                    old(encoder).spec_prefix(),
                    old(encoder).spec_labels(),
                    self.spec_namespace(),
                    self.spec_page_size(),
                    *stat,
                    *limits,
                ),
            ),
    {
        let ghost e0 = *encoder;
        let ghost p = e0.spec_prefix();
        let ghost l = e0.spec_labels();
        let name = self.metric_name("process_resident_memory");
        encode_gauge_value(
            encoder,
            name.as_str(),
            "Resident memory size in bytes.",
            Some(&Unit::Bytes),
            stat.rss * self.page_size,
        )?;
        let ghost e1 = *encoder;
        proof {
            lemma_grows_keeps(e0, e1);
        }
        let name = self.metric_name("process_virtual_memory");
        encode_gauge_value(
            encoder,
            name.as_str(),
            "Virtual memory size in bytes",
            Some(&Unit::Bytes),
            stat.vsize,
        )?;
        let ghost e2 = *encoder;
        proof {
            lemma_grows_keeps(e1, e2);
        }
        match limits {
            Some(limits) => {
                let name = self.metric_name("process_virtual_memory_max");
                encode_gauge_value(
                    encoder,
                    name.as_str(),
                    "Maximum amount of virtual memory available in bytes.",
                    None,
                    limit_value(limits.max_address_space.0, limits.max_address_space.1),
                )?;
            },
            None => {
                proof {
                    lemma_extends_refl(e2);
                }
            },
        }
        proof {
            let ns = self.spec_namespace();
            let x = gauge_out(
                p,
                l,
                ns + "process_resident_memory"@,
                "Resident memory size in bytes."@,
                Some("bytes"@),
                (stat.rss * self.page_size) as u64,
            );
            let y = gauge_out(
                p,
                l,
                ns + "process_virtual_memory"@,
                "Virtual memory size in bytes"@,
                Some("bytes"@),
                stat.vsize,
            );
            let z = match *limits {
                Some(lim) => gauge_out(
                    p,
                    l,
                    ns + "process_virtual_memory_max"@,
                    "Maximum amount of virtual memory available in bytes."@,
                    None,
                    spec_limit_value(lim.max_address_space.0, lim.max_address_space.1),
                ),
                None => nothing(),
            };
            assert(extends_by(e0, e1, x));
            assert(extends_by(e1, e2, y));
            assert(extends_by(e2, *encoder, z));
            lemma_extends_trans(e0, e1, e2, x, y);
            lemma_extends_trans(e0, e2, *encoder, cat(x, y), z);
            reveal(memory_out);
        }
        Ok(())
    }

    fn encode_fds_cpu(
        &self,
        encoder: &mut DescriptorEncoder,
        open_fds: u64,
        limits: &Option<ProcLimits>,
        stat: &ProcStat,
        ticks_per_second: u64,
    ) -> (r: Result<(), std::fmt::Error>)
        requires
            ticks_per_second > 0,
            stat.stime + stat.utime <= u64::MAX,
        ensures
            r is Ok,
            extends_by(
                *old(encoder),
                *final(encoder),
                fds_cpu_out(
                    old(encoder).spec_prefix(),
                    old(encoder).spec_labels(),
                    self.spec_namespace(),
                    open_fds,
                    *limits,
                    *stat,
                    ticks_per_second,
                ),
            ),
    {
        let ghost e0 = *encoder;
        let ghost p = e0.spec_prefix();
        let ghost l = e0.spec_labels();
        let name = self.metric_name("process_open_fds");
        encode_counter_value(
            encoder,
            name.as_str(),
            "Number of open file descriptors.",
            None,
            open_fds,
        )?;
        let ghost e1 = *encoder;
        proof {
            lemma_grows_keeps(e0, e1);
        }
        match limits {
            Some(limits) => {
                let name = self.metric_name("process_max_fds");
                encode_gauge_value(
                    encoder,
                    name.as_str(),
                    "Maximum number of open file descriptors.",
                    None,
                    limit_value(limits.max_open_files.0, limits.max_open_files.1),
                )?;
            },
            None => {
                proof {
                    lemma_extends_refl(e1);
                }
            },
        }
        let ghost e2 = *encoder;
        proof {
            lemma_grows_keeps(e1, e2);
        }
        let name = self.metric_name("process_cpu");
        encode_counter_value(
            encoder,
            name.as_str(),
            "Total user and system CPU time spent in seconds.",
            Some(&Unit::Seconds),
            (stat.stime + stat.utime) / ticks_per_second,
        )?;
        proof {
            let ns = self.spec_namespace();
            let x = counter_out(
                p,
                l,
                ns + "process_open_fds"@,
                "Number of open file descriptors."@,
                None,
                open_fds,
            );
            let y = match *limits {
                Some(lim) => gauge_out(
                    p,
                    l,
                    ns + "process_max_fds"@,
                    "Maximum number of open file descriptors."@,
                    None,
                    spec_limit_value(lim.max_open_files.0, lim.max_open_files.1),
                ),
                None => nothing(),
            };
            let z = counter_out(
                p,
                l,
                ns + "process_cpu"@,
                "Total user and system CPU time spent in seconds."@,
                Some("seconds"@),
                ((stat.stime + stat.utime) / ticks_per_second as int) as u64,
            );
            assert(extends_by(e0, e1, x));
            assert(extends_by(e1, e2, y));
            assert(extends_by(e2, *encoder, z));
            lemma_extends_trans(e0, e1, e2, x, y);
            lemma_extends_trans(e0, e2, *encoder, cat(x, y), z);
            reveal(fds_cpu_out);
        }
        Ok(())
    }

    fn encode_network(&self, encoder: &mut DescriptorEncoder, network: &Option<(u64, u64)>) -> (r:
        Result<(), std::fmt::Error>)
        ensures
            r is Ok,
            extends_by(
                *old(encoder),
                *final(encoder),
                network_out(
                    old(encoder).spec_prefix(),
                    old(encoder).spec_labels(),
                    self.spec_namespace(),
                    *network,
                ),
            ),
    {
        let ghost e0 = *encoder;
        let ghost p = e0.spec_prefix();
        let ghost l = e0.spec_labels();
        match network {
            Some((received, sent)) => {
                let name = self.metric_name("process_network_receive");
                encode_counter_value(
                    encoder,
                    name.as_str(),
                    "Number of bytes received by the process over the network.",
                    Some(&Unit::Bytes),
                    *received,
                )?;
                let ghost e1 = *encoder;
                proof {
                    lemma_grows_keeps(e0, e1);
                }
                let name = self.metric_name("process_network_transmit");
                encode_counter_value(
                    encoder,
                    name.as_str(),
                    "Number of bytes sent by the process over the network.",
                    Some(&Unit::Bytes),
                    *sent,
                )?;
                proof {
                    let ns = self.spec_namespace();
                    let x = counter_out(
                        p,
                        l,
                        ns + "process_network_receive"@,
                        "Number of bytes received by the process over the network."@,
                        Some("bytes"@),
                        *received,
                    );
                    let y = counter_out(
                        p,
                        l,
                        ns + "process_network_transmit"@,
                        "Number of bytes sent by the process over the network."@,
                        Some("bytes"@),
                        *sent,
                    );
                    assert(extends_by(e0, e1, x));
                    assert(extends_by(e1, *encoder, y));
                    lemma_extends_trans(e0, e1, *encoder, x, y);
                    reveal(network_out);
                }
            },
            None => {
                proof {
                    lemma_extends_refl(e0);
                    reveal(network_out);
                }
            },
        }
        Ok(())
    }

    /// Encodes the metrics of the process from what was read of it: the start
    /// time; then, where the process could be read, its memory, limits, open
    /// file descriptors, CPU time and network traffic. Fails where the start
    /// time is missing, or the process was read but its file descriptors
    /// could not be counted.
    pub fn encode_stats(&self, encoder: &mut DescriptorEncoder, stats: &ProcessStats) -> (r: Result<
        (),
        std::fmt::Error,
    >)
        requires
            stats.ticks_per_second > 0,
            stats.stat matches Some(s) ==> s.stime + s.utime <= u64::MAX && s.rss
                * self.spec_page_size() <= u64::MAX,
        ensures
            r is Err <==> (stats.start_time_seconds is None || (stats.stat is Some
                && stats.open_fds is None)),
            r is Ok ==> old(encoder).grows_to(*final(encoder)),
            r is Ok ==> (old(encoder).text() matches Some(t) ==> (final(encoder).text() matches Some(
                b,
            ) && b.output() == t.output() + process_text(
                t.spec_prefix(),
                t.spec_labels(),
                self.spec_namespace(),
                self.spec_page_size(),
                *stats,
            ))),
            r is Ok ==> (old(encoder).proto() matches Some(t) ==> (final(encoder).proto() matches Some(
                b,
            ) && families_view(b.spec_families()) == families_view(t.spec_families())
                + process_families(
                t.spec_prefix(),
                t.spec_labels(),
                self.spec_namespace(),
                self.spec_page_size(),
                *stats,
            ))),
    {
        let ghost e0 = *encoder;
        let ghost p = e0.spec_prefix();
        let ghost l = e0.spec_labels();
        proof {
            crate::encoding::lemma_descriptor_format(e0);
        }
        let start = match stats.start_time_seconds {
            Some(s) => s,
            None => {
                return Err(crate::encoding::fmt_error());
            },
        };
        let name = self.metric_name("process_start_time");
        encode_gauge_value(
            encoder,
            name.as_str(),
            "Start time of the process since unix epoch in seconds.",
            Some(&Unit::Seconds),
            start,
        )?;
        let ghost e1 = *encoder;
        let ghost ns = self.spec_namespace();
        let ghost w = gauge_out(
            p,
            l,
            ns + "process_start_time"@,
            "Start time of the process since unix epoch in seconds."@,
            Some("seconds"@),
            start,
        );
        proof {
            lemma_grows_keeps(e0, e1);
            assert(extends_by(e0, e1, w));
        }
        let stat = match &stats.stat {
            Some(stat) => stat,
            None => {
                proof {
                    let o = process_out(p, l, ns, self.spec_page_size(), *stats);
                    assert(o.0 =~= w.0);
                    assert(o.1 =~= w.1);
                }
                return Ok(());
            },
        };
        let open_fds = match stats.open_fds {
            Some(n) => n,
            None => {
                return Err(crate::encoding::fmt_error());
            },
        };
        self.encode_memory(encoder, stat, &stats.limits)?;
        let ghost e2 = *encoder;
        proof {
            lemma_grows_keeps(e1, e2);
        }
        self.encode_fds_cpu(encoder, open_fds, &stats.limits, stat, stats.ticks_per_second)?;
        let ghost e3 = *encoder;
        proof {
            lemma_grows_keeps(e2, e3);
        }
        self.encode_network(encoder, &stats.network)?;
        proof {
            let x = memory_out(p, l, ns, self.spec_page_size(), *stat, stats.limits);
            let y = fds_cpu_out(p, l, ns, open_fds, stats.limits, *stat, stats.ticks_per_second);
            let z = network_out(p, l, ns, stats.network);
            assert(extends_by(e1, e2, x));
            assert(extends_by(e2, e3, y));
            assert(extends_by(e3, *encoder, z));
            lemma_extends_trans(e0, e1, e2, w, x);
            lemma_extends_trans(e0, e2, e3, cat(w, x), y);
            lemma_extends_trans(e0, e3, *encoder, cat(cat(w, x), y), z);
            let o = process_out(p, l, ns, self.spec_page_size(), *stats);
            assert(cat(cat(cat(w, x), y), z).0 =~= o.0);
            assert(cat(cat(cat(w, x), y), z).1 =~= o.1);
        }
        Ok(())
    }
}

} // verus!
