//! Prometheus protobuf implementation: the metrics of a registry as
//! `MetricFamily` messages of the `io.prometheus.client` data model.
use std::borrow::Cow;
use vstd::prelude::*;

pub mod prometheus_data_model;

use crate::encoding::text::{cow_pairs_view, opt_view, owned_pairs, prefix_part, unit_part};
use crate::encoding::{pairs_view, IntegerValue, LabelView, MetricView};
use crate::metrics::MetricType;
use crate::registry::{opt_unit_name, Prefix, Registry, Unit};
use prometheus_data_model::{metric_type_number, LabelPair, Metric, MetricFamily};

verus! {

/// The view of a label.
pub open spec fn label_pair_view(l: LabelPair) -> LabelView {
    (l.name@, l.value@)
}

/// The view of a sequence of labels.
pub open spec fn label_pairs_view(v: Seq<LabelPair>) -> Seq<LabelView> {
    v.map_values(|l: LabelPair| label_pair_view(l))
}

/// The view of a metric: its labels, its gauge value and its counter value.
pub open spec fn metric_view(m: Metric) -> (Seq<LabelView>, Option<IntegerValue>, Option<
    IntegerValue,
>) {
    (
        label_pairs_view(m.label@),
        match m.gauge {
            Some(g) => Some(g.value),
            None => None,
        },
        match m.counter {
            Some(c) => Some(c.value),
            None => None,
        },
    )
}

/// The views of a sequence of metrics.
pub open spec fn metrics_view(v: Seq<Metric>) -> Seq<
    (Seq<LabelView>, Option<IntegerValue>, Option<IntegerValue>),
> {
    v.map_values(|m: Metric| metric_view(m))
}

/// The protobuf metric type for an OpenMetrics metric type. Prometheus has no
/// info type: an info is exposed as the conventional `<name>_info` gauge.
pub open spec fn proto_type(t: MetricType) -> prometheus_data_model::MetricType {
    match t {
        MetricType::Counter => prometheus_data_model::MetricType::Counter,
        MetricType::Gauge => prometheus_data_model::MetricType::Gauge,
        MetricType::Histogram => prometheus_data_model::MetricType::Histogram,
        MetricType::Info => prometheus_data_model::MetricType::Gauge,
        MetricType::Unknown => prometheus_data_model::MetricType::Untyped,
    }
}

/// On the wire, an OpenMetrics counter is a COUNTER (0), a gauge and an info
/// are a GAUGE (1), a histogram is a HISTOGRAM (4) and an unknown metric is
/// UNTYPED (3).
pub proof fn lemma_proto_wire_numbers(t: MetricType)
    ensures
        metric_type_number(proto_type(t)) == match t {
            MetricType::Counter => 0i32,
            MetricType::Gauge => 1i32,
            MetricType::Info => 1i32,
            MetricType::Histogram => 4i32,
            MetricType::Unknown => 3i32,
        },
{
    prometheus_data_model::lemma_wire_numbers();
}

/// Converts an OpenMetrics metric type into the protobuf metric type.
pub fn to_proto_type(t: MetricType) -> (r: prometheus_data_model::MetricType)
    ensures
        r == proto_type(t),
{
    match t {
        MetricType::Counter => prometheus_data_model::MetricType::Counter,
        MetricType::Gauge => prometheus_data_model::MetricType::Gauge,
        MetricType::Histogram => prometheus_data_model::MetricType::Histogram,
        MetricType::Info => prometheus_data_model::MetricType::Gauge,
        MetricType::Unknown => prometheus_data_model::MetricType::Untyped,
    }
}

/// The name of a metric family: prefix, name and unit joined by `_`, with
/// the `_total` suffix for counters and `_info` for infos.
pub open spec fn family_name(
    prefix: Option<Seq<char>>,
    name: Seq<char>,
    unit: Option<Seq<char>>,
    metric_type: MetricType,
) -> Seq<char> {
    prefix_part(prefix) + name + unit_part(unit) + match metric_type {
        MetricType::Counter => "_total"@,
        MetricType::Info => "_info"@,
        _ => Seq::empty(),
    }
}

/// The name of the metric family for a metric.
pub fn metric_family_name(
    prefix: Option<&Prefix>,
    name: &str,
    unit: Option<&Unit>,
    metric_type: MetricType,
) -> (r: String)
    ensures
        r@ == family_name(
            match prefix {
                Some(p) => Some(p@),
                None => None,
            },
            name@,
            match unit {
                Some(u) => opt_unit_name(Some(*u)),
                None => None,
            },
            metric_type,
        ),
{
    let mut full_name = String::new();
    match prefix {
        Some(prefix) => {
            full_name.append(prefix.as_str());
            full_name.push('_');
        },
        None => {},
    }
    full_name.append(name);
    match unit {
        Some(unit) => {
            full_name.push('_');
            full_name.append(unit.as_str());
        },
        None => {},
    }
    match metric_type {
        MetricType::Counter => full_name.append("_total"),
        MetricType::Info => full_name.append("_info"),
        _ => {},
    }
    let ghost u = match unit {
        Some(u) => opt_unit_name(Some(*u)),
        None => None,
    };
    let ghost p = match prefix {
        Some(p) => Some(p@),
        None => None,
    };
    assert(full_name@ =~= family_name(p, name@, u, metric_type));
    full_name
}

/// Converts owned label pairs into protobuf labels.
pub(crate) fn to_label_pairs(labels: Vec<(String, String)>) -> (r: Vec<LabelPair>)
    ensures
        label_pairs_view(r@) == pairs_view(labels@),
{
    let mut r: Vec<LabelPair> = Vec::new();
    let mut i: usize = 0;
    while i < labels.len()
        invariant
            i <= labels.len(),
            label_pairs_view(r@) == pairs_view(labels@).take(i as int),
        decreases labels.len() - i,
    {
        let name = labels[i].0.clone();
        let value = labels[i].1.clone();
        let ghost old_r = r@;
        r.push(LabelPair { name, value });
        assert(label_pairs_view(r@) =~= label_pairs_view(old_r).push(
            (labels@[i as int].0@, labels@[i as int].1@),
        ));
        assert(pairs_view(labels@).take(i + 1) =~= pairs_view(labels@).take(i as int).push(
            (labels@[i as int].0@, labels@[i as int].1@),
        ));
        i += 1;
    }
    assert(pairs_view(labels@).take(labels@.len() as int) =~= pairs_view(labels@));
    r
}

/// Copies protobuf labels.
pub(crate) fn clone_label_pairs(labels: &Vec<LabelPair>) -> (r: Vec<LabelPair>)
    ensures
        label_pairs_view(r@) == label_pairs_view(labels@),
{
    let mut r: Vec<LabelPair> = Vec::new();
    let mut i: usize = 0;
    while i < labels.len()
        invariant
            i <= labels.len(),
            label_pairs_view(r@) == label_pairs_view(labels@).take(i as int),
        decreases labels.len() - i,
    {
        let name = labels[i].name.clone();
        let value = labels[i].value.clone();
        let ghost old_r = r@;
        r.push(LabelPair { name, value });
        assert(label_pairs_view(r@) =~= label_pairs_view(old_r).push(
            label_pair_view(labels@[i as int]),
        ));
        assert(label_pairs_view(labels@).take(i + 1) =~= label_pairs_view(labels@).take(
            i as int,
        ).push(label_pair_view(labels@[i as int])));
        i += 1;
    }
    assert(label_pairs_view(labels@).take(labels@.len() as int) =~= label_pairs_view(labels@));
    r
}

/// Appends the labels of `extra` to `labels`.
fn append_label_pairs(labels: &mut Vec<LabelPair>, extra: Vec<(String, String)>)
    ensures
        label_pairs_view(final(labels)@) == label_pairs_view(old(labels)@) + pairs_view(extra@),
{
    let mut converted = to_label_pairs(extra);
    let ghost a = old(labels)@;
    let ghost b = converted@;
    labels.append(&mut converted);
    assert(label_pairs_view(labels@) =~= label_pairs_view(a) + label_pairs_view(b));
}

/// The header of a family: name, help, type and unit.
pub open spec fn family_header(f: MetricFamily) -> (Seq<char>, Seq<char>, i32, Seq<char>) {
    (f.name@, f.help@, f.metric_type, f.unit@)
}

/// The view of a family: its header and the views of its metrics.
pub type FamilyView = ((Seq<char>, Seq<char>, i32, Seq<char>), Seq<MetricView>);

/// The view of a family.
pub open spec fn family_view(f: MetricFamily) -> FamilyView {
    (family_header(f), metrics_view(f.metric@))
}

/// The views of a sequence of families.
pub open spec fn families_view(fs: Seq<MetricFamily>) -> Seq<FamilyView> {
    fs.map_values(|f: MetricFamily| family_view(f))
}

/// Encoder of metric descriptors into protobuf metric families.
#[derive(Debug)]
pub struct DescriptorEncoder {
    families: Vec<MetricFamily>,
    prefix: Option<String>,
    labels: Vec<(String, String)>,
}

impl DescriptorEncoder {
    /// The families encoded so far.
    pub closed spec fn spec_families(&self) -> Seq<MetricFamily> {
        self.families@
    }

    /// The prefix of the metric names.
    pub closed spec fn spec_prefix(&self) -> Option<Seq<char>> {
        opt_view(self.prefix)
    }

    /// The labels added to every metric.
    pub closed spec fn spec_labels(&self) -> Seq<LabelView> {
        pairs_view(self.labels@)
    }

    /// An encoder without families, prefix or labels.
    pub fn new() -> (r: Self)
        ensures
            r.spec_families() == Seq::<MetricFamily>::empty(),
            r.spec_prefix() is None,
            r.spec_labels() == Seq::<LabelView>::empty(),
    {
        DescriptorEncoder { families: Vec::new(), prefix: None, labels: Vec::new() }
    }

    /// An encoder without families, for the given prefix and labels.
    pub fn with_prefix_and_labels(
        &self,
        prefix: Option<&Prefix>,
        labels: &Vec<(Cow<'static, str>, Cow<'static, str>)>,
    ) -> (r: Self)
        ensures
            r.spec_families() == Seq::<MetricFamily>::empty(),
            r.spec_prefix() == match prefix {
                Some(p) => Some(p@),
                None => None::<Seq<char>>,
            },
            r.spec_labels() == cow_pairs_view(labels@),
    {
        DescriptorEncoder {
            families: Vec::new(),
            prefix: match prefix {
                Some(p) => Some(String::from_str(p.as_str())),
                None => None,
            },
            labels: owned_pairs(labels),
        }
    }

    /// Encode a descriptor; the returned encoder holds the family and takes
    /// its metrics.
    pub fn encode_descriptor(
        &self,
        name: &str,
        help: &str,
        unit: Option<&Unit>,
        metric_type: MetricType,
    ) -> (r: Result<MetricEncoder, std::fmt::Error>)
        ensures
            r matches Ok(m) && family_header(m.spec_family()) == (
                family_name(
                    self.spec_prefix(),
                    name@,
                    match unit {
                        Some(u) => opt_unit_name(Some(*u)),
                        None => None,
                    },
                    metric_type,
                ),
                help@,
                metric_type_number(proto_type(metric_type)),
                match unit {
                    Some(u) => unit_name_or_empty(Some(*u)),
                    None => Seq::empty(),
                },
            ) && m.spec_family().metric@.len() == 0 && m.spec_labels() == self.spec_labels(),
    {
        let prefix: Option<Prefix> = match &self.prefix {
            Some(p) => Some(Prefix::new(p.clone())),
            None => None,
        };
        let family_name = match &prefix {
            Some(p) => metric_family_name(Some(p), name, unit, metric_type),
            None => metric_family_name(None, name, unit, metric_type),
        };
        let family = MetricFamily {
            name: family_name,
            help: String::from_str(help),
            metric_type: to_proto_type(metric_type).number(),
            metric: Vec::new(),
            unit: match unit {
                Some(u) => String::from_str(u.as_str()),
                None => String::new(),
            },
        };
        let labels = to_label_pairs(crate::encoding::clone_pairs(&self.labels));
        Ok(MetricEncoder { family, labels })
    }

    /// Appends the family of a metric encoder obtained from
    /// [`Self::encode_descriptor`].
    pub fn absorb(&mut self, metric: MetricEncoder)
        ensures
            final(self).spec_families() == old(self).spec_families().push(metric.spec_family()),
            final(self).spec_prefix() == old(self).spec_prefix(),
            final(self).spec_labels() == old(self).spec_labels(),
    {
        self.families.push(metric.family);
    }

    /// Appends the families of another descriptor encoder.
    pub fn absorb_descriptors(&mut self, other: DescriptorEncoder)
        ensures
            final(self).spec_families() == old(self).spec_families() + other.spec_families(),
            final(self).spec_prefix() == old(self).spec_prefix(),
            final(self).spec_labels() == old(self).spec_labels(),
    {
        let mut families = other.families;
        self.families.append(&mut families);
    }

    /// The families encoded.
    pub fn into_families(self) -> (r: Vec<MetricFamily>)
        ensures
            r@ == self.spec_families(),
    {
        self.families
    }
}

/// The unit text of a family: the unit, or nothing.
pub open spec fn unit_name_or_empty(unit: Option<Unit>) -> Seq<char> {
    match opt_unit_name(unit) {
        Some(u) => u,
        None => Seq::empty(),
    }
}

/// Encoder of the metrics of one family into protobuf messages.
#[derive(Debug)]
pub struct MetricEncoder {
    family: MetricFamily,
    labels: Vec<LabelPair>,
}

impl MetricEncoder {
    /// The family with the metrics encoded so far.
    pub closed spec fn spec_family(&self) -> MetricFamily {
        self.family
    }

    /// The labels added to every metric.
    pub closed spec fn spec_labels(&self) -> Seq<LabelView> {
        label_pairs_view(self.labels@)
    }

    /// The views of the metrics encoded so far.
    pub open spec fn spec_metrics(&self) -> Seq<
        (Seq<LabelView>, Option<IntegerValue>, Option<IntegerValue>),
    > {
        metrics_view(self.spec_family().metric@)
    }

    /// Both encoders have the same family header and labels.
    pub open spec fn same_config(&self, other: &Self) -> bool {
        &&& family_header(self.spec_family()) == family_header(other.spec_family())
        &&& self.spec_labels() == other.spec_labels()
    }

    fn push_metric(&mut self, metric: Metric)
        ensures
            final(self).same_config(old(self)),
            final(self).spec_family().metric@ == old(self).spec_family().metric@.push(metric),
            old(self).spec_family().metric@.is_prefix_of(final(self).spec_family().metric@),
    {
        self.family.metric.push(metric);
        assert(old(self).spec_family().metric@ =~= self.family.metric@.subrange(
            0,
            old(self).spec_family().metric@.len() as int,
        ));
    }

    /// Encode a counter.
    pub fn encode_counter(&mut self, v: Option<IntegerValue>)
        ensures
            final(self).same_config(old(self)),
            old(self).spec_family().metric@.is_prefix_of(final(self).spec_family().metric@),
            final(self).spec_metrics() == old(self).spec_metrics().push(
                (
                    old(self).spec_labels(),
                    None,
                    Some(
                        match v {
                            Some(v) => v,
                            None => IntegerValue::Unsigned(0),
                        },
                    ),
                ),
            ),
    {
        let value = match v {
            Some(v) => v,
            None => IntegerValue::Unsigned(0),
        };
        let metric = Metric {
            label: clone_label_pairs(&self.labels),
            gauge: None,
            counter: Some(prometheus_data_model::Counter { value }),
        };
        self.push_metric(metric);
        assert(self.spec_metrics() =~= old(self).spec_metrics().push(metric_view(metric)));
    }

    /// Encode a gauge.
    pub fn encode_gauge(&mut self, v: Option<IntegerValue>)
        ensures
            final(self).same_config(old(self)),
            old(self).spec_family().metric@.is_prefix_of(final(self).spec_family().metric@),
            final(self).spec_metrics() == old(self).spec_metrics().push(
                (
                    old(self).spec_labels(),
                    Some(
                        match v {
                            Some(v) => v,
                            None => IntegerValue::Unsigned(0),
                        },
                    ),
                    None,
                ),
            ),
    {
        let value = match v {
            Some(v) => v,
            None => IntegerValue::Unsigned(0),
        };
        let metric = Metric {
            label: clone_label_pairs(&self.labels),
            gauge: Some(prometheus_data_model::Gauge { value }),
            counter: None,
        };
        self.push_metric(metric);
        assert(self.spec_metrics() =~= old(self).spec_metrics().push(metric_view(metric)));
    }

    /// Encode an info: a gauge of value 1 with the labels of the info.
    pub fn encode_info(&mut self, labels: Vec<(String, String)>)
        ensures
            final(self).same_config(old(self)),
            old(self).spec_family().metric@.is_prefix_of(final(self).spec_family().metric@),
            final(self).spec_metrics() == old(self).spec_metrics().push(
                (
                    old(self).spec_labels() + pairs_view(labels@),
                    Some(IntegerValue::Unsigned(1)),
                    None,
                ),
            ),
    {
        let mut label = clone_label_pairs(&self.labels);
        append_label_pairs(&mut label, labels);
        let metric = Metric {
            label,
            gauge: Some(prometheus_data_model::Gauge { value: IntegerValue::Unsigned(1) }),
            counter: None,
        };
        self.push_metric(metric);
        assert(self.spec_metrics() =~= old(self).spec_metrics().push(metric_view(metric)));
    }

    /// An encoder without metrics for the member of a family with the given
    /// labels.
    pub fn encode_family(&self, labels: Vec<(String, String)>) -> (r: MetricEncoder)
        ensures
            family_header(r.spec_family()) == family_header(self.spec_family()),
            r.spec_family().metric@.len() == 0,
            r.spec_labels() == self.spec_labels() + pairs_view(labels@),
    {
        let mut all = clone_label_pairs(&self.labels);
        append_label_pairs(&mut all, labels);
        let family = MetricFamily {
            name: self.family.name.clone(),
            help: self.family.help.clone(),
            metric_type: self.family.metric_type,
            metric: Vec::new(),
            unit: self.family.unit.clone(),
        };
        MetricEncoder { family, labels: all }
    }

    /// Appends the metrics of another encoder.
    pub fn absorb(&mut self, other: MetricEncoder)
        ensures
            final(self).same_config(old(self)),
            final(self).spec_family().metric@ == old(self).spec_family().metric@
                + other.spec_family().metric@,
    {
        let mut metrics = other.family.metric;
        self.family.metric.append(&mut metrics);
    }
}

/// Encode the metrics registered with the provided [`Registry`] into
/// Prometheus `MetricFamily` messages.
pub fn encode(registry: &Registry) -> (r: Result<Vec<MetricFamily>, std::fmt::Error>)
    ensures
        r matches Ok(v) ==> registry.exposes_families(v@),
        registry.encodes_all() ==> r is Ok,
{
    let mut encoder = crate::encoding::DescriptorEncoder::from_protobuf(DescriptorEncoder::new());
    registry.encode(&mut encoder)?;
    proof {
        crate::encoding::lemma_descriptor_format(encoder);
    }
    match encoder.into_protobuf() {
        Some(p) => {
            let families = p.into_families();
            proof {
                assert(families@.skip(0) =~= families@);
            }
            Ok(families)
        },
        None => Err(crate::encoding::fmt_error()),
    }
}

// ---------------------------------------------------------------------------
// Length-delimited framing.
/// `prost::EncodeError`, the error of a buffer too small for an encoding.
#[verifier::external_type_specification]
#[verifier::external_body]
pub struct ExProstEncodeError(prost::EncodeError);

/// Errors returned by [`encode_to_vec`].
#[derive(Debug)]
pub enum EncodeToVecError {
    /// A metric failed to encode into the intermediate protobuf data model.
    Fmt(std::fmt::Error),
    /// The protobuf message failed to serialize.
    Protobuf(prost::EncodeError),
}

/// The LEB128 varint encoding of `v`: seven bits per byte, least significant
/// first, the high bit set on every byte but the last.
pub open spec fn varint(v: nat) -> Seq<u8>
    decreases v,
{
    if v < 128 {
        seq![v as u8]
    } else {
        seq![((v % 128) + 128) as u8] + varint(v / 128)
    }
}

/// Messages, each preceded by its length as a varint.
pub open spec fn framed(msgs: Seq<Seq<u8>>) -> Seq<u8>
    decreases msgs.len(),
{
    if msgs.len() == 0 {
        Seq::empty()
    } else {
        framed(msgs.drop_last()) + varint(msgs.last().len()) + msgs.last()
    }
}

/// The value of the varint at the start of `b` and the number of its bytes;
/// none where `b` does not start with a complete varint.
pub open spec fn read_varint(b: Seq<u8>) -> Option<(nat, nat)>
    decreases b.len(),
{
    if b.len() == 0 {
        None
    } else if b[0] < 128 {
        Some((b[0] as nat, 1nat))
    } else {
        match read_varint(b.drop_first()) {
            Some((v, n)) => Some(((b[0] - 128) as nat + 128 * v, n + 1)),
            None => None,
        }
    }
}

/// A varint read from `b` takes at least one of its bytes.
pub proof fn lemma_read_varint_len(b: Seq<u8>)
    ensures
        read_varint(b) matches Some((v, n)) ==> 1 <= n <= b.len(),
    decreases b.len(),
{
    if b.len() > 0 && b[0] >= 128 {
        lemma_read_varint_len(b.drop_first());
    }
}

/// The messages of length-delimited bytes, read front to back: a varint
/// length, then that many bytes, and so on to the end; none where the bytes
/// are not made so.
pub open spec fn unframe(b: Seq<u8>) -> Option<Seq<Seq<u8>>>
    decreases b.len(),
{
    if b.len() == 0 {
        Some(Seq::empty())
    } else {
        match read_varint(b) {
            Some((len, n)) => if n + len <= b.len() {
                proof {
                    lemma_read_varint_len(b);
                }
                match unframe(b.skip((n + len) as int)) {
                    Some(rest) => Some(seq![b.subrange(n as int, (n + len) as int)] + rest),
                    None => None,
                }
            } else {
                None
            },
            None => None,
        }
    }
}

/// Reading a varint gives back its value and its length.
pub proof fn lemma_read_varint(v: nat, rest: Seq<u8>)
    ensures
        read_varint(varint(v) + rest) == Some((v, varint(v).len())),
    decreases v,
{
    let b = varint(v) + rest;
    if v < 128 {
        assert(b[0] == v as u8);
    } else {
        lemma_read_varint(v / 128, rest);
        assert(b.drop_first() =~= varint(v / 128) + rest);
        assert(b[0] == ((v % 128) + 128) as u8);
        assert((b[0] - 128) as nat + 128 * (v / 128) == v);
    }
}

/// Framed messages start with the first message.
proof fn lemma_framed_front(msgs: Seq<Seq<u8>>)
    requires
        msgs.len() > 0,
    ensures
        framed(msgs) == varint(msgs[0].len()) + msgs[0] + framed(msgs.drop_first()),
    decreases msgs.len(),
{
    if msgs.len() == 1 {
        assert(msgs.drop_last() =~= Seq::<Seq<u8>>::empty());
        assert(msgs.drop_first() =~= Seq::<Seq<u8>>::empty());
        assert(framed(msgs) =~= varint(msgs[0].len()) + msgs[0] + framed(msgs.drop_first()));
    } else {
        lemma_framed_front(msgs.drop_last());
        assert(msgs.drop_first().drop_last() =~= msgs.drop_last().drop_first());
        assert(msgs.drop_first().last() == msgs.last());
        assert(msgs.drop_last()[0] == msgs[0]);
        assert(framed(msgs) =~= varint(msgs[0].len()) + msgs[0] + framed(msgs.drop_first()));
    }
}

/// Reading framed messages back gives the messages.
pub proof fn lemma_unframe_framed(msgs: Seq<Seq<u8>>)
    ensures
        unframe(framed(msgs)) == Some(msgs),
    decreases msgs.len(),
{
    if msgs.len() == 0 {
        assert(framed(msgs) =~= Seq::<u8>::empty());
    } else {
        let m = msgs[0];
        let rest = msgs.drop_first();
        lemma_framed_front(msgs);
        let b = framed(msgs);
        let n = varint(m.len()).len();
        assert(b =~= varint(m.len()) + (m + framed(rest)));
        lemma_read_varint(m.len(), m + framed(rest));
        assert(b.skip((n + m.len()) as int) =~= framed(rest));
        assert(b.subrange(n as int, (n + m.len()) as int) =~= m);
        lemma_unframe_framed(rest);
        assert(seq![m] + rest =~= msgs);
    }
}

/// The bytes of each message.
pub open spec fn messages_view(msgs: Seq<Vec<u8>>) -> Seq<Seq<u8>> {
    msgs.map_values(|m: Vec<u8>| m@)
}

/// `prost::encode_length_delimiter`: appends `length` as a varint to the
/// buffer. It fails, appending nothing, only where the buffer would grow past
/// `isize::MAX` bytes; a varint takes at most ten bytes.
#[verifier::external_body]
fn encode_length_delimiter(length: usize, buf: &mut Vec<u8>) -> (r: Result<
    (),
    prost::EncodeError,
>)
    ensures
        r is Ok ==> final(buf)@ == old(buf)@ + varint(length as nat),
        r is Err ==> final(buf)@ == old(buf)@,
        old(buf)@.len() + 10 <= isize::MAX ==> r is Ok,
{
    prost::encode_length_delimiter(length, buf)
}

proof fn lemma_framed_grows(msgs: Seq<Seq<u8>>, i: int)
    requires
        0 <= i <= msgs.len(),
    ensures
        framed(msgs.take(i)).len() <= framed(msgs).len(),
    decreases msgs.len() - i,
{
    if i < msgs.len() {
        lemma_framed_grows(msgs, i + 1);
        assert(msgs.take(i + 1).drop_last() =~= msgs.take(i));
    } else {
        assert(msgs.take(i) =~= msgs);
    }
}

/// Frames encoded `MetricFamily` messages for the
/// `application/vnd.google.protobuf;proto=io.prometheus.client.MetricFamily;encoding=delimited`
/// exposition: each message preceded by its length as a varint.
pub fn encode_to_vec(messages: &Vec<Vec<u8>>) -> (r: Result<Vec<u8>, EncodeToVecError>)
    ensures
        r matches Ok(v) ==> v@ == framed(messages_view(messages@)),
        r matches Ok(v) ==> unframe(v@) == Some(messages_view(messages@)),
        framed(messages_view(messages@)).len() + 10 <= isize::MAX ==> r is Ok,
        r matches Err(e) ==> e is Protobuf,
{
    let ghost msgs = messages_view(messages@);
    let mut encoded: Vec<u8> = Vec::new();
    let mut i: usize = 0;
    proof {
        assert(msgs.take(0) =~= Seq::<Seq<u8>>::empty());
    }
    while i < messages.len()
        invariant
            i <= messages.len(),
            msgs == messages_view(messages@),
            encoded@ == framed(msgs.take(i as int)),
        decreases messages.len() - i,
    {
        let message = &messages[i];
        proof {
            lemma_framed_grows(msgs, i as int + 1);
            let t = msgs.take(i + 1);
            assert(t.drop_last() =~= msgs.take(i as int));
            assert(t.last() == message@);
        }
        match encode_length_delimiter(message.len(), &mut encoded) {
            Ok(()) => {},
            Err(e) => {
                return Err(EncodeToVecError::Protobuf(e));
            },
        }
        let ghost with_length = encoded@;
        let mut j: usize = 0;
        while j < message.len()
            invariant
                j <= message.len(),
                encoded@ == with_length + message@.take(j as int),
            decreases message.len() - j,
        {
            encoded.push(message[j]);
            proof {
                assert(message@.take(j + 1) =~= message@.take(j as int).push(message@[j as int]));
            }
            j += 1;
        }
        proof {
            assert(message@.take(message.len() as int) =~= message@);
        }
        i += 1;
    }
    proof {
        assert(msgs.take(msgs.len() as int) =~= msgs);
        lemma_unframe_framed(msgs);
    }
    Ok(encoded)
}

} // verus!
