//! Metric registry implementation.
//!
//! See [`Registry`] for details.
use std::borrow::Cow;
use vstd::prelude::*;

use crate::collector::Collector;
use crate::encoding::protobuf::prometheus_data_model::{metric_type_number, MetricFamily};
use crate::encoding::protobuf::{family_header, family_name, metrics_view, proto_type};
use crate::encoding::text::{cow_pairs_view, descriptor_text, full_name};
use crate::encoding::{
    lemma_descriptor_format, lemma_descriptor_grows_refl, lemma_descriptor_grows_trans,
    lemma_metric_format, DescriptorEncoder, EncodeMetric, LabelView, MetricEncoder, MetricView,
    SampleConfig,
};
use crate::metrics::MetricType;

verus! {

/// A metric registry.
///
/// First off one registers metrics with the registry via
/// [`Registry::register`]. Later on the [`Registry`] is passed to an encoder
/// collecting samples of each metric by iterating all metrics in the
/// [`Registry`].
pub struct Registry {
    prefix: Option<Prefix>,
    labels: Vec<(Cow<'static, str>, Cow<'static, str>)>,
    metrics: Vec<MetricEntry>,
    collectors: Vec<CollectorEntry>,
    sub_registries: Vec<Registry>,
}

/// The view of a descriptor: name, help text and unit.
pub type DescriptorView = (Seq<char>, Seq<char>, Option<Seq<char>>);

/// The view of an optional prefix.
pub open spec fn opt_prefix_view(p: Option<Prefix>) -> Option<Seq<char>> {
    match p {
        Some(p) => Some(p@),
        None => None,
    }
}

/// The prefix of a sub-registry: the parent's prefix, `_`, and the new part.
pub open spec fn child_prefix(parent: Option<Seq<char>>, prefix: Seq<char>) -> Seq<char> {
    match parent {
        Some(p) => p + seq!['_'] + prefix,
        None => prefix,
    }
}

/// The text that encoding metrics with the given descriptors writes: for
/// each in turn its descriptor lines, for the metric type it reports, and
/// then its samples.
pub open spec fn descriptors_text(
    prefix: Option<Seq<char>>,
    descs: Seq<DescriptorView>,
    types: Seq<MetricType>,
    samples: Seq<Seq<char>>,
) -> Seq<char>
    decreases descs.len(),
{
    if descs.len() == 0 {
        Seq::empty()
    } else {
        let n = descs.len() - 1;
        descriptors_text(prefix, descs.drop_last(), types.drop_last(), samples.drop_last())
            + descriptor_text(prefix, descs[n].0, descs[n].1, descs[n].2, types[n]) + samples[n]
    }
}

/// The name, help text, type number and unit of the metric family of a
/// descriptor, for the metric type it reports.
pub open spec fn family_header_of(
    prefix: Option<Seq<char>>,
    d: DescriptorView,
    t: MetricType,
) -> (Seq<char>, Seq<char>, i32, Seq<char>) {
    (
        family_name(prefix, d.0, d.2, t),
        d.1,
        metric_type_number(proto_type(t)),
        match d.2 {
            Some(u) => u,
            None => Seq::empty(),
        },
    )
}

/// The configuration of the text samples of a metric with the descriptor
/// `d`, registered with a registry of the given prefix and labels.
pub open spec fn sample_config(
    prefix: Option<Seq<char>>,
    d: DescriptorView,
    labels: Seq<LabelView>,
) -> SampleConfig {
    (full_name(prefix, d.0, d.2), labels, None)
}

impl Registry {
    /// The prefix of the metric names of this registry.
    pub closed spec fn spec_prefix(&self) -> Option<Seq<char>> {
        opt_prefix_view(self.prefix)
    }

    /// The labels added to the samples of this registry.
    pub closed spec fn spec_labels(&self) -> Seq<LabelView> {
        cow_pairs_view(self.labels@)
    }

    /// The descriptors of the registered metrics, in order.
    pub closed spec fn spec_descriptors(&self) -> Seq<DescriptorView> {
        self.metrics@.map_values(|m: MetricEntry| m.descriptor.view())
    }

    /// The metric types of the registered metrics, in order.
    pub closed spec fn spec_kinds(&self) -> Seq<MetricType> {
        self.metrics@.map_values(|m: MetricEntry| m.metric.metric_kind())
    }

    /// `s` is text that the `i`-th registered metric appends to a text
    /// encoder with the configuration `cfg`.
    pub closed spec fn metric_text_ok(&self, i: int, cfg: SampleConfig, s: Seq<char>) -> bool {
        self.metrics@[i].metric.metric_text(cfg, s)
    }

    /// `ms` are metrics that the `i`-th registered metric appends to a
    /// protobuf encoder whose metrics carry `labels`.
    pub closed spec fn metric_proto_ok(&self, i: int, labels: Seq<LabelView>, ms: Seq<MetricView>) -> bool {
        self.metrics@[i].metric.metric_proto(labels, ms)
    }

    /// Encoding each registered metric never fails.
    pub closed spec fn metrics_encode(&self) -> bool {
        forall|i: int|
            0 <= i < self.metrics@.len() ==> #[trigger] self.metrics@[i].metric.metric_encodes()
    }

    /// The number of registered collectors.
    pub closed spec fn spec_collector_count(&self) -> nat {
        self.collectors@.len()
    }

    /// `before` becomes `after` when the `k`-th registered collector
    /// encodes into it.
    pub closed spec fn collector_ok(&self, k: int, before: DescriptorEncoder, after: DescriptorEncoder) -> bool {
        self.collectors@[k].collector.collects(before, after)
    }

    /// `chain` holds the encoder that the collectors of the registry are
    /// handed, in turn: it has the prefix and labels of the registry, and the
    /// `k`-th collector makes entry `k` into entry `k + 1`.
    pub open spec fn collectors_run(&self, chain: Seq<DescriptorEncoder>) -> bool {
        &&& chain.len() == self.spec_collector_count() + 1
        &&& chain[0].spec_prefix() == self.spec_prefix()
        &&& chain[0].spec_labels() == self.spec_labels()
        &&& forall|k: int|
            #![trigger chain[k]]
            0 <= k < self.spec_collector_count() ==> chain[k].grows_to(chain[k + 1])
                && self.collector_ok(k, chain[k], chain[k + 1])
    }

    /// The sub-registries, in order.
    pub closed spec fn spec_sub_registries(&self) -> Seq<Registry> {
        self.sub_registries@
    }

    /// `samples` holds, for each registered metric in turn, text that the
    /// metric appends to an encoder with the prefix and labels of the
    /// registry.
    pub open spec fn samples_fit(&self, samples: Seq<Seq<char>>) -> bool {
        &&& samples.len() == self.spec_descriptors().len()
        &&& forall|i: int|
            0 <= i < samples.len() ==> #[trigger] self.metric_text_ok(
                i,
                sample_config(self.spec_prefix(), self.spec_descriptors()[i], self.spec_labels()),
                samples[i],
            )
    }

    /// The text of the registered metrics with the given samples: for each
    /// metric in turn its descriptor lines, for its metric type, and its
    /// samples.
    pub open spec fn metrics_text(&self, samples: Seq<Seq<char>>) -> Seq<char> {
        descriptors_text(self.spec_prefix(), self.spec_descriptors(), self.spec_kinds(), samples)
    }

    /// The text made of the metrics of the registry with the given samples,
    /// then what its collectors add to the encoder they are handed, as
    /// `chain` records it, then the texts of the sub-registries in turn.
    pub open spec fn text_from(
        &self,
        samples: Seq<Seq<char>>,
        chain: Seq<DescriptorEncoder>,
        subs: Seq<Seq<char>>,
    ) -> Seq<char> {
        self.metrics_text(samples) + chain.last().text()->0.output().skip(
            chain[0].text()->0.output().len() as int,
        ) + subs.flatten()
    }

    /// The parts of a text of the registry: samples that fit its metrics;
    /// the run of its collectors, handed an encoder in the text format with
    /// the prefix and labels of the registry that holds the text of the
    /// metrics; and a text of each sub-registry.
    pub open spec fn text_parts(
        &self,
        samples: Seq<Seq<char>>,
        chain: Seq<DescriptorEncoder>,
        subs: Seq<Seq<char>>,
    ) -> bool
        decreases self, 0int,
    {
        &&& self.samples_fit(samples)
        &&& self.collectors_run(chain)
        &&& chain[0].text() matches Some(t0) && t0.output() == self.metrics_text(samples)
        &&& subs.len() == self.spec_sub_registries().len()
        &&& forall|k: int|
            #![trigger self.spec_sub_registries()[k]]
            0 <= k < subs.len() ==> self.spec_sub_registries()[k].exposes_text(subs[k])
    }

    /// `t` is a text that encoding the registry in the text format appends:
    /// its metrics, then the output of its collectors, then the text of each
    /// sub-registry in turn.
    pub open spec fn exposes_text(&self, t: Seq<char>) -> bool
        decreases self, 1int,
    {
        exists|samples: Seq<Seq<char>>, chain: Seq<DescriptorEncoder>, subs: Seq<Seq<char>>|
            #![trigger self.text_from(samples, chain, subs)]
            self.text_parts(samples, chain, subs) && t == self.text_from(samples, chain, subs)
    }

    /// `fams` holds, for each registered metric in turn, its family: the
    /// header of its descriptor, for its metric type, and metrics that the
    /// metric appends to an encoder with the labels of the registry.
    pub open spec fn families_fit(&self, fams: Seq<MetricFamily>) -> bool {
        &&& fams.len() == self.spec_descriptors().len()
        &&& forall|i: int|
            0 <= i < fams.len() ==> #[trigger] family_header(fams[i]) == family_header_of(
                self.spec_prefix(),
                self.spec_descriptors()[i],
                self.spec_kinds()[i],
            ) && self.metric_proto_ok(i, self.spec_labels(), metrics_view(fams[i].metric@))
    }

    /// The families of the registered metrics, then those that its
    /// collectors add to the encoder they are handed, as `chain` records it,
    /// then the families of the sub-registries in turn.
    pub open spec fn families_from(
        &self,
        own: Seq<MetricFamily>,
        chain: Seq<DescriptorEncoder>,
        subs: Seq<Seq<MetricFamily>>,
    ) -> Seq<MetricFamily> {
        own + chain.last().proto()->0.spec_families().skip(
            chain[0].proto()->0.spec_families().len() as int,
        ) + subs.flatten()
    }

    /// The parts of the families of the registry: families that fit its
    /// metrics; the run of its collectors, handed an encoder in the protobuf
    /// format with the prefix and labels of the registry that holds those
    /// families; and the families of each sub-registry.
    pub open spec fn family_parts(
        &self,
        own: Seq<MetricFamily>,
        chain: Seq<DescriptorEncoder>,
        subs: Seq<Seq<MetricFamily>>,
    ) -> bool
        decreases self, 0int,
    {
        &&& self.families_fit(own)
        &&& self.collectors_run(chain)
        &&& chain[0].proto() matches Some(p0) && p0.spec_families() == own
        &&& subs.len() == self.spec_sub_registries().len()
        &&& forall|k: int|
            #![trigger self.spec_sub_registries()[k]]
            0 <= k < subs.len() ==> self.spec_sub_registries()[k].exposes_families(subs[k])
    }

    /// `fams` are families that encoding the registry in the protobuf format
    /// appends: those of its metrics, then those of its collectors, then
    /// those of each sub-registry in turn.
    pub open spec fn exposes_families(&self, fams: Seq<MetricFamily>) -> bool
        decreases self, 1int,
    {
        exists|own: Seq<MetricFamily>, chain: Seq<DescriptorEncoder>, subs: Seq<Seq<MetricFamily>>|
            #![trigger self.families_from(own, chain, subs)]
            self.family_parts(own, chain, subs) && fams == self.families_from(own, chain, subs)
    }

    /// Encoding the registry cannot fail: each of its metrics encodes, it has
    /// no collector, and the same holds of each sub-registry.
    pub open spec fn encodes_all(&self) -> bool
        decreases self,
    {
        &&& self.metrics_encode()
        &&& self.spec_collector_count() == 0
        &&& forall|k: int|
            #![trigger self.spec_sub_registries()[k]]
            0 <= k < self.spec_sub_registries().len() ==> self.spec_sub_registries()[k].encodes_all()
    }

    /// A registry with the given prefix and labels, without metrics,
    /// collectors or sub-registries.
    pub open spec fn is_empty_with(&self, prefix: Option<Seq<char>>, labels: Seq<LabelView>) -> bool {
        &&& self.spec_prefix() == prefix
        &&& self.spec_labels() =~= labels
        &&& self.spec_descriptors().len() == 0
        &&& self.spec_kinds().len() == 0
        &&& self.metrics_encode()
        &&& self.spec_collector_count() == 0
        &&& self.spec_sub_registries().len() == 0
    }

    /// `self` has the collectors of `before`, unchanged.
    pub open spec fn keeps_collectors(&self, before: Registry) -> bool {
        &&& self.spec_collector_count() == before.spec_collector_count()
        &&& forall|k: int, b: DescriptorEncoder, a: DescriptorEncoder|
            #[trigger] self.collector_ok(k, b, a) == before.collector_ok(k, b, a)
    }

    /// `self` has the registered metrics of `before`, unchanged.
    pub open spec fn keeps_metrics(&self, before: Registry) -> bool {
        &&& self.spec_descriptors() == before.spec_descriptors()
        &&& self.spec_kinds() == before.spec_kinds()
        &&& self.metrics_encode() == before.metrics_encode()
        &&& forall|i: int, cfg: SampleConfig, s: Seq<char>|
            #[trigger] self.metric_text_ok(i, cfg, s) == before.metric_text_ok(i, cfg, s)
        &&& forall|i: int, labels: Seq<LabelView>, ms: Seq<MetricView>|
            #[trigger] self.metric_proto_ok(i, labels, ms) == before.metric_proto_ok(i, labels, ms)
    }

    /// `self` has the registered metrics of `before`, unchanged, followed by
    /// `metric`.
    pub open spec fn adds_metric<M: Metric>(&self, before: Registry, metric: M) -> bool {
        let n = before.spec_kinds().len() as int;
        &&& self.spec_kinds() == before.spec_kinds().push(metric.metric_kind())
        &&& self.metrics_encode() == (before.metrics_encode() && metric.metric_encodes())
        &&& forall|i: int, cfg: SampleConfig, s: Seq<char>|
            0 <= i < n ==> #[trigger] self.metric_text_ok(i, cfg, s) == before.metric_text_ok(
                i,
                cfg,
                s,
            )
        &&& forall|i: int, labels: Seq<LabelView>, ms: Seq<MetricView>|
            0 <= i < n ==> #[trigger] self.metric_proto_ok(i, labels, ms)
                == before.metric_proto_ok(i, labels, ms)
        &&& forall|cfg: SampleConfig, s: Seq<char>|
            #[trigger] self.metric_text_ok(n, cfg, s) == metric.metric_text(cfg, s)
        &&& forall|labels: Seq<LabelView>, ms: Seq<MetricView>|
            #[trigger] self.metric_proto_ok(n, labels, ms) == metric.metric_proto(labels, ms)
    }

    /// Creates a new default [`Registry`] with the given prefix.
    pub fn with_prefix(prefix: &str) -> (r: Self)
        ensures
            r.is_empty_with(Some(prefix@), Seq::empty()),
    {
        Registry {
            prefix: Some(Prefix(String::from_str(prefix))),
            labels: Vec::new(),
            metrics: Vec::new(),
            collectors: Vec::new(),
            sub_registries: Vec::new(),
        }
    }

    /// Creates a new default [`Registry`] with the given labels.
    pub fn with_labels(labels: Vec<(Cow<'static, str>, Cow<'static, str>)>) -> (r: Self)
        ensures
            r.is_empty_with(None, cow_pairs_view(labels@)),
    {
        Registry {
            prefix: None,
            labels,
            metrics: Vec::new(),
            collectors: Vec::new(),
            sub_registries: Vec::new(),
        }
    }

    /// Creates a new default [`Registry`] with the given prefix and labels.
    pub fn with_prefix_and_labels(
        prefix: &str,
        labels: Vec<(Cow<'static, str>, Cow<'static, str>)>,
    ) -> (r: Self)
        ensures
            r.is_empty_with(Some(prefix@), cow_pairs_view(labels@)),
    {
        Registry {
            prefix: Some(Prefix(String::from_str(prefix))),
            labels,
            metrics: Vec::new(),
            collectors: Vec::new(),
            sub_registries: Vec::new(),
        }
    }

    /// Register a metric with the [`Registry`].
    ///
    /// Note: In the Open Metrics text exposition format some metric types have
    /// a special suffix, e.g. the counter metric with `_total`. These suffixes
    /// are inferred through the metric type and must not be appended to the
    /// metric name manually by the user.
    ///
    /// Note: A full stop punctuation mark (`.`) is automatically added to the
    /// passed help text.
    pub fn register<M: Metric>(&mut self, name: &str, help: &str, metric: M)
        ensures
            final(self).spec_descriptors() == old(self).spec_descriptors().push(
                (name@, help@ + seq!['.'], None),
            ),
            final(self).adds_metric(*old(self), metric),
            final(self).spec_prefix() == old(self).spec_prefix(),
            final(self).spec_labels() == old(self).spec_labels(),
            final(self).keeps_collectors(*old(self)),
            final(self).spec_sub_registries() == old(self).spec_sub_registries(),
    {
        self.priv_register(name, help, metric, None)
    }

    /// Register a metric with the [`Registry`] specifying the metric's unit.
    ///
    /// Note: In the Open Metrics text exposition format units are appended to
    /// the metric name. This is done automatically. Users must not append the
    /// unit to the name manually.
    pub fn register_with_unit<M: Metric>(&mut self, name: &str, help: &str, unit: Unit, metric: M)
        ensures
            final(self).spec_descriptors() == old(self).spec_descriptors().push(
                (name@, help@ + seq!['.'], Some(unit_name(unit))),
            ),
            final(self).adds_metric(*old(self), metric),
            final(self).spec_prefix() == old(self).spec_prefix(),
            final(self).spec_labels() == old(self).spec_labels(),
            final(self).keeps_collectors(*old(self)),
            final(self).spec_sub_registries() == old(self).spec_sub_registries(),
    {
        self.priv_register(name, help, metric, Some(unit))
    }

    fn priv_register<M: Metric>(&mut self, name: &str, help: &str, metric: M, unit: Option<Unit>)
        ensures
            final(self).spec_descriptors() == old(self).spec_descriptors().push(
                (name@, help@ + seq!['.'], opt_unit_name(unit)),
            ),
            final(self).adds_metric(*old(self), metric),
            final(self).spec_prefix() == old(self).spec_prefix(),
            final(self).spec_labels() == old(self).spec_labels(),
            final(self).keeps_collectors(*old(self)),
            final(self).spec_sub_registries() == old(self).spec_sub_registries(),
    {
        let descriptor = Descriptor::new(name, help, unit);
        let entry = MetricEntry::new(descriptor, metric);
        let ghost before = self.metrics@;
        self.metrics.push(entry);
        assert(self.spec_descriptors() =~= before.map_values(|m: MetricEntry| m.descriptor.view()).push(
            (name@, help@ + seq!['.'], opt_unit_name(unit)),
        ));
        assert(self.spec_kinds() =~= before.map_values(|m: MetricEntry| m.metric.metric_kind()).push(
            metric.metric_kind(),
        ));
        assert(self.metrics_encode() == (old(self).metrics_encode() && metric.metric_encodes())) by {
            if old(self).metrics_encode() && metric.metric_encodes() {
                assert forall|i: int| 0 <= i < self.metrics@.len() implies #[trigger] self.metrics@[
                    i
                ].metric.metric_encodes() by {
                    if i < before.len() {
                        assert(self.metrics@[i] == before[i]);
                        assert(before[i].metric.metric_encodes());
                    } else {
                        assert(self.metrics@[i] == entry);
                    }
                }
            }
            if self.metrics_encode() {
                assert forall|i: int| 0 <= i < before.len() implies #[trigger] before[
                    i
                ].metric.metric_encodes() by {
                    assert(self.metrics@[i] == before[i]);
                }
                assert(self.metrics@[before.len() as int].metric.metric_encodes());
            }
        }
        assert forall|i: int, cfg: SampleConfig, s: Seq<char>|
            0 <= i < before.len() implies #[trigger] self.metric_text_ok(i, cfg, s)
            == old(self).metric_text_ok(i, cfg, s) by {
            assert(self.metrics@[i] == before[i]);
        }
        assert forall|i: int, labels: Seq<LabelView>, ms: Seq<MetricView>|
            0 <= i < before.len() implies #[trigger] self.metric_proto_ok(i, labels, ms)
            == old(self).metric_proto_ok(i, labels, ms) by {
            assert(self.metrics@[i] == before[i]);
        }
        assert forall|cfg: SampleConfig, s: Seq<char>|
            #[trigger] self.metric_text_ok(before.len() as int, cfg, s) == metric.metric_text(
                cfg,
                s,
            ) by {
            assert(self.metrics@[before.len() as int] == entry);
        }
        assert forall|labels: Seq<LabelView>, ms: Seq<MetricView>|
            #[trigger] self.metric_proto_ok(before.len() as int, labels, ms) == metric.metric_proto(
                labels,
                ms,
            ) by {
            assert(self.metrics@[before.len() as int] == entry);
        }
    }

    /// Register a [`Collector`].
    pub fn register_collector(&mut self, collector: Box<dyn Collector>)
        ensures
            final(self).spec_collector_count() == old(self).spec_collector_count() + 1,
            forall|k: int, b: DescriptorEncoder, a: DescriptorEncoder|
                0 <= k < old(self).spec_collector_count() ==> #[trigger] final(self).collector_ok(
                    k,
                    b,
                    a,
                ) == old(self).collector_ok(k, b, a),
            forall|b: DescriptorEncoder, a: DescriptorEncoder|
                #[trigger] final(self).collector_ok(old(self).spec_collector_count() as int, b, a)
                    == collector.collects(b, a),
            final(self).keeps_metrics(*old(self)),
            final(self).spec_prefix() == old(self).spec_prefix(),
            final(self).spec_labels() == old(self).spec_labels(),
            final(self).spec_sub_registries() == old(self).spec_sub_registries(),
    {
        let held = (collector,);
        let ghost h = held;
        let entry = CollectorEntry::new(held);
        let ghost before = self.collectors@;
        self.collectors.push(entry);
        proof {
            assert forall|b: DescriptorEncoder, a: DescriptorEncoder|
                #[trigger] self.collector_ok(before.len() as int, b, a) == collector.collects(
                    b,
                    a,
                ) by {
                assert(self.collectors@[before.len() as int] == entry);
                assert(entry.collector.collects(b, a) == h.collects(b, a));
            }
            assert forall|k: int, b: DescriptorEncoder, a: DescriptorEncoder|
                0 <= k < before.len() implies #[trigger] self.collector_ok(k, b, a)
                == old(self).collector_ok(k, b, a) by {
                assert(self.collectors@[k] == before[k]);
            }
        }
    }

    /// Create a sub-registry to register metrics with a common prefix: the
    /// prefix of this registry, `_`, and `prefix`. The sub-registry keeps the
    /// labels of this registry.
    pub fn sub_registry_with_prefix(&mut self, prefix: &str) -> (r: &mut Self)
        ensures
            r.is_empty_with(
                Some(child_prefix(old(self).spec_prefix(), prefix@)),
                old(self).spec_labels(),
            ),
            final(self).spec_sub_registries() == old(self).spec_sub_registries().push(*final(r)),
            final(self).keeps_metrics(*old(self)),
            final(self).spec_prefix() == old(self).spec_prefix(),
            final(self).spec_labels() == old(self).spec_labels(),
            final(self).keeps_collectors(*old(self)),
    {
        let mut full = match &self.prefix {
            Some(p) => {
                let mut s = p.0.clone();
                s.append("_");
                s
            },
            None => String::new(),
        };
        full.append(prefix);
        proof {
            reveal_strlit("_");
            assert(full@ =~= child_prefix(self.spec_prefix(), prefix@));
        }
        let sub_registry = Registry {
            prefix: Some(Prefix(full)),
            labels: clone_cow_pairs(&self.labels),
            metrics: Vec::new(),
            collectors: Vec::new(),
            sub_registries: Vec::new(),
        };
        self.priv_sub_registry(sub_registry)
    }

    /// Like [`Registry::sub_registry_with_prefix`] but with a label instead:
    /// the sub-registry has the prefix of this registry and its labels
    /// followed by `label`.
    pub fn sub_registry_with_label(&mut self, label: (Cow<'static, str>, Cow<'static, str>)) -> (r:
        &mut Self)
        ensures
            r.is_empty_with(old(self).spec_prefix(), old(self).spec_labels().push((label.0@, label.1@))),
            final(self).spec_sub_registries() == old(self).spec_sub_registries().push(*final(r)),
            final(self).keeps_metrics(*old(self)),
            final(self).spec_prefix() == old(self).spec_prefix(),
            final(self).spec_labels() == old(self).spec_labels(),
            final(self).keeps_collectors(*old(self)),
    {
        let mut labels: Vec<(Cow<'static, str>, Cow<'static, str>)> = Vec::new();
        labels.push(label);
        proof {
            assert(cow_pairs_view(labels@) =~= seq![(label.0@, label.1@)]);
        }
        let r = self.sub_registry_with_labels(labels);
        proof {
            assert(old(self).spec_labels() + seq![(label.0@, label.1@)] =~= old(self).spec_labels().push(
                (label.0@, label.1@),
            ));
        }
        r
    }

    /// Like [`Registry::sub_registry_with_prefix`] but with multiple labels
    /// instead: the sub-registry has the prefix of this registry and its
    /// labels followed by `labels`.
    pub fn sub_registry_with_labels(
        &mut self,
        labels: Vec<(Cow<'static, str>, Cow<'static, str>)>,
    ) -> (r: &mut Self)
        ensures
            r.is_empty_with(old(self).spec_prefix(), old(self).spec_labels() + cow_pairs_view(labels@)),
            final(self).spec_sub_registries() == old(self).spec_sub_registries().push(*final(r)),
            final(self).keeps_metrics(*old(self)),
            final(self).spec_prefix() == old(self).spec_prefix(),
            final(self).spec_labels() == old(self).spec_labels(),
            final(self).keeps_collectors(*old(self)),
    {
        let mut new_labels = clone_cow_pairs(&self.labels);
        let mut labels = labels;
        let ghost a = new_labels@;
        let ghost b = labels@;
        new_labels.append(&mut labels);
        assert(cow_pairs_view(new_labels@) =~= cow_pairs_view(a) + cow_pairs_view(b));
        let sub_registry = Registry {
            prefix: match &self.prefix {
                Some(p) => Some(p.clone()),
                None => None,
            },
            labels: new_labels,
            metrics: Vec::new(),
            collectors: Vec::new(),
            sub_registries: Vec::new(),
        };
        self.priv_sub_registry(sub_registry)
    }

    #[verifier::spinoff_prover]
    fn priv_sub_registry(&mut self, sub_registry: Self) -> (r: &mut Self)
        ensures
            *r == sub_registry,
            final(self).spec_sub_registries() == old(self).spec_sub_registries().push(*final(r)),
            final(self).keeps_metrics(*old(self)),
            final(self).spec_prefix() == old(self).spec_prefix(),
            final(self).spec_labels() == old(self).spec_labels(),
            final(self).keeps_collectors(*old(self)),
    {
        self.sub_registries.push(sub_registry);
        let last = self.sub_registries.len() - 1;
        &mut self.sub_registries[last]
    }

    /// Encodes the registered metrics into `scoped`, each with its descriptor.
    fn encode_metrics(&self, scoped: &mut DescriptorEncoder) -> (r: Result<(), std::fmt::Error>)
        requires
            old(scoped).text() matches Some(t) ==> t.spec_prefix() == self.spec_prefix()
                && t.spec_labels() == self.spec_labels(),
            old(scoped).proto() matches Some(t) ==> t.spec_prefix() == self.spec_prefix()
                && t.spec_labels() == self.spec_labels(),
        ensures
            r is Ok ==> old(scoped).grows_to(*final(scoped)),
            r is Ok ==> (old(scoped).text() matches Some(a) ==> final(scoped).text() matches Some(b)
                && exists|samples: Seq<Seq<char>>|
                #![trigger self.metrics_text(samples)]
                self.samples_fit(samples) && b.output() == a.output() + self.metrics_text(
                    samples,
                )),
            r is Ok ==> (old(scoped).proto() matches Some(a) ==> final(scoped).proto() matches Some(
                b,
            ) && exists|own: Seq<MetricFamily>|
                #[trigger] self.families_fit(own) && b.spec_families() == a.spec_families() + own),
            self.metrics_encode() ==> r is Ok,
    {
        let ghost a = *scoped;
        let ghost descs = self.spec_descriptors();
        let ghost kinds = self.spec_kinds();
        let ghost p = self.spec_prefix();
        let ghost labels = self.spec_labels();
        let ghost mut samples: Seq<Seq<char>> = Seq::empty();
        let ghost mut own: Seq<MetricFamily> = Seq::empty();
        proof {
            lemma_descriptor_grows_refl(a);
            lemma_descriptor_format(a);
            assert(descs.take(0) =~= Seq::<DescriptorView>::empty());
            if a.text() is Some {
                assert(a.text()->0.output() =~= a.text()->0.output() + Seq::<char>::empty());
            }
            if a.proto() is Some {
                let f = a.proto()->0.spec_families();
                assert(f =~= f + own);
            }
        }
        let mut i: usize = 0;
        while i < self.metrics.len()
            invariant
                i <= self.metrics.len(),
                descs == self.spec_descriptors(),
                kinds == self.spec_kinds(),
                p == self.spec_prefix(),
                labels == self.spec_labels(),
                a.text() matches Some(t) ==> t.spec_prefix() == p && t.spec_labels() == labels,
                a.proto() matches Some(t) ==> t.spec_prefix() == p && t.spec_labels() == labels,
                a.grows_to(*scoped),
                a.text() is Some ==> samples.len() == i && forall|j: int|
                    0 <= j < i ==> #[trigger] self.metric_text_ok(
                        j,
                        sample_config(p, descs[j], labels),
                        samples[j],
                    ),
                a.proto() is Some ==> own.len() == i,
                a.proto() is Some ==> forall|j: int|
                    0 <= j < i ==> #[trigger] family_header(own[j]) == family_header_of(
                        p,
                        descs[j],
                        kinds[j],
                    ),
                a.proto() is Some ==> forall|j: int|
                    0 <= j < i ==> #[trigger] self.metric_proto_ok(j, labels, metrics_view(own[j].metric@)),
                a.text() matches Some(ta) ==> (scoped.text() matches Some(t) && t.output()
                    == ta.output() + descriptors_text(
                    p,
                    descs.take(i as int),
                    kinds.take(i as int),
                    samples,
                )),
                a.proto() matches Some(pa) ==> (scoped.proto() matches Some(pp)
                    && pp.spec_families() == pa.spec_families() + own),
            decreases self.metrics.len() - i,
        {
            let descriptor = &self.metrics[i].descriptor;
            let metric = &self.metrics[i].metric;
            let metric_type = metric.type_of_metric();
            let ghost s0 = *scoped;
            let mut metric_encoder = scoped.encode_descriptor(
                descriptor.name.as_str(),
                descriptor.help.as_str(),
                descriptor.unit.as_ref(),
                metric_type,
            )?;
            let ghost m0 = metric_encoder;
            proof {
                lemma_metric_format(m0);
            }
            metric.encode_metric(&mut metric_encoder)?;
            let ghost m1 = metric_encoder;
            proof {
                lemma_descriptor_format(a);
                lemma_descriptor_format(s0);
                lemma_metric_format(m0);
                lemma_metric_format(m1);
            }
            scoped.absorb(metric_encoder)?;
            proof {
                lemma_descriptor_grows_trans(a, s0, *scoped);
                let d = descs[i as int];
                assert(d == descriptor@);
                assert(metric_type == kinds[i as int]);
                assert(descs.take(i + 1).drop_last() =~= descs.take(i as int));
                assert(kinds.take(i + 1).drop_last() =~= kinds.take(i as int));
                if a.text() is Some {
                    let o0 = m0.text()->0.output();
                    let o1 = m1.text()->0.output();
                    let sample = o1.skip(o0.len() as int);
                    assert(o1 =~= o0 + sample);
                    assert(m0.text()->0.config() == sample_config(p, d, labels));
                    assert(self.metric_text_ok(i as int, sample_config(p, d, labels), sample));
                    let prev = samples;
                    samples = samples.push(sample);
                    assert(samples.drop_last() =~= prev);
                    assert forall|j: int| 0 <= j < i + 1 implies #[trigger] self.metric_text_ok(
                        j,
                        sample_config(p, descs[j], labels),
                        samples[j],
                    ) by {
                        if j < i {
                            assert(samples[j] == prev[j]);
                        }
                    }
                    let ta = a.text()->0;
                    assert(scoped.text()->0.output() =~= ta.output() + descriptors_text(
                        p,
                        descs.take(i + 1),
                        kinds.take(i + 1),
                        samples,
                    ));
                } else {
                    let f = m1.proto()->0.spec_family();
                    let prev = own;
                    own = own.push(f);
                    assert(m1.proto()->0.spec_metrics().skip(0) =~= metrics_view(f.metric@));
                    assert(self.metric_proto_ok(i as int, labels, metrics_view(f.metric@)));
                    assert(family_header(f) == family_header_of(p, d, kinds[i as int]));
                    assert forall|j: int| 0 <= j < i + 1 implies #[trigger] family_header(own[j])
                        == family_header_of(p, descs[j], kinds[j]) by {
                        if j < i {
                            assert(own[j] == prev[j]);
                        }
                    }
                    assert forall|j: int| 0 <= j < i + 1 implies #[trigger] self.metric_proto_ok(
                        j,
                        labels,
                        metrics_view(own[j].metric@),
                    ) by {
                        if j < i {
                            assert(own[j] == prev[j]);
                        }
                    }
                    assert(scoped.proto()->0.spec_families() =~= a.proto()->0.spec_families()
                        + own);
                    assert(own.len() == i + 1);
                }
            }
            i += 1;
        }
        proof {
            assert(descs.take(descs.len() as int) =~= descs);
            assert(kinds.take(kinds.len() as int) =~= kinds);
            if a.text() is Some {
                assert(self.samples_fit(samples));
                assert(scoped.text()->0.output() == a.text()->0.output() + self.metrics_text(
                    samples,
                ));
            }
            if a.proto() is Some {
                assert(self.families_fit(own));
            }
        }
        Ok(())
    }

    /// Encodes the metrics, collectors and sub-registries of the registry, in
    /// this order, each with the prefix and labels of its registry, and stops
    /// at the first error.
    pub fn encode(&self, encoder: &mut DescriptorEncoder) -> (r: Result<(), std::fmt::Error>)
        ensures
            r is Ok ==> old(encoder).grows_to(*final(encoder)),
            r is Ok ==> (old(encoder).text() matches Some(a) ==> final(encoder).text() matches Some(
                b,
            ) && self.exposes_text(b.output().skip(a.output().len() as int))),
            r is Ok ==> (old(encoder).proto() matches Some(a) ==> final(encoder).proto() matches Some(
                b,
            ) && self.exposes_families(b.spec_families().skip(a.spec_families().len() as int))),
            self.encodes_all() ==> r is Ok,
        decreases self,
    {
        let ghost start = *encoder;
        let mut scoped = encoder.with_prefix_and_labels(self.prefix.as_ref(), &self.labels);
        let ghost scoped_start = scoped;
        proof {
            lemma_descriptor_format(start);
            lemma_descriptor_format(scoped);
        }
        self.encode_metrics(&mut scoped)?;
        let ghost after_metrics = scoped;
        let ghost mut chain: Seq<DescriptorEncoder> = seq![scoped];
        proof {
            lemma_descriptor_grows_refl(scoped);
        }
        let mut j: usize = 0;
        while j < self.collectors.len()
            invariant
                j <= self.collectors.len(),
                after_metrics.grows_to(scoped),
                chain.len() == j + 1,
                chain[0] == after_metrics,
                chain[j as int] == scoped,
                forall|m: int|
                    #![trigger chain[m]]
                    0 <= m < j ==> chain[m].grows_to(chain[m + 1]) && self.collector_ok(
                        m,
                        chain[m],
                        chain[m + 1],
                    ),
            decreases self.collectors.len() - j,
        {
            let ghost before = scoped;
            self.collectors[j].collector.encode(&mut scoped)?;
            proof {
                lemma_descriptor_grows_trans(after_metrics, before, scoped);
                assert(self.collector_ok(j as int, before, scoped));
                let prev = chain;
                chain = chain.push(scoped);
                assert forall|m: int| #![trigger chain[m]] 0 <= m < j + 1 implies chain[m].grows_to(
                    chain[m + 1],
                ) && self.collector_ok(m, chain[m], chain[m + 1]) by {
                    if m < j {
                        assert(chain[m] == prev[m]);
                        assert(chain[m + 1] == prev[m + 1]);
                        assert(prev[m].grows_to(prev[m + 1]));
                    }
                }
            }
            j += 1;
        }
        let ghost scoped_end = scoped;
        proof {
            lemma_descriptor_grows_trans(scoped_start, after_metrics, scoped_end);
            lemma_descriptor_format(scoped_end);
        }
        encoder.absorb_descriptors(scoped)?;
        let ghost after_absorb = *encoder;
        let ghost mut sub_texts: Seq<Seq<char>> = Seq::empty();
        let ghost mut sub_fams: Seq<Seq<MetricFamily>> = Seq::empty();
        proof {
            lemma_descriptor_grows_refl(after_absorb);
            lemma_descriptor_format(after_absorb);
            if after_absorb.text() is Some {
                let o = after_absorb.text()->0.output();
                assert(o + sub_texts.flatten() =~= o);
            } else {
                let f = after_absorb.proto()->0.spec_families();
                assert(f + sub_fams.flatten() =~= f);
            }
            if self.encodes_all() {
                assert forall|m: int| 0 <= m < self.sub_registries@.len() implies #[trigger] self.sub_registries@[
                    m
                ].encodes_all() by {
                    assert(self.spec_sub_registries()[m] == self.sub_registries@[m]);
                    assert(self.spec_sub_registries()[m].encodes_all());
                }
            }
        }
        let mut k: usize = 0;
        while k < self.sub_registries.len()
            invariant
                k <= self.sub_registries.len(),
                start.grows_to(after_absorb),
                after_absorb.grows_to(*encoder),
                after_absorb.text() matches Some(t0) ==> (encoder.text() matches Some(t)
                    && sub_texts.len() == k && t.output() == t0.output() + sub_texts.flatten() && forall|m: int|
                    0 <= m < k ==> #[trigger] self.sub_registries@[m].exposes_text(sub_texts[m])),
                after_absorb.proto() matches Some(f0) ==> (encoder.proto() matches Some(f)
                    && sub_fams.len() == k && f.spec_families() == f0.spec_families() + sub_fams.flatten() && forall|m: int|
                    0 <= m < k ==> #[trigger] self.sub_registries@[m].exposes_families(sub_fams[m])),
                self.encodes_all() ==> forall|m: int|
                    0 <= m < self.sub_registries@.len() ==> #[trigger] self.sub_registries@[m].encodes_all(),
            decreases self.sub_registries.len() - k,
        {
            let ghost before = *encoder;
            proof {
                assert(decreases_to!(self => self.sub_registries@[k as int]));
            }
            self.sub_registries[k].encode(encoder)?;
            proof {
                lemma_descriptor_grows_trans(after_absorb, before, *encoder);
                lemma_descriptor_format(before);
                lemma_descriptor_format(after_absorb);
                if after_absorb.text() is Some {
                    let ob = before.text()->0.output();
                    let oe = encoder.text()->0.output();
                    let t = oe.skip(ob.len() as int);
                    assert(oe =~= ob + t);
                    let prev = sub_texts;
                    prev.lemma_flatten_push(t);
                    sub_texts = sub_texts.push(t);
                    assert(oe =~= after_absorb.text()->0.output() + sub_texts.flatten());
                    assert forall|m: int| 0 <= m < k + 1 implies #[trigger] self.sub_registries@[
                        m
                    ].exposes_text(sub_texts[m]) by {
                        if m < k {
                            assert(sub_texts[m] == prev[m]);
                        }
                    }
                } else {
                    let fb = before.proto()->0.spec_families();
                    let fe = encoder.proto()->0.spec_families();
                    let t = fe.skip(fb.len() as int);
                    assert(fe =~= fb + t);
                    let prev = sub_fams;
                    prev.lemma_flatten_push(t);
                    sub_fams = sub_fams.push(t);
                    assert(fe =~= after_absorb.proto()->0.spec_families() + sub_fams.flatten());
                    assert forall|m: int| 0 <= m < k + 1 implies #[trigger] self.sub_registries@[
                        m
                    ].exposes_families(sub_fams[m]) by {
                        if m < k {
                            assert(sub_fams[m] == prev[m]);
                        }
                    }
                }
            }
            k += 1;
        }
        proof {
            lemma_descriptor_grows_trans(start, after_absorb, *encoder);
            assert(self.spec_sub_registries() == self.sub_registries@);
            if start.text() is Some {
                let ta = start.text()->0.output();
                let samples = choose|samples: Seq<Seq<char>>|
                    #![trigger self.metrics_text(samples)]
                    self.samples_fit(samples) && after_metrics.text()->0.output()
                        == scoped_start.text()->0.output() + self.metrics_text(samples);
                let om = after_metrics.text()->0.output();
                assert(om =~= self.metrics_text(samples));
                let os = scoped_end.text()->0.output();
                let coll = os.skip(om.len() as int);
                assert(os =~= om + coll);
                let oe = encoder.text()->0.output();
                let t = oe.skip(ta.len() as int);
                assert(t =~= self.metrics_text(samples) + coll + sub_texts.flatten());
                assert(chain.last() == scoped_end);
                assert(self.collectors_run(chain));
                assert forall|m: int|
                    #![trigger self.spec_sub_registries()[m]]
                    0 <= m < sub_texts.len() implies self.spec_sub_registries()[m].exposes_text(
                    sub_texts[m],
                ) by {
                    assert(self.sub_registries@[m].exposes_text(sub_texts[m]));
                }
                assert(self.text_parts(samples, chain, sub_texts));
                assert(t == self.text_from(samples, chain, sub_texts));
            } else {
                let fa = start.proto()->0.spec_families();
                let own = choose|own: Seq<MetricFamily>|
                    #[trigger] self.families_fit(own) && after_metrics.proto()->0.spec_families()
                        == scoped_start.proto()->0.spec_families() + own;
                let fm = after_metrics.proto()->0.spec_families();
                assert(fm =~= own);
                let fs = scoped_end.proto()->0.spec_families();
                let coll = fs.skip(fm.len() as int);
                assert(fs =~= fm + coll);
                let fe = encoder.proto()->0.spec_families();
                let t = fe.skip(fa.len() as int);
                assert(t =~= own + coll + sub_fams.flatten());
                assert(chain.last() == scoped_end);
                assert(self.collectors_run(chain));
                assert forall|m: int|
                    #![trigger self.spec_sub_registries()[m]]
                    0 <= m < sub_fams.len() implies self.spec_sub_registries()[m].exposes_families(
                    sub_fams[m],
                ) by {
                    assert(self.sub_registries@[m].exposes_families(sub_fams[m]));
                }
                assert(self.family_parts(own, chain, sub_fams));
                assert(t == self.families_from(own, chain, sub_fams));
            }
        }
        Ok(())
    }
}

impl Default for Registry {
    fn default() -> (r: Self)
        ensures
            r.is_empty_with(None, Seq::empty()),
    {
        Registry {
            prefix: None,
            labels: Vec::new(),
            metrics: Vec::new(),
            collectors: Vec::new(),
            sub_registries: Vec::new(),
        }
    }
}

/// Copies labels with borrowed or owned text.
fn clone_cow_pairs(labels: &Vec<(Cow<'static, str>, Cow<'static, str>)>) -> (r: Vec<
    (Cow<'static, str>, Cow<'static, str>),
>)
    ensures
        cow_pairs_view(r@) == cow_pairs_view(labels@),
{
    let mut r: Vec<(Cow<'static, str>, Cow<'static, str>)> = Vec::new();
    let mut i: usize = 0;
    while i < labels.len()
        invariant
            i <= labels.len(),
            cow_pairs_view(r@) == cow_pairs_view(labels@).take(i as int),
        decreases labels.len() - i,
    {
        let k: Cow<'static, str> = match &labels[i].0 {
            Cow::Borrowed(b) => Cow::Borrowed(*b),
            Cow::Owned(o) => Cow::Owned(o.clone()),
        };
        let v: Cow<'static, str> = match &labels[i].1 {
            Cow::Borrowed(b) => Cow::Borrowed(*b),
            Cow::Owned(o) => Cow::Owned(o.clone()),
        };
        let ghost old_r = r@;
        r.push((k, v));
        assert(cow_pairs_view(r@) =~= cow_pairs_view(old_r).push((labels@[i as int].0@, labels@[i as int].1@)));
        assert(cow_pairs_view(labels@).take(i + 1) =~= cow_pairs_view(labels@).take(i as int).push(
            (labels@[i as int].0@, labels@[i as int].1@),
        ));
        i += 1;
    }
    assert(cow_pairs_view(labels@).take(labels@.len() as int) =~= cow_pairs_view(labels@));
    r
}

/// A registered metric with its descriptor.
struct MetricEntry {
    descriptor: Descriptor,
    metric: Box<dyn Metric>,
}

impl MetricEntry {
    fn new<M: Metric>(descriptor: Descriptor, metric: M) -> (r: Self)
        ensures
            r.descriptor == descriptor,
            r.metric.metric_kind() == metric.metric_kind(),
            r.metric.metric_encodes() == metric.metric_encodes(),
            forall|cfg: SampleConfig, s: Seq<char>|
                #[trigger] r.metric.metric_text(cfg, s) == metric.metric_text(cfg, s),
            forall|labels: Seq<LabelView>, ms: Seq<MetricView>|
                #[trigger] r.metric.metric_proto(labels, ms) == metric.metric_proto(labels, ms),
    {
        let boxed: Box<dyn Metric> = Box::new(metric);
        MetricEntry { descriptor, metric: boxed }
    }
}

impl CollectorEntry {
    fn new(held: (Box<dyn Collector>,)) -> (r: Self)
        ensures
            forall|b: DescriptorEncoder, a: DescriptorEncoder|
                #[trigger] r.collector.collects(b, a) == held.collects(b, a),
    {
        CollectorEntry { collector: Box::new(held) }
    }
}

/// A registered collector, held as it was handed over.
impl Collector for (Box<dyn Collector>,) {
    open spec fn collects(&self, before: DescriptorEncoder, after: DescriptorEncoder) -> bool {
        self.0.collects(before, after)
    }

    fn encode(&self, encoder: &mut DescriptorEncoder) -> (r: Result<(), std::fmt::Error>) {
        self.0.encode(encoder)
    }
}

/// A registered collector.
struct CollectorEntry {
    collector: Box<dyn Collector>,
}



/// OpenMetrics metric descriptor.
#[derive(Debug)]
struct Descriptor {
    name: String,
    help: String,
    unit: Option<Unit>,
}

impl View for Descriptor {
    type V = DescriptorView;

    closed spec fn view(&self) -> DescriptorView {
        (self.name@, self.help@, opt_unit_name(self.unit))
    }
}

impl Descriptor {
    /// Create new [`Descriptor`]; a full stop is added to the help text.
    fn new(name: &str, help: &str, unit: Option<Unit>) -> (r: Self)
        ensures
            r@ == (name@, help@ + seq!['.'], opt_unit_name(unit)),
    {
        let mut help_text = String::from_str(help);
        help_text.append(".");
        proof {
            reveal_strlit(".");
        }
        Descriptor { name: String::from_str(name), help: help_text, unit }
    }
}

/// Super trait representing an abstract Prometheus metric.
///
/// Every type that can encode itself is a [`Metric`].
pub trait Metric: Send + Sync + 'static {
    /// Encoding the samples never fails.
    spec fn metric_encodes(&self) -> bool;

    /// The OpenMetrics metric type of the instance.
    spec fn metric_kind(&self) -> MetricType;

    /// The samples `s` that encoding the metric appends to a text encoder
    /// with the configuration `cfg`.
    spec fn metric_text(&self, cfg: SampleConfig, s: Seq<char>) -> bool;

    /// The metrics `ms` that encoding the metric appends to a protobuf
    /// encoder whose metrics carry `labels`.
    spec fn metric_proto(&self, labels: Seq<LabelView>, ms: Seq<MetricView>) -> bool;

    /// Encode the samples of the metric into the given encoder.
    fn encode_metric(&self, encoder: &mut MetricEncoder) -> (r: Result<(), std::fmt::Error>)
        ensures
            r is Ok ==> old(encoder).grows_to(*final(encoder)),
            r is Ok ==> (old(encoder).text() matches Some(a) ==> final(encoder).text() matches Some(
                b,
            ) && self.metric_text(a.config(), b.output().skip(a.output().len() as int))),
            r is Ok ==> (old(encoder).proto() matches Some(a) ==> final(encoder).proto() matches Some(
                b,
            ) && self.metric_proto(
                a.spec_labels(),
                b.spec_metrics().skip(a.spec_metrics().len() as int),
            )),
            self.metric_encodes() && old(encoder).labels_ok() ==> r is Ok,
    ;

    /// The OpenMetrics metric type of the instance.
    fn type_of_metric(&self) -> (r: MetricType)
        ensures
            r == self.metric_kind(),
    ;
}

impl<T> Metric for T where T: EncodeMetric + Send + Sync + 'static {
    open spec fn metric_encodes(&self) -> bool {
        self.encode_succeeds()
    }

    open spec fn metric_kind(&self) -> MetricType {
        self.spec_metric_type()
    }

    open spec fn metric_text(&self, cfg: SampleConfig, s: Seq<char>) -> bool {
        self.text_samples(cfg, s)
    }

    open spec fn metric_proto(&self, labels: Seq<LabelView>, ms: Seq<MetricView>) -> bool {
        self.proto_samples(labels, ms)
    }

    fn encode_metric(&self, encoder: &mut MetricEncoder) -> (r: Result<(), std::fmt::Error>) {
        self.encode(encoder)
    }

    fn type_of_metric(&self) -> (r: MetricType) {
        self.metric_type()
    }
}

/// Metric prefix.
#[derive(Debug)]
pub struct Prefix(pub(crate) String);

impl Clone for Prefix {
    fn clone(&self) -> (r: Self)
        ensures
            r@ == self@,
    {
        Prefix(self.0.clone())
    }
}

impl View for Prefix {
    type V = Seq<char>;

    closed spec fn view(&self) -> Seq<char> {
        self.0@
    }
}

impl Prefix {
    /// A prefix with the given text.
    pub fn new(s: String) -> (r: Self)
        ensures
            r@ == s@,
    {
        Prefix(s)
    }

    /// The prefix as a string slice.
    pub fn as_str(&self) -> (r: &str)
        ensures
            r@ == self@,
    {
        self.0.as_str()
    }
}

/// Metric units recommended by Open Metrics.
///
/// See [`Unit::Other`] to specify alternative units.
#[derive(Debug)]
pub enum Unit {
    Amperes,
    Bytes,
    Celsius,
    Grams,
    Joules,
    Meters,
    Ratios,
    Seconds,
    Volts,
    Other(String),
}

/// The text of a unit.
pub open spec fn unit_name(unit: Unit) -> Seq<char> {
    match unit {
        Unit::Amperes => "amperes"@,
        Unit::Bytes => "bytes"@,
        Unit::Celsius => "celsius"@,
        Unit::Grams => "grams"@,
        Unit::Joules => "joules"@,
        Unit::Meters => "meters"@,
        Unit::Ratios => "ratios"@,
        Unit::Seconds => "seconds"@,
        Unit::Volts => "volts"@,
        Unit::Other(other) => other@,
    }
}

/// The text of an optional unit.
pub open spec fn opt_unit_name(unit: Option<Unit>) -> Option<Seq<char>> {
    match unit {
        Some(u) => Some(unit_name(u)),
        None => None,
    }
}

impl Clone for Unit {
    fn clone(&self) -> (r: Self)
        ensures
            unit_name(r) == unit_name(*self),
    {
        match self {
            Unit::Amperes => Unit::Amperes,
            Unit::Bytes => Unit::Bytes,
            Unit::Celsius => Unit::Celsius,
            Unit::Grams => Unit::Grams,
            Unit::Joules => Unit::Joules,
            Unit::Meters => Unit::Meters,
            Unit::Ratios => Unit::Ratios,
            Unit::Seconds => Unit::Seconds,
            Unit::Volts => Unit::Volts,
            Unit::Other(other) => Unit::Other(other.clone()),
        }
    }
}

impl Unit {
    /// Returns the given Unit's str representation.
    pub fn as_str(&self) -> (r: &str)
        ensures
            r@ == unit_name(*self),
    {
        match self {
            Unit::Amperes => "amperes",
            Unit::Bytes => "bytes",
            Unit::Celsius => "celsius",
            Unit::Grams => "grams",
            Unit::Joules => "joules",
            Unit::Meters => "meters",
            Unit::Ratios => "ratios",
            Unit::Seconds => "seconds",
            Unit::Volts => "volts",
            Unit::Other(other) => other.as_str(),
        }
    }
}






} // verus!
