//! Module implementing an Open Metrics info metric.
//!
//! See [`Info`] for details.
use vstd::prelude::*;

use crate::encoding::text::labels_block;
use crate::encoding::{
    EncodeLabelSet, EncodeMetric, IntegerValue, LabelView, MetricEncoder, MetricView, SampleConfig,
};
use crate::metrics::{MetricType, TypedMetric};

verus! {

/// Open Metrics [`Info`] metric "to expose textual information which SHOULD
/// NOT change during process lifetime".
pub struct Info<S>(pub(crate) S);

impl<S> Info<S> {
    /// The label set of the info metric.
    pub closed spec fn label_set(&self) -> S {
        self.0
    }

    /// An info metric exposing the given label set.
    pub fn new(label_set: S) -> (r: Self)
        ensures
            r.label_set() == label_set,
    {
        Info(label_set)
    }
}

impl<S> TypedMetric for Info<S> {
    const TYPE: MetricType = MetricType::Info;
}

impl<S: EncodeLabelSet> EncodeMetric for Info<S> {
    /// Encoding succeeds where the label set encodes.
    open spec fn encode_succeeds(&self) -> bool {
        self.label_set().label_set_encodes()
    }

    open spec fn spec_metric_type(&self) -> MetricType {
        MetricType::Info
    }

    /// One `_info` sample with the label set and the value 1.
    open spec fn text_samples(&self, cfg: SampleConfig, s: Seq<char>) -> bool {
        s == cfg.0 + seq!['_'] + "info"@ + labels_block(
            cfg.1,
            Some(self.label_set().label_pairs()),
            cfg.2,
        ) + seq![' ', '1', '\n']
    }

    /// One gauge metric of value 1 with the encoder's labels followed by the
    /// label set.
    open spec fn proto_samples(&self, labels: Seq<LabelView>, ms: Seq<MetricView>) -> bool {
        ms == seq![
            (
                labels + self.label_set().label_pairs(),
                Some(IntegerValue::Unsigned(1)),
                None::<IntegerValue>,
            ),
        ]
    }

    /// Encodes one `_info` sample with the label set and the value 1.
    fn encode(&self, encoder: &mut MetricEncoder) -> (r: Result<(), std::fmt::Error>) {
        let r = encoder.encode_info(&self.0);
        proof {
            if r is Ok {
                if old(encoder).text() is Some {
                    let a = old(encoder).text()->0;
                    let b = encoder.text()->0;
                    assert(b.output().skip(a.output().len() as int) =~= a.sample_name() + seq!['_']
                        + "info"@ + a.sample_labels(Some(self.label_set().label_pairs())) + seq![
                        ' ',
                        '1',
                        '\n',
                    ]);
                }
                if old(encoder).proto() is Some {
                    let a = old(encoder).proto()->0;
                    let b = encoder.proto()->0;
                    assert(b.spec_metrics().skip(a.spec_metrics().len() as int) =~= seq![
                        (
                            a.spec_labels() + self.label_set().label_pairs(),
                            Some(IntegerValue::Unsigned(1)),
                            None::<IntegerValue>,
                        ),
                    ]);
                }
            }
        }
        r
    }

    fn metric_type(&self) -> (r: MetricType)
        ensures
            r == MetricType::Info,
    {
        MetricType::Info
    }
}

} // verus!
