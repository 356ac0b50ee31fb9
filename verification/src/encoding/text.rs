//! Open Metrics text format implementation.
//!
//! A metric is exposed as a descriptor (`# HELP`, `# TYPE` and, with a unit,
//! `# UNIT` lines) followed by its samples; the exposition ends with the
//! `# EOF` marker.
use std::borrow::Cow;
use vstd::prelude::*;

use crate::encoding::{integer_text, pairs_view, IntegerValue, LabelView, SampleConfig};
use crate::metrics::{metric_type_name, MetricType};
use crate::registry::{opt_unit_name, Prefix, Registry, Unit};
use crate::util::format_int;

verus! {

// ---------------------------------------------------------------------------
// The text of an exposition.
/// `prefix_` when there is a prefix.
pub open spec fn prefix_part(prefix: Option<Seq<char>>) -> Seq<char> {
    match prefix {
        Some(p) => p + seq!['_'],
        None => Seq::empty(),
    }
}

/// `_unit` when there is a unit.
pub open spec fn unit_part(unit: Option<Seq<char>>) -> Seq<char> {
    match unit {
        Some(u) => seq!['_'] + u,
        None => Seq::empty(),
    }
}

/// The exposed name of a metric: prefix, name and unit joined by `_`.
pub open spec fn full_name(prefix: Option<Seq<char>>, name: Seq<char>, unit: Option<Seq<char>>) -> Seq<
    char,
> {
    prefix_part(prefix) + name + unit_part(unit)
}

/// The descriptor lines of a metric.
pub open spec fn descriptor_text(
    prefix: Option<Seq<char>>,
    name: Seq<char>,
    help: Seq<char>,
    unit: Option<Seq<char>>,
    metric_type: MetricType,
) -> Seq<char> {
    let n = full_name(prefix, name, unit);
    "# HELP "@ + n + " "@ + help + "\n"@ + "# TYPE "@ + n + " "@ + metric_type_name(metric_type)
        + "\n"@ + match unit {
        Some(u) => "# UNIT "@ + n + " "@ + u + "\n"@,
        None => Seq::empty(),
    }
}

/// One label: `name="value"`.
pub open spec fn label_text(l: LabelView) -> Seq<char> {
    l.0 + seq!['=', '"'] + l.1 + seq!['"']
}

/// Labels separated by commas.
pub open spec fn labels_text(s: Seq<LabelView>) -> Seq<char>
    decreases s.len(),
{
    if s.len() == 0 {
        Seq::empty()
    } else if s.len() == 1 {
        label_text(s[0])
    } else {
        labels_text(s.drop_last()) + seq![','] + label_text(s.last())
    }
}

/// Two non-empty runs of labels are written one after the other with one
/// comma between them: a comma precedes every label but the first.
pub proof fn lemma_labels_text_concat(s: Seq<LabelView>, t: Seq<LabelView>)
    requires
        s.len() > 0,
        t.len() > 0,
    ensures
        labels_text(s + t) == labels_text(s) + seq![','] + labels_text(t),
    decreases t.len(),
{
    if t.len() == 1 {
        assert((s + t).drop_last() =~= s);
        assert(labels_text(t) == label_text(t[0]));
    } else {
        lemma_labels_text_concat(s, t.drop_last());
        assert((s + t).drop_last() =~= s + t.drop_last());
        assert((s + t).last() == t.last());
        assert(labels_text(s + t) =~= labels_text(s) + seq![','] + labels_text(t));
    }
}

/// The label block of a sample: constant labels, the labels of the sample
/// itself and the labels of its family member, in braces; nothing when there
/// are none of the three.
pub open spec fn labels_block(
    consts: Seq<LabelView>,
    additional: Option<Seq<LabelView>>,
    family: Option<Seq<LabelView>>,
) -> Seq<char> {
    if consts.len() == 0 && additional is None && family is None {
        Seq::empty()
    } else {
        seq!['{'] + labels_text(consts) + match additional {
            Some(a) => (if consts.len() > 0 {
                seq![',']
            } else {
                Seq::empty()
            }) + labels_text(a),
            None => Seq::empty(),
        } + match family {
            Some(f) => (if (consts.len() > 0 || additional is Some) && f.len() > 0 {
                seq![',']
            } else {
                Seq::empty()
            }) + labels_text(f),
            None => Seq::empty(),
        } + seq!['}']
    }
}

/// The labels of an optional list: the list, or none.
pub open spec fn opt_labels(l: Option<Seq<LabelView>>) -> Seq<LabelView> {
    match l {
        Some(l) => l,
        None => Seq::empty(),
    }
}

/// A label block lists all the labels of its sample, the constant labels,
/// then the sample's own labels, then the labels of the family member, as
/// one comma-separated list in braces: between two labels there is exactly
/// one comma, whichever groups they come from. (Where the sample's own
/// labels are present they are not empty.)
pub proof fn lemma_labels_block_lists_all(
    consts: Seq<LabelView>,
    additional: Option<Seq<LabelView>>,
    family: Option<Seq<LabelView>>,
)
    requires
        additional matches Some(a) ==> a.len() > 0,
    ensures
        labels_block(consts, additional, family) == if consts.len() == 0 && additional is None
            && family is None {
            Seq::<char>::empty()
        } else {
            seq!['{'] + labels_text(consts + opt_labels(additional) + opt_labels(family)) + seq![
                '}',
            ]
        },
{
    let a = opt_labels(additional);
    let f = opt_labels(family);
    if consts.len() == 0 && additional is None && family is None {
    } else {
        let ca = consts + a;
        let ta = if consts.len() > 0 && a.len() > 0 {
            lemma_labels_text_concat(consts, a);
            labels_text(consts) + seq![','] + labels_text(a)
        } else if consts.len() == 0 {
            assert(ca =~= a);
            labels_text(a)
        } else {
            assert(ca =~= consts);
            labels_text(consts)
        };
        assert(labels_text(ca) == ta);
        if ca.len() > 0 && f.len() > 0 {
            lemma_labels_text_concat(ca, f);
        } else if ca.len() == 0 {
            assert(ca + f =~= f);
        } else {
            assert(ca + f =~= ca);
        }
        if additional is None {
            assert(ca =~= consts);
        }
        assert(labels_block(consts, additional, family) =~= seq!['{'] + labels_text(ca + f)
            + seq!['}']);
    }
}

/// ` value` when a value was encoded.
pub open spec fn value_part(v: Option<IntegerValue>) -> Seq<char> {
    match v {
        Some(v) => seq![' '] + integer_text(v),
        None => Seq::empty(),
    }
}

/// The view of label pairs with borrowed or owned text.
pub open spec fn cow_pairs_view(v: Seq<(Cow<'static, str>, Cow<'static, str>)>) -> Seq<LabelView> {
    v.map_values(|p: (Cow<'static, str>, Cow<'static, str>)| (p.0@, p.1@))
}

/// Appends one label.
fn push_label(out: &mut String, key: &String, value: &String)
    ensures
        final(out)@ == old(out)@ + label_text((key@, value@)),
{
    out.append(key.as_str());
    out.append("=\"");
    out.append(value.as_str());
    out.append("\"");
    proof {
        reveal_strlit("=\"");
        reveal_strlit("\"");
        assert(final(out)@ =~= old(out)@ + label_text((key@, value@)));
    }
}

/// Appends labels separated by commas.
fn push_labels(out: &mut String, labels: &Vec<(String, String)>)
    ensures
        final(out)@ == old(out)@ + labels_text(pairs_view(labels@)),
{
    let ghost start = out@;
    let ghost all = pairs_view(labels@);
    let mut i: usize = 0;
    while i < labels.len()
        invariant
            i <= labels.len(),
            all == pairs_view(labels@),
            out@ == start + labels_text(all.take(i as int)),
        decreases labels.len() - i,
    {
        if i > 0 {
            out.append(",");
            proof {
                reveal_strlit(",");
            }
        }
        push_label(out, &labels[i].0, &labels[i].1);
        proof {
            let t = all.take(i + 1);
            assert(t.drop_last() =~= all.take(i as int));
            assert(t.last() == (labels@[i as int].0@, labels@[i as int].1@));
            if i == 0 {
                assert(all.take(0) =~= Seq::<LabelView>::empty());
            }
            assert(out@ =~= start + labels_text(t));
        }
        i += 1;
    }
    assert(all.take(labels@.len() as int) =~= all);
}

/// Copies label pairs with borrowed or owned text into owned pairs.
pub(crate) fn owned_pairs(labels: &Vec<(Cow<'static, str>, Cow<'static, str>)>) -> (r: Vec<
    (String, String),
>)
    ensures
        pairs_view(r@) == cow_pairs_view(labels@),
{
    let mut r: Vec<(String, String)> = Vec::new();
    let mut i: usize = 0;
    while i < labels.len()
        invariant
            i <= labels.len(),
            pairs_view(r@) == cow_pairs_view(labels@).take(i as int),
        decreases labels.len() - i,
    {
        let k = match &labels[i].0 {
            Cow::Borrowed(b) => String::from_str(b),
            Cow::Owned(o) => o.clone(),
        };
        let v = match &labels[i].1 {
            Cow::Borrowed(b) => String::from_str(b),
            Cow::Owned(o) => o.clone(),
        };
        let ghost old_r = r@;
        r.push((k, v));
        assert(pairs_view(r@) =~= pairs_view(old_r).push((labels@[i as int].0@, labels@[i as int].1@)));
        assert(cow_pairs_view(labels@).take(i + 1) =~= cow_pairs_view(labels@).take(i as int).push(
            (labels@[i as int].0@, labels@[i as int].1@),
        ));
        i += 1;
    }
    assert(cow_pairs_view(labels@).take(labels@.len() as int) =~= cow_pairs_view(labels@));
    r
}

/// Copies an optional prefix.
fn clone_prefix(prefix: Option<&Prefix>) -> (r: Option<String>)
    ensures
        match r {
            Some(s) => prefix matches Some(p) && s@ == p@,
            None => prefix is None,
        },
{
    match prefix {
        Some(p) => Some(String::from_str(p.as_str())),
        None => None,
    }
}

/// The view of an optional owned string.
pub open spec fn opt_view(s: Option<String>) -> Option<Seq<char>> {
    match s {
        Some(s) => Some(s@),
        None => None,
    }
}

// ---------------------------------------------------------------------------
// Encoders.
/// Encoder of metric descriptors into the text format.
#[derive(Debug)]
pub struct DescriptorEncoder {
    out: String,
    prefix: Option<String>,
    labels: Vec<(String, String)>,
}

impl DescriptorEncoder {
    /// The text encoded so far.
    pub closed spec fn output(&self) -> Seq<char> {
        self.out@
    }

    /// The prefix of the metric names.
    pub closed spec fn spec_prefix(&self) -> Option<Seq<char>> {
        opt_view(self.prefix)
    }

    /// The labels added to every sample.
    pub closed spec fn spec_labels(&self) -> Seq<LabelView> {
        pairs_view(self.labels@)
    }

    /// An encoder without output, prefix or labels.
    pub fn new() -> (r: Self)
        ensures
            r.output() == Seq::<char>::empty(),
            r.spec_prefix() is None,
            r.spec_labels() == Seq::<LabelView>::empty(),
    {
        DescriptorEncoder { out: String::new(), prefix: None, labels: Vec::new() }
    }

    /// An encoder without output, for the given prefix and labels.
    pub fn with_prefix_and_labels(
        &self,
        prefix: Option<&Prefix>,
        labels: &Vec<(Cow<'static, str>, Cow<'static, str>)>,
    ) -> (r: Self)
        ensures
            r.output() == Seq::<char>::empty(),
            r.spec_prefix() == match prefix {
                Some(p) => Some(p@),
                None => None::<Seq<char>>,
            },
            r.spec_labels() == cow_pairs_view(labels@),
    {
        DescriptorEncoder {
            out: String::new(),
            prefix: clone_prefix(prefix),
            labels: owned_pairs(labels),
        }
    }

    /// Encode a descriptor; the returned encoder holds the descriptor lines
    /// and takes the samples of the metric.
    pub fn encode_descriptor(
        &self,
        name: &str,
        help: &str,
        unit: Option<&Unit>,
        metric_type: MetricType,
    ) -> (r: Result<MetricEncoder, std::fmt::Error>)
        ensures
            r matches Ok(m) && m.output() == descriptor_text(
                self.spec_prefix(),
                name@,
                help@,
                match unit {
                    Some(u) => opt_unit_name(Some(*u)),
                    None => None,
                },
                metric_type,
            ) && m.spec_prefix() == self.spec_prefix() && m.spec_name() == name@ && m.spec_unit()
                == match unit {
                Some(u) => opt_unit_name(Some(*u)),
                None => None,
            } && m.spec_const_labels() == self.spec_labels() && m.spec_family_labels() is None
                && !m.spec_family_labels_failed(),
    {
        let unit_str: Option<String> = match unit {
            Some(u) => Some(String::from_str(u.as_str())),
            None => None,
        };
        let prefix = match &self.prefix {
            Some(p) => Some(p.clone()),
            None => None,
        };
        let mut m = MetricEncoder {
            out: String::new(),
            prefix,
            name: String::from_str(name),
            unit: unit_str,
            const_labels: crate::encoding::clone_pairs(&self.labels),
            family_labels: None,
            family_labels_failed: false,
        };
        m.out.append("# HELP ");
        m.write_prefix_name_unit();
        m.out.append(" ");
        m.out.append(help);
        m.out.append("\n");
        m.out.append("# TYPE ");
        m.write_prefix_name_unit();
        m.out.append(" ");
        m.out.append(metric_type.as_str());
        m.out.append("\n");
        match &m.unit {
            Some(u) => {
                let u = u.clone();
                m.out.append("# UNIT ");
                m.write_prefix_name_unit();
                m.out.append(" ");
                m.out.append(u.as_str());
                m.out.append("\n");
            },
            None => {},
        }
        proof {
            assert(m.out@ =~= descriptor_text(
                self.spec_prefix(),
                name@,
                help@,
                match unit {
                    Some(u) => opt_unit_name(Some(*u)),
                    None => None,
                },
                metric_type,
            ));
        }
        Ok(m)
    }

    /// Appends the output of a metric encoder obtained from
    /// [`Self::encode_descriptor`].
    pub fn absorb(&mut self, metric: MetricEncoder)
        ensures
            final(self).output() == old(self).output() + metric.output(),
            final(self).spec_prefix() == old(self).spec_prefix(),
            final(self).spec_labels() == old(self).spec_labels(),
    {
        self.out.append(metric.out.as_str());
    }

    /// Appends the output of another descriptor encoder.
    pub fn absorb_descriptors(&mut self, other: DescriptorEncoder)
        ensures
            final(self).output() == old(self).output() + other.output(),
            final(self).spec_prefix() == old(self).spec_prefix(),
            final(self).spec_labels() == old(self).spec_labels(),
    {
        self.out.append(other.out.as_str());
    }

    /// The text encoded.
    pub fn into_output(self) -> (r: String)
        ensures
            r@ == self.output(),
    {
        self.out
    }
}

/// Encoder of the samples of one metric into the text format.
#[derive(Debug)]
pub struct MetricEncoder {
    out: String,
    prefix: Option<String>,
    name: String,
    unit: Option<String>,
    const_labels: Vec<(String, String)>,
    family_labels: Option<Vec<(String, String)>>,
    family_labels_failed: bool,
}

impl MetricEncoder {
    /// The text encoded so far.
    pub closed spec fn output(&self) -> Seq<char> {
        self.out@
    }

    /// The prefix of the metric name.
    pub closed spec fn spec_prefix(&self) -> Option<Seq<char>> {
        opt_view(self.prefix)
    }

    /// The metric name.
    pub closed spec fn spec_name(&self) -> Seq<char> {
        self.name@
    }

    /// The unit of the metric.
    pub closed spec fn spec_unit(&self) -> Option<Seq<char>> {
        opt_view(self.unit)
    }

    /// The labels added to every sample.
    pub closed spec fn spec_const_labels(&self) -> Seq<LabelView> {
        pairs_view(self.const_labels@)
    }

    /// The labels of the family member that is encoded, if any.
    pub closed spec fn spec_family_labels(&self) -> Option<Seq<LabelView>> {
        match self.family_labels {
            Some(f) => Some(pairs_view(f@)),
            None => None,
        }
    }

    /// The label set of the family member could not be encoded.
    pub closed spec fn spec_family_labels_failed(&self) -> bool {
        self.family_labels_failed
    }

    /// Whether the label set of the family member could not be encoded.
    pub fn family_labels_failed(&self) -> (r: bool)
        ensures
            r == self.spec_family_labels_failed(),
    {
        self.family_labels_failed
    }

    /// The exposed name of the metric.
    pub open spec fn sample_name(&self) -> Seq<char> {
        full_name(self.spec_prefix(), self.spec_name(), self.spec_unit())
    }

    /// The exposed name, the labels of every sample and the labels of the
    /// family member.
    pub open spec fn config(&self) -> SampleConfig {
        (self.sample_name(), self.spec_const_labels(), self.spec_family_labels())
    }

    /// The label block of a sample with the given labels of its own.
    pub open spec fn sample_labels(&self, additional: Option<Seq<LabelView>>) -> Seq<char> {
        labels_block(self.spec_const_labels(), additional, self.spec_family_labels())
    }

    /// Both encoders have the same prefix, name, unit and labels.
    pub open spec fn same_config(&self, other: &Self) -> bool {
        &&& self.spec_prefix() == other.spec_prefix()
        &&& self.spec_name() == other.spec_name()
        &&& self.spec_unit() == other.spec_unit()
        &&& self.spec_const_labels() == other.spec_const_labels()
        &&& self.spec_family_labels() == other.spec_family_labels()
        &&& self.spec_family_labels_failed() == other.spec_family_labels_failed()
    }

    fn write_prefix_name_unit(&mut self)
        ensures
            final(self).same_config(old(self)),
            final(self).output() == old(self).output() + old(self).sample_name(),
    {
        match &self.prefix {
            Some(p) => {
                let p = p.clone();
                self.out.append(p.as_str());
                self.out.append("_");
            },
            None => {},
        }
        let name = self.name.clone();
        self.out.append(name.as_str());
        match &self.unit {
            Some(u) => {
                let u = u.clone();
                self.out.append("_");
                self.out.append(u.as_str());
            },
            None => {},
        }
        proof {
            reveal_strlit("_");
            assert(self.out@ =~= old(self).output() + old(self).sample_name());
        }
    }

    fn write_suffix(&mut self, suffix: &str)
        ensures
            final(self).same_config(old(self)),
            final(self).output() == old(self).output() + seq!['_'] + suffix@,
    {
        self.out.append("_");
        self.out.append(suffix);
        proof {
            reveal_strlit("_");
        }
    }

    fn newline(&mut self)
        ensures
            final(self).same_config(old(self)),
            final(self).output() == old(self).output() + seq!['\n'],
    {
        self.out.append("\n");
        proof {
            reveal_strlit("\n");
        }
    }

    fn write_value(&mut self, v: Option<IntegerValue>)
        ensures
            final(self).same_config(old(self)),
            final(self).output() == old(self).output() + value_part(v),
    {
        match v {
            Some(v) => {
                self.out.append(" ");
                let s = crate::encoding::format_integer(v);
                self.out.append(s.as_str());
                proof {
                    reveal_strlit(" ");
                    assert(self.out@ =~= old(self).output() + value_part(Some(v)));
                }
            },
            None => {},
        }
    }

    fn encode_labels(&mut self, additional: Option<&Vec<(String, String)>>)
        ensures
            final(self).same_config(old(self)),
            final(self).output() == old(self).output() + old(self).sample_labels(
                match additional {
                    Some(a) => Some(pairs_view(a@)),
                    None => None,
                },
            ),
    {
        let ghost add = match additional {
            Some(a) => Some(pairs_view(a@)),
            None => None::<Seq<LabelView>>,
        };
        if self.const_labels.len() == 0 && additional.is_none() && self.family_labels.is_none() {
            return ;
        }
        let ghost start = self.out@;
        self.out.append("{");
        push_labels(&mut self.out, &self.const_labels);
        let ghost after_consts = self.out@;
        match additional {
            Some(a) => {
                if self.const_labels.len() > 0 {
                    self.out.append(",");
                }
                push_labels(&mut self.out, a);
            },
            None => {},
        }
        let ghost after_additional = self.out@;
        match &self.family_labels {
            Some(f) => {
                let f = crate::encoding::clone_pairs(f);
                if (self.const_labels.len() > 0 || additional.is_some()) && f.len() > 0 {
                    self.out.append(",");
                }
                push_labels(&mut self.out, &f);
            },
            None => {},
        }
        self.out.append("}");
        proof {
            reveal_strlit("{");
            reveal_strlit("}");
            reveal_strlit(",");
            assert(self.out@ =~= start + old(self).sample_labels(add));
        }
    }

    /// Encode a counter sample: `name_total{labels} value`.
    pub fn encode_counter(&mut self, v: Option<IntegerValue>)
        ensures
            final(self).same_config(old(self)),
            old(self).output().is_prefix_of(final(self).output()),
            final(self).output() == old(self).output() + old(self).sample_name() + seq!['_']
                + "total"@ + old(self).sample_labels(None) + value_part(v) + seq!['\n'],
    {
        self.write_prefix_name_unit();
        self.write_suffix("total");
        self.encode_labels(None);
        self.write_value(v);
        self.newline();
        assert(self.out@ =~= old(self).output() + (old(self).sample_name() + seq!['_'] + "total"@
            + old(self).sample_labels(None) + value_part(v) + seq!['\n']));
        proof {
            crate::encoding::lemma_prefix_of_concat(old(self).output(), old(self).sample_name()
                + seq!['_'] + "total"@ + old(self).sample_labels(None) + value_part(v) + seq!['\n']);
        }
    }

    /// Encode a gauge sample: `name{labels} value`.
    pub fn encode_gauge(&mut self, v: Option<IntegerValue>)
        ensures
            final(self).same_config(old(self)),
            old(self).output().is_prefix_of(final(self).output()),
            final(self).output() == old(self).output() + old(self).sample_name()
                + old(self).sample_labels(None) + value_part(v) + seq!['\n'],
    {
        self.write_prefix_name_unit();
        self.encode_labels(None);
        self.write_value(v);
        self.newline();
        assert(self.out@ =~= old(self).output() + (old(self).sample_name() + old(self).sample_labels(
            None,
        ) + value_part(v) + seq!['\n']));
        proof {
            crate::encoding::lemma_prefix_of_concat(old(self).output(), old(self).sample_name()
                + old(self).sample_labels(None) + value_part(v) + seq!['\n']);
        }
    }

    /// Encode an info sample: `name_info{labels} 1`.
    pub fn encode_info(&mut self, labels: &Vec<(String, String)>)
        ensures
            final(self).same_config(old(self)),
            old(self).output().is_prefix_of(final(self).output()),
            final(self).output() == old(self).output() + old(self).sample_name() + seq!['_']
                + "info"@ + old(self).sample_labels(Some(pairs_view(labels@))) + seq![' ', '1', '\n'],
    {
        self.write_prefix_name_unit();
        self.write_suffix("info");
        self.encode_labels(Some(labels));
        self.out.append(" ");
        let one = format_int(1);
        self.out.append(one.as_str());
        self.newline();
        proof {
            reveal_strlit(" ");
            reveal_with_fuel(crate::util::dec_digits, 2);
            assert(one@ =~= seq!['1']);
            assert(self.out@ =~= old(self).output() + (old(self).sample_name() + seq!['_']
                + "info"@ + old(self).sample_labels(Some(pairs_view(labels@))) + seq![
                ' ',
                '1',
                '\n',
            ]));
            crate::encoding::lemma_prefix_of_concat(old(self).output(), old(self).sample_name()
                + seq!['_'] + "info"@ + old(self).sample_labels(Some(pairs_view(labels@))) + seq![
                ' ',
                '1',
                '\n',
            ]);
        }
    }

    /// An encoder without output for the member of a family with the given
    /// labels.
    pub fn encode_family(&self, labels: Vec<(String, String)>) -> (r: MetricEncoder)
        ensures
            r.output() == Seq::<char>::empty(),
            r.spec_prefix() == self.spec_prefix(),
            r.spec_name() == self.spec_name(),
            r.spec_unit() == self.spec_unit(),
            r.spec_const_labels() == self.spec_const_labels(),
            r.spec_family_labels() == Some(pairs_view(labels@)),
            !r.spec_family_labels_failed(),
    {
        MetricEncoder {
            out: String::new(),
            prefix: match &self.prefix {
                Some(p) => Some(p.clone()),
                None => None,
            },
            name: self.name.clone(),
            unit: match &self.unit {
                Some(u) => Some(u.clone()),
                None => None,
            },
            const_labels: crate::encoding::clone_pairs(&self.const_labels),
            family_labels: Some(labels),
            family_labels_failed: false,
        }
    }

    /// An encoder without output for the member of a family whose label set
    /// could not be encoded: encoding a sample into it fails.
    pub fn encode_family_failed(&self) -> (r: MetricEncoder)
        ensures
            r.output() == Seq::<char>::empty(),
            r.spec_prefix() == self.spec_prefix(),
            r.spec_name() == self.spec_name(),
            r.spec_unit() == self.spec_unit(),
            r.spec_const_labels() == self.spec_const_labels(),
            r.spec_family_labels() == Some(Seq::<LabelView>::empty()),
            r.spec_family_labels_failed(),
    {
        let r = MetricEncoder {
            out: String::new(),
            prefix: match &self.prefix {
                Some(p) => Some(p.clone()),
                None => None,
            },
            name: self.name.clone(),
            unit: match &self.unit {
                Some(u) => Some(u.clone()),
                None => None,
            },
            const_labels: crate::encoding::clone_pairs(&self.const_labels),
            family_labels: Some(Vec::new()),
            family_labels_failed: true,
        };
        proof {
            assert(pairs_view(Seq::<(String, String)>::empty()) =~= Seq::<LabelView>::empty());
        }
        r
    }

    /// Appends the output of another encoder.
    pub fn absorb(&mut self, other: MetricEncoder)
        ensures
            final(self).same_config(old(self)),
            final(self).output() == old(self).output() + other.output(),
    {
        self.out.append(other.out.as_str());
    }
}

// ---------------------------------------------------------------------------
// Exposition.
/// Encode the metrics registered with the provided [`Registry`] into the
/// provided writer using the OpenMetrics text format, followed by the EOF
/// marker.
///
/// The output is appended to the writer; nothing is appended when an error
/// occurs.
pub fn encode(writer: &mut String, registry: &Registry) -> (r: Result<(), std::fmt::Error>)
    ensures
        r is Ok ==> exists|t: Seq<char>|
            #[trigger] registry.exposes_text(t) && final(writer)@ == old(writer)@ + t + "# EOF\n"@,
        r is Err ==> final(writer)@ == old(writer)@,
        registry.encodes_all() ==> r is Ok,
{
    encode_registry(writer, registry)?;
    encode_eof(writer)?;
    Ok(())
}

/// Encode the metrics registered with the provided [`Registry`] into the
/// provided writer using the OpenMetrics text format.
///
/// The output is appended to the writer; nothing is appended when an error
/// occurs.
pub fn encode_registry(writer: &mut String, registry: &Registry) -> (r: Result<
    (),
    std::fmt::Error,
>)
    ensures
        r is Ok ==> exists|t: Seq<char>|
            #[trigger] registry.exposes_text(t) && final(writer)@ == old(writer)@ + t,
        r is Err ==> final(writer)@ == old(writer)@,
        registry.encodes_all() ==> r is Ok,
{
    let mut encoder = crate::encoding::DescriptorEncoder::from_text(DescriptorEncoder::new());
    registry.encode(&mut encoder)?;
    proof {
        crate::encoding::lemma_descriptor_format(encoder);
    }
    match encoder.into_text() {
        Some(t) => {
            let out = t.into_output();
            writer.append(out.as_str());
            proof {
                assert(out@.skip(0) =~= out@);
            }
            Ok(())
        },
        None => Err(crate::encoding::fmt_error()),
    }
}

/// Encode the EOF marker into the provided writer.
pub fn encode_eof(writer: &mut String) -> (r: Result<(), std::fmt::Error>)
    ensures
        r is Ok,
        final(writer)@ == old(writer)@ + "# EOF\n"@,
{
    writer.append("# EOF\n");
    Ok(())
}

} // verus!
