//! Exposition format implementations.
use std::borrow::Cow;
use vstd::prelude::*;

use crate::metrics::MetricType;
use crate::registry::Prefix;
use crate::util::{chars_of, dec_int, format_int, hex_digits, push_hex};

pub mod protobuf;
pub mod text;

verus! {

/// `std::fmt::Error`, the error of every encoding step.
#[verifier::external_type_specification]
#[verifier::external_body]
pub struct ExFmtError(std::fmt::Error);

/// The `std::fmt::Error` value; the type has no other.
#[verifier::external_body]
pub(crate) fn fmt_error() -> std::fmt::Error {
    std::fmt::Error
}

/// A label as a pair of name and value.
pub type LabelView = (Seq<char>, Seq<char>);

/// The configuration of the samples of a text metric encoder: the exposed
/// metric name, the labels of every sample, and the labels of the family
/// member, if any.
pub type SampleConfig = (Seq<char>, Seq<LabelView>, Option<Seq<LabelView>>);

/// The view of a protobuf metric: its labels, its gauge value and its
/// counter value.
pub type MetricView = (Seq<LabelView>, Option<IntegerValue>, Option<IntegerValue>);

/// The view of owned label pairs.
pub open spec fn pairs_view(v: Seq<(String, String)>) -> Seq<LabelView> {
    v.map_values(|p: (String, String)| (p.0@, p.1@))
}

/// Copies label pairs.
pub(crate) fn clone_pairs(v: &Vec<(String, String)>) -> (r: Vec<(String, String)>)
    ensures
        pairs_view(r@) == pairs_view(v@),
{
    let mut r: Vec<(String, String)> = Vec::new();
    let mut i: usize = 0;
    while i < v.len()
        invariant
            i <= v.len(),
            pairs_view(r@) == pairs_view(v@).take(i as int),
        decreases v.len() - i,
    {
        let k = v[i].0.clone();
        let x = v[i].1.clone();
        let ghost old_r = r@;
        r.push((k, x));
        assert(pairs_view(r@) =~= pairs_view(old_r).push((v@[i as int].0@, v@[i as int].1@)));
        assert(pairs_view(v@).take(i + 1) =~= pairs_view(v@).take(i as int).push(
            (v@[i as int].0@, v@[i as int].1@),
        ));
        i += 1;
    }
    assert(pairs_view(v@).take(v@.len() as int) =~= pairs_view(v@));
    r
}

// ---------------------------------------------------------------------------
// Label sets.
/// Encoder for a label set: it collects the labels that are encoded into it.
#[derive(Debug)]
pub struct LabelSetEncoder {
    labels: Vec<(String, String)>,
}

impl View for LabelSetEncoder {
    type V = Seq<LabelView>;

    closed spec fn view(&self) -> Seq<LabelView> {
        pairs_view(self.labels@)
    }
}

impl LabelSetEncoder {
    /// An encoder that has collected no label yet.
    pub fn new() -> (r: Self)
        ensures
            r@ == Seq::<LabelView>::empty(),
    {
        LabelSetEncoder { labels: Vec::new() }
    }

    /// Encode the given label.
    pub fn encode_label(self) -> (r: LabelEncoder)
        ensures
            r@ == self@,
    {
        LabelEncoder { labels: self.labels }
    }

    /// The labels collected so far.
    pub fn into_labels(self) -> (r: Vec<(String, String)>)
        ensures
            pairs_view(r@) == self@,
    {
        self.labels
    }
}

/// Encoder for a label.
#[derive(Debug)]
pub struct LabelEncoder {
    labels: Vec<(String, String)>,
}

impl View for LabelEncoder {
    type V = Seq<LabelView>;

    closed spec fn view(&self) -> Seq<LabelView> {
        pairs_view(self.labels@)
    }
}

impl LabelEncoder {
    /// Encode a label.
    pub fn encode_label_key(self) -> (r: Result<LabelKeyEncoder, std::fmt::Error>)
        ensures
            r matches Ok(k) && k.spec_labels() == self@ && k.spec_key() == Seq::<char>::empty(),
    {
        Ok(LabelKeyEncoder { labels: self.labels, key: String::new() })
    }
}

/// Encoder for a label key.
#[derive(Debug)]
pub struct LabelKeyEncoder {
    labels: Vec<(String, String)>,
    key: String,
}

impl LabelKeyEncoder {
    /// The labels completed before this one.
    pub closed spec fn spec_labels(&self) -> Seq<LabelView> {
        pairs_view(self.labels@)
    }

    /// The key written so far.
    pub closed spec fn spec_key(&self) -> Seq<char> {
        self.key@
    }

    /// Appends `s` to the label key.
    pub fn write_str(&mut self, s: &str) -> (r: Result<(), std::fmt::Error>)
        ensures
            r is Ok,
            final(self).spec_labels() == old(self).spec_labels(),
            final(self).spec_key() == old(self).spec_key() + s@,
    {
        self.key.append(s);
        Ok(())
    }

    /// Encode a label value.
    pub fn encode_label_value(self) -> (r: Result<LabelValueEncoder, std::fmt::Error>)
        ensures
            r matches Ok(v) && v.spec_labels() == self.spec_labels() && v.spec_key()
                == self.spec_key() && v.spec_value() == Seq::<char>::empty(),
    {
        Ok(LabelValueEncoder { labels: self.labels, key: self.key, value: String::new() })
    }
}

/// Encoder for a label value.
#[derive(Debug)]
pub struct LabelValueEncoder {
    labels: Vec<(String, String)>,
    key: String,
    value: String,
}

impl LabelValueEncoder {
    /// The labels completed before this one.
    pub closed spec fn spec_labels(&self) -> Seq<LabelView> {
        pairs_view(self.labels@)
    }

    /// The key of the label.
    pub closed spec fn spec_key(&self) -> Seq<char> {
        self.key@
    }

    /// The value written so far.
    pub closed spec fn spec_value(&self) -> Seq<char> {
        self.value@
    }

    /// Appends `s` to the label value.
    pub fn write_str(&mut self, s: &str) -> (r: Result<(), std::fmt::Error>)
        ensures
            r is Ok,
            final(self).spec_labels() == old(self).spec_labels(),
            final(self).spec_key() == old(self).spec_key(),
            final(self).spec_value() == old(self).spec_value() + s@,
    {
        self.value.append(s);
        Ok(())
    }

    /// Finish encoding the label value.
    pub fn finish(self) -> (r: Result<LabelSetEncoder, std::fmt::Error>)
        ensures
            r matches Ok(e) && e@ == self.spec_labels().push((self.spec_key(), self.spec_value())),
    {
        let mut labels = self.labels;
        labels.push((self.key, self.value));
        let r = LabelSetEncoder { labels };
        assert(r@ =~= self.spec_labels().push((self.spec_key(), self.spec_value())));
        Ok(r)
    }
}

/// An encodable label set.
pub trait EncodeLabelSet {
    /// The labels of the set, in order.
    spec fn label_pairs(&self) -> Seq<LabelView>;

    /// Encoding the set never fails.
    spec fn label_set_encodes(&self) -> bool;

    /// Encode oneself into the given encoder.
    fn encode(&self, encoder: LabelSetEncoder) -> (r: Result<LabelSetEncoder, std::fmt::Error>)
        ensures
            r matches Ok(e) ==> e@ == encoder@ + self.label_pairs(),
            self.label_set_encodes() ==> r is Ok,
    ;
}

/// An encodable label.
pub trait EncodeLabel {
    /// The label as name and value.
    spec fn label_pair(&self) -> LabelView;

    /// Encoding the label never fails.
    spec fn label_encodes(&self) -> bool;

    /// Encode oneself into the given encoder.
    fn encode(&self, encoder: LabelEncoder) -> (r: Result<LabelSetEncoder, std::fmt::Error>)
        ensures
            r matches Ok(e) ==> e@ == encoder@.push(self.label_pair()),
            self.label_encodes() ==> r is Ok,
    ;
}

/// An encodable label key.
pub trait EncodeLabelKey {
    /// The text of the key.
    spec fn key_text(&self) -> Seq<char>;

    /// Encoding the key never fails.
    spec fn key_encodes(&self) -> bool;

    /// Encode oneself into the given encoder.
    fn encode(&self, encoder: &mut LabelKeyEncoder) -> (r: Result<(), std::fmt::Error>)
        ensures
            r is Ok ==> final(encoder).spec_labels() == old(encoder).spec_labels()
                && final(encoder).spec_key() == old(encoder).spec_key() + self.key_text(),
            self.key_encodes() ==> r is Ok,
    ;
}

/// An encodable label value.
pub trait EncodeLabelValue {
    /// The text of the value.
    spec fn value_text(&self) -> Seq<char>;

    /// Encoding the value never fails.
    spec fn value_encodes(&self) -> bool;

    /// Encode oneself into the given encoder.
    fn encode(&self, encoder: &mut LabelValueEncoder) -> (r: Result<(), std::fmt::Error>)
        ensures
            r is Ok ==> final(encoder).spec_labels() == old(encoder).spec_labels()
                && final(encoder).spec_key() == old(encoder).spec_key()
                && final(encoder).spec_value() == old(encoder).spec_value() + self.value_text(),
            self.value_encodes() ==> r is Ok,
    ;
}

impl<T: EncodeLabel> EncodeLabelSet for Vec<T> {
    open spec fn label_pairs(&self) -> Seq<LabelView> {
        self@.map_values(|t: T| t.label_pair())
    }

    open spec fn label_set_encodes(&self) -> bool {
        forall|i: int| 0 <= i < self@.len() ==> (#[trigger] self@[i]).label_encodes()
    }

    fn encode(&self, encoder: LabelSetEncoder) -> (r: Result<LabelSetEncoder, std::fmt::Error>) {
        let mut encoder = encoder;
        let ghost start = encoder@;
        let mut i: usize = 0;
        while i < self.len()
            invariant
                i <= self.len(),
                encoder@ == start + self@.take(i as int).map_values(|t: T| t.label_pair()),
            decreases self.len() - i,
        {
            encoder = self[i].encode(encoder.encode_label())?;
            assert(self@.take(i + 1).map_values(|t: T| t.label_pair()) =~= self@.take(
                i as int,
            ).map_values(|t: T| t.label_pair()).push(self@[i as int].label_pair()));
            i += 1;
        }
        assert(self@.take(self@.len() as int) =~= self@);
        Ok(encoder)
    }
}

/// Type to represent the lack of a label set for a metric: it encodes no
/// label.
#[derive(Debug)]
pub struct NoLabelSet;

impl EncodeLabelSet for NoLabelSet {
    open spec fn label_pairs(&self) -> Seq<LabelView> {
        Seq::empty()
    }

    open spec fn label_set_encodes(&self) -> bool {
        true
    }

    fn encode(&self, encoder: LabelSetEncoder) -> (r: Result<LabelSetEncoder, std::fmt::Error>) {
        Ok(encoder)
    }
}

impl<K: EncodeLabelKey, V: EncodeLabelValue> EncodeLabel for (K, V) {
    open spec fn label_pair(&self) -> LabelView {
        (self.0.key_text(), self.1.value_text())
    }

    open spec fn label_encodes(&self) -> bool {
        self.0.key_encodes() && self.1.value_encodes()
    }

    fn encode(&self, encoder: LabelEncoder) -> (r: Result<LabelSetEncoder, std::fmt::Error>) {
        let (key, value) = self;
        let mut label_key_encoder = encoder.encode_label_key()?;
        key.encode(&mut label_key_encoder)?;
        let mut label_value_encoder = label_key_encoder.encode_label_value()?;
        value.encode(&mut label_value_encoder)?;
        label_value_encoder.finish()
    }
}

impl EncodeLabelKey for &str {
    open spec fn key_text(&self) -> Seq<char> {
        (*self)@
    }

    open spec fn key_encodes(&self) -> bool {
        true
    }

    fn encode(&self, encoder: &mut LabelKeyEncoder) -> (r: Result<(), std::fmt::Error>) {
        encoder.write_str(self)
    }
}

impl EncodeLabelKey for String {
    open spec fn key_text(&self) -> Seq<char> {
        self@
    }

    open spec fn key_encodes(&self) -> bool {
        true
    }

    fn encode(&self, encoder: &mut LabelKeyEncoder) -> (r: Result<(), std::fmt::Error>) {
        encoder.write_str(self.as_str())
    }
}

impl EncodeLabelKey for Cow<'_, str> {
    open spec fn key_text(&self) -> Seq<char> {
        self@
    }

    open spec fn key_encodes(&self) -> bool {
        true
    }

    fn encode(&self, encoder: &mut LabelKeyEncoder) -> (r: Result<(), std::fmt::Error>) {
        match self {
            Cow::Borrowed(b) => encoder.write_str(b),
            Cow::Owned(o) => encoder.write_str(o.as_str()),
        }
    }
}

impl EncodeLabelValue for &str {
    open spec fn value_text(&self) -> Seq<char> {
        (*self)@
    }

    open spec fn value_encodes(&self) -> bool {
        true
    }

    fn encode(&self, encoder: &mut LabelValueEncoder) -> (r: Result<(), std::fmt::Error>) {
        encoder.write_str(self)
    }
}

impl EncodeLabelValue for String {
    open spec fn value_text(&self) -> Seq<char> {
        self@
    }

    open spec fn value_encodes(&self) -> bool {
        true
    }

    fn encode(&self, encoder: &mut LabelValueEncoder) -> (r: Result<(), std::fmt::Error>) {
        encoder.write_str(self.as_str())
    }
}

impl EncodeLabelValue for Cow<'_, str> {
    open spec fn value_text(&self) -> Seq<char> {
        self@
    }

    open spec fn value_encodes(&self) -> bool {
        true
    }

    fn encode(&self, encoder: &mut LabelValueEncoder) -> (r: Result<(), std::fmt::Error>) {
        match self {
            Cow::Borrowed(b) => encoder.write_str(b),
            Cow::Owned(o) => encoder.write_str(o.as_str()),
        }
    }
}

impl EncodeLabelValue for bool {
    open spec fn value_text(&self) -> Seq<char> {
        if *self {
            "true"@
        } else {
            "false"@
        }
    }

    open spec fn value_encodes(&self) -> bool {
        true
    }

    fn encode(&self, encoder: &mut LabelValueEncoder) -> (r: Result<(), std::fmt::Error>) {
        encoder.write_str(
            if *self {
                "true"
            } else {
                "false"
            },
        )
    }
}

impl<T: EncodeLabelValue> EncodeLabelValue for Option<T> {
    open spec fn value_text(&self) -> Seq<char> {
        match self {
            Some(v) => v.value_text(),
            None => Seq::empty(),
        }
    }

    open spec fn value_encodes(&self) -> bool {
        match self {
            Some(v) => v.value_encodes(),
            None => true,
        }
    }

    fn encode(&self, encoder: &mut LabelValueEncoder) -> (r: Result<(), std::fmt::Error>) {
        match self {
            Some(v) => v.encode(encoder),
            None => {
                let r = encoder.write_str("");
                proof {
                    reveal_strlit("");
                }
                r
            },
        }
    }
}

impl EncodeLabelValue for u64 {
    open spec fn value_text(&self) -> Seq<char> {
        dec_int(*self as int)
    }

    open spec fn value_encodes(&self) -> bool {
        true
    }

    fn encode(&self, encoder: &mut LabelValueEncoder) -> (r: Result<(), std::fmt::Error>) {
        let s = format_int(*self as i128);
        encoder.write_str(s.as_str())
    }
}

impl EncodeLabelValue for i64 {
    open spec fn value_text(&self) -> Seq<char> {
        dec_int(*self as int)
    }

    open spec fn value_encodes(&self) -> bool {
        true
    }

    fn encode(&self, encoder: &mut LabelValueEncoder) -> (r: Result<(), std::fmt::Error>) {
        let s = format_int(*self as i128);
        encoder.write_str(s.as_str())
    }
}

impl EncodeLabelValue for u32 {
    open spec fn value_text(&self) -> Seq<char> {
        dec_int(*self as int)
    }

    open spec fn value_encodes(&self) -> bool {
        true
    }

    fn encode(&self, encoder: &mut LabelValueEncoder) -> (r: Result<(), std::fmt::Error>) {
        let s = format_int(*self as i128);
        encoder.write_str(s.as_str())
    }
}

impl EncodeLabelValue for i32 {
    open spec fn value_text(&self) -> Seq<char> {
        dec_int(*self as int)
    }

    open spec fn value_encodes(&self) -> bool {
        true
    }

    fn encode(&self, encoder: &mut LabelValueEncoder) -> (r: Result<(), std::fmt::Error>) {
        let s = format_int(*self as i128);
        encoder.write_str(s.as_str())
    }
}

impl EncodeLabelValue for usize {
    open spec fn value_text(&self) -> Seq<char> {
        dec_int(*self as int)
    }

    open spec fn value_encodes(&self) -> bool {
        true
    }

    fn encode(&self, encoder: &mut LabelValueEncoder) -> (r: Result<(), std::fmt::Error>) {
        let s = format_int(*self as i128);
        encoder.write_str(s.as_str())
    }
}

// ---------------------------------------------------------------------------
// Sample values.
/// An integer sample value, as encoded by a value encoder.
#[derive(Debug, Clone, Copy, PartialEq, Eq, Structural)]
pub enum IntegerValue {
    /// An unsigned value.
    Unsigned(u64),
    /// A signed value.
    Signed(i64),
}

/// The decimal text of an integer sample value.
pub open spec fn integer_text(v: IntegerValue) -> Seq<char> {
    match v {
        IntegerValue::Unsigned(u) => dec_int(u as int),
        IntegerValue::Signed(i) => dec_int(i as int),
    }
}

/// Writes the decimal text of `v`.
pub(crate) fn format_integer(v: IntegerValue) -> (s: String)
    ensures
        s@ == integer_text(v),
{
    match v {
        IntegerValue::Unsigned(u) => format_int(u as i128),
        IntegerValue::Signed(i) => format_int(i as i128),
    }
}

/// Encoder for a counter value: it records the value encoded into it.
#[derive(Debug)]
pub struct CounterValueEncoder {
    value: Option<IntegerValue>,
}

impl View for CounterValueEncoder {
    type V = Option<IntegerValue>;

    closed spec fn view(&self) -> Option<IntegerValue> {
        self.value
    }
}

impl CounterValueEncoder {
    /// An encoder that holds no value yet.
    pub fn new() -> (r: Self)
        ensures
            r@ is None,
    {
        CounterValueEncoder { value: None }
    }

    /// Encodes an unsigned value.
    pub fn encode_u64(&mut self, v: u64) -> (r: Result<(), std::fmt::Error>)
        ensures
            r is Ok,
            final(self)@ == Some(IntegerValue::Unsigned(v)),
    {
        self.value = Some(IntegerValue::Unsigned(v));
        Ok(())
    }

    /// The value encoded so far.
    pub fn value(&self) -> (r: Option<IntegerValue>)
        ensures
            r == self@,
    {
        self.value
    }
}

/// An encodable counter value.
pub trait EncodeCounterValue {
    /// The value that is encoded.
    spec fn counter_value(&self) -> IntegerValue;

    /// Encoding the value never fails.
    spec fn counter_encodes(&self) -> bool;

    /// Encode the given instance.
    fn encode(&self, encoder: &mut CounterValueEncoder) -> (r: Result<(), std::fmt::Error>)
        ensures
            r is Ok ==> final(encoder)@ == Some(self.counter_value()),
            self.counter_encodes() ==> r is Ok,
    ;
}

impl EncodeCounterValue for u64 {
    open spec fn counter_value(&self) -> IntegerValue {
        IntegerValue::Unsigned(*self)
    }

    open spec fn counter_encodes(&self) -> bool {
        true
    }

    fn encode(&self, encoder: &mut CounterValueEncoder) -> (r: Result<(), std::fmt::Error>) {
        encoder.encode_u64(*self)
    }
}

impl EncodeCounterValue for u32 {
    open spec fn counter_value(&self) -> IntegerValue {
        IntegerValue::Unsigned(*self as u64)
    }

    open spec fn counter_encodes(&self) -> bool {
        true
    }

    fn encode(&self, encoder: &mut CounterValueEncoder) -> (r: Result<(), std::fmt::Error>) {
        encoder.encode_u64(*self as u64)
    }
}

/// Encoder for a gauge value: it records the value encoded into it.
#[derive(Debug)]
pub struct GaugeValueEncoder {
    value: Option<IntegerValue>,
}

impl View for GaugeValueEncoder {
    type V = Option<IntegerValue>;

    closed spec fn view(&self) -> Option<IntegerValue> {
        self.value
    }
}

impl GaugeValueEncoder {
    /// An encoder that holds no value yet.
    pub fn new() -> (r: Self)
        ensures
            r@ is None,
    {
        GaugeValueEncoder { value: None }
    }

    /// Encodes a `u32` value.
    pub fn encode_u32(&mut self, v: u32) -> (r: Result<(), std::fmt::Error>)
        ensures
            r is Ok,
            final(self)@ == Some(IntegerValue::Unsigned(v as u64)),
    {
        self.value = Some(IntegerValue::Unsigned(v as u64));
        Ok(())
    }

    /// Encodes a `u64` value.
    pub fn encode_u64(&mut self, v: u64) -> (r: Result<(), std::fmt::Error>)
        ensures
            r is Ok,
            final(self)@ == Some(IntegerValue::Unsigned(v)),
    {
        self.value = Some(IntegerValue::Unsigned(v));
        Ok(())
    }

    /// Encodes an `i64` value.
    pub fn encode_i64(&mut self, v: i64) -> (r: Result<(), std::fmt::Error>)
        ensures
            r is Ok,
            final(self)@ == Some(IntegerValue::Signed(v)),
    {
        self.value = Some(IntegerValue::Signed(v));
        Ok(())
    }

    /// The value encoded so far.
    pub fn value(&self) -> (r: Option<IntegerValue>)
        ensures
            r == self@,
    {
        self.value
    }
}

/// An encodable gauge value.
pub trait EncodeGaugeValue {
    /// The value that is encoded.
    spec fn gauge_value(&self) -> IntegerValue;

    /// Encoding the value never fails.
    spec fn gauge_encodes(&self) -> bool;

    /// Encode the given instance.
    fn encode(&self, encoder: &mut GaugeValueEncoder) -> (r: Result<(), std::fmt::Error>)
        ensures
            r is Ok ==> final(encoder)@ == Some(self.gauge_value()),
            self.gauge_encodes() ==> r is Ok,
    ;
}

impl EncodeGaugeValue for u32 {
    open spec fn gauge_value(&self) -> IntegerValue {
        IntegerValue::Unsigned(*self as u64)
    }

    open spec fn gauge_encodes(&self) -> bool {
        true
    }

    fn encode(&self, encoder: &mut GaugeValueEncoder) -> (r: Result<(), std::fmt::Error>) {
        encoder.encode_u32(*self)
    }
}

impl EncodeGaugeValue for u64 {
    open spec fn gauge_value(&self) -> IntegerValue {
        IntegerValue::Unsigned(*self)
    }

    open spec fn gauge_encodes(&self) -> bool {
        true
    }

    fn encode(&self, encoder: &mut GaugeValueEncoder) -> (r: Result<(), std::fmt::Error>) {
        encoder.encode_u64(*self)
    }
}

impl EncodeGaugeValue for i64 {
    open spec fn gauge_value(&self) -> IntegerValue {
        IntegerValue::Signed(*self)
    }

    open spec fn gauge_encodes(&self) -> bool {
        true
    }

    fn encode(&self, encoder: &mut GaugeValueEncoder) -> (r: Result<(), std::fmt::Error>) {
        encoder.encode_i64(*self)
    }
}

impl EncodeGaugeValue for i32 {
    open spec fn gauge_value(&self) -> IntegerValue {
        IntegerValue::Signed(*self as i64)
    }

    open spec fn gauge_encodes(&self) -> bool {
        true
    }

    fn encode(&self, encoder: &mut GaugeValueEncoder) -> (r: Result<(), std::fmt::Error>) {
        encoder.encode_i64(*self as i64)
    }
}

// ---------------------------------------------------------------------------
// Descriptor and metric encoders.
/// A sequence is a prefix of itself extended.
pub proof fn lemma_prefix_of_concat<A>(a: Seq<A>, b: Seq<A>)
    ensures
        a.is_prefix_of(a + b),
{
    assert(a =~= (a + b).subrange(0, a.len() as int));
}

#[derive(Debug)]
enum DescriptorEncoderInner {
    Text(text::DescriptorEncoder),
    Protobuf(protobuf::DescriptorEncoder),
}

/// Encoder for metric descriptors, in the text or the protobuf format.
#[derive(Debug)]
pub struct DescriptorEncoder(DescriptorEncoderInner);

impl DescriptorEncoder {
    /// The text encoder, for the text format.
    pub closed spec fn text(&self) -> Option<text::DescriptorEncoder> {
        match self.0 {
            DescriptorEncoderInner::Text(t) => Some(t),
            _ => None,
        }
    }

    /// The protobuf encoder, for the protobuf format.
    pub closed spec fn proto(&self) -> Option<protobuf::DescriptorEncoder> {
        match self.0 {
            DescriptorEncoderInner::Protobuf(p) => Some(p),
            _ => None,
        }
    }

    /// The prefix of the metric names, in either format.
    pub open spec fn spec_prefix(&self) -> Option<Seq<char>> {
        match (self.text(), self.proto()) {
            (Some(t), _) => t.spec_prefix(),
            (None, Some(p)) => p.spec_prefix(),
            _ => None,
        }
    }

    /// The labels added to every sample, in either format.
    pub open spec fn spec_labels(&self) -> Seq<LabelView> {
        match (self.text(), self.proto()) {
            (Some(t), _) => t.spec_labels(),
            (None, Some(p)) => p.spec_labels(),
            _ => Seq::empty(),
        }
    }

    /// `new` has the format, prefix and labels of `self`, and its output
    /// extends that of `self`.
    pub open spec fn grows_to(&self, new: DescriptorEncoder) -> bool {
        match (self.text(), new.text(), self.proto(), new.proto()) {
            (Some(a), Some(b), _, _) => {
                &&& a.spec_prefix() == b.spec_prefix()
                &&& a.spec_labels() == b.spec_labels()
                &&& a.output().is_prefix_of(b.output())
            },
            (None, None, Some(a), Some(b)) => {
                &&& a.spec_prefix() == b.spec_prefix()
                &&& a.spec_labels() == b.spec_labels()
                &&& a.spec_families().is_prefix_of(b.spec_families())
            },
            _ => false,
        }
    }

    /// Wraps a text encoder.
    pub fn from_text(e: text::DescriptorEncoder) -> (r: Self)
        ensures
            r.text() == Some(e),
            r.proto() is None,
    {
        DescriptorEncoder(DescriptorEncoderInner::Text(e))
    }

    /// Wraps a protobuf encoder.
    pub fn from_protobuf(e: protobuf::DescriptorEncoder) -> (r: Self)
        ensures
            r.proto() == Some(e),
            r.text() is None,
    {
        DescriptorEncoder(DescriptorEncoderInner::Protobuf(e))
    }

    /// The text encoder, if this is one.
    pub fn into_text(self) -> (r: Option<text::DescriptorEncoder>)
        ensures
            r == self.text(),
    {
        match self.0 {
            DescriptorEncoderInner::Text(t) => Some(t),
            _ => None,
        }
    }

    /// The protobuf encoder, if this is one.
    pub fn into_protobuf(self) -> (r: Option<protobuf::DescriptorEncoder>)
        ensures
            r == self.proto(),
    {
        match self.0 {
            DescriptorEncoderInner::Protobuf(p) => Some(p),
            _ => None,
        }
    }

    /// An encoder of the same format without output, for the given prefix
    /// and labels.
    pub fn with_prefix_and_labels(
        &self,
        prefix: Option<&crate::registry::Prefix>,
        labels: &Vec<(Cow<'static, str>, Cow<'static, str>)>,
    ) -> (r: DescriptorEncoder)
        ensures
            self.text() matches Some(t) ==> r.text() matches Some(n) && n.output()
                == Seq::<char>::empty() && n.spec_prefix() == match prefix {
                Some(p) => Some(p@),
                None => None::<Seq<char>>,
            } && n.spec_labels() == text::cow_pairs_view(labels@),
            self.proto() matches Some(t) ==> r.proto() matches Some(n) && n.spec_families()
                == Seq::<protobuf::prometheus_data_model::MetricFamily>::empty() && n.spec_prefix()
                == match prefix {
                Some(p) => Some(p@),
                None => None::<Seq<char>>,
            } && n.spec_labels() == text::cow_pairs_view(labels@),
    {
        match &self.0 {
            DescriptorEncoderInner::Text(e) => DescriptorEncoder(
                DescriptorEncoderInner::Text(e.with_prefix_and_labels(prefix, labels)),
            ),
            DescriptorEncoderInner::Protobuf(e) => DescriptorEncoder(
                DescriptorEncoderInner::Protobuf(e.with_prefix_and_labels(prefix, labels)),
            ),
        }
    }

    /// Encode a descriptor. The returned encoder takes the samples of the
    /// metric; [`Self::absorb`] adds it to the output.
    pub fn encode_descriptor(
        &self,
        name: &str,
        help: &str,
        unit: Option<&crate::registry::Unit>,
        metric_type: MetricType,
    ) -> (r: Result<MetricEncoder, std::fmt::Error>)
        ensures
            r is Ok,
            self.text() matches Some(t) ==> r matches Ok(m) && m.text() matches Some(mt)
                && mt.output() == text::descriptor_text(
                t.spec_prefix(),
                name@,
                help@,
                match unit {
                    Some(u) => crate::registry::opt_unit_name(Some(*u)),
                    None => None,
                },
                metric_type,
            ) && mt.spec_prefix() == t.spec_prefix() && mt.spec_name() == name@ && mt.spec_unit()
                == match unit {
                Some(u) => crate::registry::opt_unit_name(Some(*u)),
                None => None,
            } && mt.spec_const_labels() == t.spec_labels() && mt.spec_family_labels() is None
                && !mt.spec_family_labels_failed(),
            self.proto() matches Some(p) ==> r matches Ok(m) && m.proto() matches Some(mp)
                && protobuf::family_header(mp.spec_family()) == (
                protobuf::family_name(
                    p.spec_prefix(),
                    name@,
                    match unit {
                        Some(u) => crate::registry::opt_unit_name(Some(*u)),
                        None => None,
                    },
                    metric_type,
                ),
                help@,
                protobuf::prometheus_data_model::metric_type_number(
                    protobuf::proto_type(metric_type),
                ),
                match unit {
                    Some(u) => protobuf::unit_name_or_empty(Some(*u)),
                    None => Seq::empty(),
                },
            ) && mp.spec_family().metric@.len() == 0 && mp.spec_labels() == p.spec_labels(),
    {
        match &self.0 {
            DescriptorEncoderInner::Text(e) => {
                let m = e.encode_descriptor(name, help, unit, metric_type)?;
                Ok(MetricEncoder(MetricEncoderInner::Text(m)))
            },
            DescriptorEncoderInner::Protobuf(e) => {
                let m = e.encode_descriptor(name, help, unit, metric_type)?;
                Ok(MetricEncoder(MetricEncoderInner::Protobuf(m)))
            },
        }
    }

    /// Adds the output of a metric encoder obtained from
    /// [`Self::encode_descriptor`]; fails when its format differs.
    pub fn absorb(&mut self, metric: MetricEncoder) -> (r: Result<(), std::fmt::Error>)
        ensures
            r is Ok <==> (old(self).text() is Some) == (metric.text() is Some),
            r is Ok ==> old(self).grows_to(*final(self)),
            (old(self).text() is Some && metric.text() is Some) ==> (final(self).text() matches Some(b) && ({ let a = old(self).text()->0; let m = metric.text()->0; b.output() == a.output() + m.output() })),
            (old(self).proto() is Some && metric.proto() is Some) ==> (final(self).proto() matches Some(b) && ({ let a = old(self).proto()->0; let m = metric.proto()->0; b.spec_families() == a.spec_families().push(m.spec_family()) })),
    {
        match metric.0 {
            MetricEncoderInner::Text(m) => match &mut self.0 {
                DescriptorEncoderInner::Text(e) => {
                    e.absorb(m);
                    Ok(())
                },
                _ => Err(fmt_error()),
            },
            MetricEncoderInner::Protobuf(m) => match &mut self.0 {
                DescriptorEncoderInner::Protobuf(e) => {
                    e.absorb(m);
                    Ok(())
                },
                _ => Err(fmt_error()),
            },
        }
    }

    /// Adds the output of another descriptor encoder; fails when its format
    /// differs.
    pub fn absorb_descriptors(&mut self, other: DescriptorEncoder) -> (r: Result<
        (),
        std::fmt::Error,
    >)
        ensures
            r is Ok <==> (old(self).text() is Some) == (other.text() is Some),
            r is Ok ==> old(self).grows_to(*final(self)),
            (old(self).text() is Some && other.text() is Some) ==> (final(self).text() matches Some(b) && ({ let a = old(self).text()->0; let m = other.text()->0; b.output() == a.output() + m.output() })),
            (old(self).proto() is Some && other.proto() is Some) ==> (final(self).proto() matches Some(b) && ({ let a = old(self).proto()->0; let m = other.proto()->0; b.spec_families() == a.spec_families() + m.spec_families() })),
    {
        match other.0 {
            DescriptorEncoderInner::Text(o) => match &mut self.0 {
                DescriptorEncoderInner::Text(e) => {
                    e.absorb_descriptors(o);
                    Ok(())
                },
                _ => Err(fmt_error()),
            },
            DescriptorEncoderInner::Protobuf(o) => match &mut self.0 {
                DescriptorEncoderInner::Protobuf(e) => {
                    e.absorb_descriptors(o);
                    Ok(())
                },
                _ => Err(fmt_error()),
            },
        }
    }
}

/// Being a prefix is transitive.
pub proof fn lemma_prefix_trans<A>(a: Seq<A>, b: Seq<A>, c: Seq<A>)
    requires
        a.is_prefix_of(b),
        b.is_prefix_of(c),
    ensures
        a.is_prefix_of(c),
{
    assert(a =~= c.subrange(0, a.len() as int)) by {
        assert forall|i: int| 0 <= i < a.len() implies a[i] == c.subrange(0, a.len() as int)[i] by {
            assert(a[i] == b.subrange(0, a.len() as int)[i]);
            assert(b[i] == c.subrange(0, b.len() as int)[i]);
        }
    }
}

/// Growing is transitive.
pub proof fn lemma_descriptor_grows_trans(a: DescriptorEncoder, b: DescriptorEncoder, c: DescriptorEncoder)
    requires
        a.grows_to(b),
        b.grows_to(c),
    ensures
        a.grows_to(c),
{
    if a.text() is Some {
        lemma_prefix_trans(a.text()->0.output(), b.text()->0.output(), c.text()->0.output());
    } else {
        lemma_prefix_trans(
            a.proto()->0.spec_families(),
            b.proto()->0.spec_families(),
            c.proto()->0.spec_families(),
        );
    }
}

/// Every encoder grows to itself.
pub proof fn lemma_descriptor_grows_refl(a: DescriptorEncoder)
    ensures
        a.grows_to(a),
{
    match a.0 {
        DescriptorEncoderInner::Text(t) => {
            assert(t.output() =~= t.output().subrange(0, t.output().len() as int));
        },
        DescriptorEncoderInner::Protobuf(p) => {
            assert(p.spec_families() =~= p.spec_families().subrange(
                0,
                p.spec_families().len() as int,
            ));
        },
    }
}

/// A descriptor encoder is in the text format or the protobuf format.
pub proof fn lemma_descriptor_format(a: DescriptorEncoder)
    ensures
        a.text() is Some <==> a.proto() is None,
{
}

#[derive(Debug)]
enum MetricEncoderInner {
    Text(text::MetricEncoder),
    Protobuf(protobuf::MetricEncoder),
}

/// Encoder for the samples of a metric, in the text or the protobuf format.
#[derive(Debug)]
pub struct MetricEncoder(MetricEncoderInner);

impl MetricEncoder {
    /// The text encoder, for the text format.
    pub closed spec fn text(&self) -> Option<text::MetricEncoder> {
        match self.0 {
            MetricEncoderInner::Text(t) => Some(t),
            _ => None,
        }
    }

    /// The protobuf encoder, for the protobuf format.
    pub closed spec fn proto(&self) -> Option<protobuf::MetricEncoder> {
        match self.0 {
            MetricEncoderInner::Protobuf(p) => Some(p),
            _ => None,
        }
    }

    /// Samples can be encoded: in the text format, the label set of the
    /// family member, if any, was encoded.
    pub open spec fn labels_ok(&self) -> bool {
        self.text() matches Some(t) ==> !t.spec_family_labels_failed()
    }

    /// `new` has the format and configuration of `self`, and its output
    /// extends that of `self`.
    pub open spec fn grows_to(&self, new: MetricEncoder) -> bool {
        match (self.text(), new.text(), self.proto(), new.proto()) {
            (Some(a), Some(b), _, _) => b.same_config(&a) && a.output().is_prefix_of(b.output()),
            (None, None, Some(a), Some(b)) => b.same_config(&a)
                && a.spec_family().metric@.is_prefix_of(b.spec_family().metric@),
            _ => false,
        }
    }

    /// Encode a counter.
    pub fn encode_counter<CounterValue: EncodeCounterValue>(&mut self, v: &CounterValue) -> (r:
        Result<(), std::fmt::Error>)
        ensures
            v.counter_encodes() && old(self).labels_ok() ==> r is Ok,
            r is Ok ==> old(self).grows_to(*final(self)),
            r is Ok ==> (old(self).text() matches Some(a) ==> final(self).text() matches Some(b)
                && b.output() == a.output() + a.sample_name() + seq!['_'] + "total"@
                + a.sample_labels(None) + text::value_part(Some(v.counter_value()))
                + seq!['\n']),
            r is Ok ==> (old(self).proto() matches Some(a) ==> final(self).proto() matches Some(
                b,
            ) && b.spec_metrics() == a.spec_metrics().push(
                (a.spec_labels(), None, Some(v.counter_value())),
            )),
    {
        let mut value_encoder = CounterValueEncoder::new();
        v.encode(&mut value_encoder)?;
        let value = value_encoder.value();
        match &mut self.0 {
            MetricEncoderInner::Text(e) => {
                if e.family_labels_failed() {
                    return Err(fmt_error());
                }
                e.encode_counter(value)
            },
            MetricEncoderInner::Protobuf(e) => e.encode_counter(value),
        }
        Ok(())
    }

    /// Encode a gauge.
    pub fn encode_gauge<GaugeValue: EncodeGaugeValue>(&mut self, v: &GaugeValue) -> (r: Result<
        (),
        std::fmt::Error,
    >)
        ensures
            v.gauge_encodes() && old(self).labels_ok() ==> r is Ok,
            r is Ok ==> old(self).grows_to(*final(self)),
            r is Ok ==> (old(self).text() matches Some(a) ==> final(self).text() matches Some(b)
                && b.output() == a.output() + a.sample_name() + a.sample_labels(None)
                + text::value_part(Some(v.gauge_value())) + seq!['\n']),
            r is Ok ==> (old(self).proto() matches Some(a) ==> final(self).proto() matches Some(
                b,
            ) && b.spec_metrics() == a.spec_metrics().push(
                (a.spec_labels(), Some(v.gauge_value()), None),
            )),
    {
        let mut value_encoder = GaugeValueEncoder::new();
        v.encode(&mut value_encoder)?;
        let value = value_encoder.value();
        match &mut self.0 {
            MetricEncoderInner::Text(e) => {
                if e.family_labels_failed() {
                    return Err(fmt_error());
                }
                e.encode_gauge(value)
            },
            MetricEncoderInner::Protobuf(e) => e.encode_gauge(value),
        }
        Ok(())
    }

    /// Encode an info.
    pub fn encode_info<S: EncodeLabelSet>(&mut self, label_set: &S) -> (r: Result<
        (),
        std::fmt::Error,
    >)
        ensures
            label_set.label_set_encodes() && old(self).labels_ok() ==> r is Ok,
            r is Ok ==> old(self).grows_to(*final(self)),
            r is Ok ==> (old(self).text() matches Some(a) ==> final(self).text() matches Some(b)
                && b.output() == a.output() + a.sample_name() + seq!['_'] + "info"@
                + a.sample_labels(Some(label_set.label_pairs())) + seq![' ', '1', '\n']),
            r is Ok ==> (old(self).proto() matches Some(a) ==> final(self).proto() matches Some(
                b,
            ) && b.spec_metrics() == a.spec_metrics().push(
                (
                    a.spec_labels() + label_set.label_pairs(),
                    Some(IntegerValue::Unsigned(1)),
                    None,
                ),
            )),
    {
        let labels = label_set.encode(LabelSetEncoder::new())?.into_labels();
        match &mut self.0 {
            MetricEncoderInner::Text(e) => {
                if e.family_labels_failed() {
                    return Err(fmt_error());
                }
                e.encode_info(&labels)
            },
            MetricEncoderInner::Protobuf(e) => e.encode_info(labels),
        }
        Ok(())
    }

    /// An encoder for the member of a family with the given label set;
    /// [`Self::absorb`] adds its output. In the text format the label set is
    /// encoded with each sample, so a label set that does not encode makes
    /// the samples fail, not this call; in the protobuf format it is encoded
    /// here.
    pub fn encode_family<S: EncodeLabelSet>(&self, label_set: &S) -> (r: Result<
        MetricEncoder,
        std::fmt::Error,
    >)
        ensures
            self.text() is Some ==> r is Ok,
            label_set.label_set_encodes() ==> r is Ok,
            r matches Ok(c) ==> (self.text() matches Some(a) ==> c.text() matches Some(b)
                && b.output() == Seq::<char>::empty() && b.spec_prefix() == a.spec_prefix()
                && b.spec_name() == a.spec_name() && b.spec_unit() == a.spec_unit()
                && b.spec_const_labels() == a.spec_const_labels() && (label_set.label_set_encodes()
                ==> !b.spec_family_labels_failed()) && (!b.spec_family_labels_failed()
                ==> b.spec_family_labels() == Some(label_set.label_pairs()))),
            r matches Ok(c) ==> (self.proto() matches Some(a) ==> c.proto() matches Some(b)
                && protobuf::family_header(b.spec_family()) == protobuf::family_header(
                a.spec_family(),
            ) && b.spec_family().metric@.len() == 0 && b.spec_labels() == a.spec_labels()
                + label_set.label_pairs()),
    {
        match &self.0 {
            MetricEncoderInner::Text(e) => match label_set.encode(LabelSetEncoder::new()) {
                Ok(enc) => {
                    let labels = enc.into_labels();
                    Ok(MetricEncoder(MetricEncoderInner::Text(e.encode_family(labels))))
                },
                Err(_) => Ok(MetricEncoder(MetricEncoderInner::Text(e.encode_family_failed()))),
            },
            MetricEncoderInner::Protobuf(e) => {
                let labels = label_set.encode(LabelSetEncoder::new())?.into_labels();
                Ok(MetricEncoder(MetricEncoderInner::Protobuf(e.encode_family(labels))))
            },
        }
    }

    /// Adds the output of an encoder obtained from [`Self::encode_family`];
    /// fails when its format differs.
    pub fn absorb(&mut self, other: MetricEncoder) -> (r: Result<(), std::fmt::Error>)
        ensures
            r is Ok <==> (old(self).text() is Some) == (other.text() is Some),
            r is Ok ==> old(self).grows_to(*final(self)),
            (old(self).text() is Some && other.text() is Some) ==> (final(self).text() matches Some(b) && ({ let a = old(self).text()->0; let o = other.text()->0; b.output() == a.output() + o.output() })),
            (old(self).proto() is Some && other.proto() is Some) ==> (final(self).proto() matches Some(b) && ({ let a = old(self).proto()->0; let o = other.proto()->0; b.spec_family().metric@ == a.spec_family().metric@ + o.spec_family().metric@ })),
    {
        match other.0 {
            MetricEncoderInner::Text(o) => match &mut self.0 {
                MetricEncoderInner::Text(e) => {
                    e.absorb(o);
                    Ok(())
                },
                _ => Err(fmt_error()),
            },
            MetricEncoderInner::Protobuf(o) => match &mut self.0 {
                MetricEncoderInner::Protobuf(e) => {
                    e.absorb(o);
                    Ok(())
                },
                _ => Err(fmt_error()),
            },
        }
    }
}

/// A metric encoder is of exactly one format.
pub proof fn lemma_metric_format(m: MetricEncoder)
    ensures
        m.text() is Some <==> m.proto() is None,
{
}

/// Trait implemented by each metric type, e.g. a counter, to implement its
/// encoding.
pub trait EncodeMetric {
    /// Encoding the samples never fails.
    spec fn encode_succeeds(&self) -> bool;

    /// The OpenMetrics metric type of the instance.
    spec fn spec_metric_type(&self) -> MetricType;

    /// The samples `s` that encoding the metric appends to a text encoder
    /// with the configuration `cfg`.
    spec fn text_samples(&self, cfg: SampleConfig, s: Seq<char>) -> bool;

    /// The metrics `ms` that encoding the metric appends to a protobuf
    /// encoder whose metrics carry `labels`.
    spec fn proto_samples(&self, labels: Seq<LabelView>, ms: Seq<MetricView>) -> bool;

    /// Encode the samples of the metric into the given encoder.
    fn encode(&self, encoder: &mut MetricEncoder) -> (r: Result<(), std::fmt::Error>)
        ensures
            r is Ok ==> old(encoder).grows_to(*final(encoder)),
            r is Ok ==> (old(encoder).text() matches Some(a) ==> final(encoder).text() matches Some(
                b,
            ) && self.text_samples(a.config(), b.output().skip(a.output().len() as int))),
            r is Ok ==> (old(encoder).proto() matches Some(a) ==> final(encoder).proto() matches Some(
                b,
            ) && self.proto_samples(
                a.spec_labels(),
                b.spec_metrics().skip(a.spec_metrics().len() as int),
            )),
            self.encode_succeeds() && old(encoder).labels_ok() ==> r is Ok,
    ;

    /// The OpenMetrics metric type of the instance.
    fn metric_type(&self) -> (r: MetricType)
        ensures
            r == self.spec_metric_type(),
    ;
}

// ---------------------------------------------------------------------------
// Name validation and escaping.
/// Enum for determining how metric and label names will be validated.
#[derive(Debug, PartialEq, Eq, Structural, Clone, Copy)]
pub enum ValidationScheme {
    /// Setting that requires that metric and label names conform to the
    /// legacy OpenMetrics character requirements.
    LegacyValidation,
    /// Only requires that metric and label names be valid UTF-8 strings.
    UTF8Validation,
}

impl Default for ValidationScheme {
    fn default() -> (r: Self)
        ensures
            r == ValidationScheme::LegacyValidation,
    {
        ValidationScheme::LegacyValidation
    }
}

/// An ASCII letter.
pub open spec fn is_ascii_alpha(c: char) -> bool {
    ('a' <= c && c <= 'z') || ('A' <= c && c <= 'Z')
}

/// An ASCII decimal digit.
pub open spec fn is_ascii_digit(c: char) -> bool {
    '0' <= c && c <= '9'
}

/// A character allowed at position `i` of a legacy metric name.
pub open spec fn legacy_char(c: char, i: int) -> bool {
    is_ascii_alpha(c) || c == '_' || c == ':' || (is_ascii_digit(c) && i > 0)
}

/// A character allowed at position `i` of a legacy label name.
pub open spec fn legacy_label_char(c: char, i: int) -> bool {
    is_ascii_alpha(c) || c == '_' || (is_ascii_digit(c) && i > 0)
}

/// A non-empty name made of legacy metric name characters only.
pub open spec fn legacy_metric_name(s: Seq<char>) -> bool {
    s.len() > 0 && forall|i: int| 0 <= i < s.len() ==> #[trigger] legacy_char(s[i], i)
}

/// A non-empty name made of legacy label name characters only.
pub open spec fn legacy_label_name(s: Seq<char>) -> bool {
    s.len() > 0 && forall|i: int| 0 <= i < s.len() ==> #[trigger] legacy_label_char(s[i], i)
}

/// An absent prefix, or one that is a legacy metric name.
pub open spec fn legacy_prefix(prefix: Option<Seq<char>>) -> bool {
    match prefix {
        Some(p) => legacy_metric_name(p),
        None => true,
    }
}

/// Whether `c` may stand at position `i` of a legacy metric name.
pub fn is_valid_legacy_char(c: char, i: usize) -> (r: bool)
    ensures
        r == legacy_char(c, i as int),
{
    ('a' <= c && c <= 'z') || ('A' <= c && c <= 'Z') || c == '_' || c == ':' || ('0' <= c
        && c <= '9' && i > 0)
}

/// Whether `name` is a valid legacy metric name.
pub fn is_valid_legacy_metric_name(name: &str) -> (r: bool)
    ensures
        r == legacy_metric_name(name@),
{
    let chars = chars_of(name);
    if chars.len() == 0 {
        return false;
    }
    let mut i: usize = 0;
    while i < chars.len()
        invariant
            i <= chars.len(),
            chars@ == name@,
            forall|j: int| 0 <= j < i ==> #[trigger] legacy_char(chars@[j], j),
        decreases chars.len() - i,
    {
        if !is_valid_legacy_char(chars[i], i) {
            assert(!legacy_char(chars@[i as int], i as int));
            return false;
        }
        i += 1;
    }
    true
}

/// Whether the prefix, if any, is a valid legacy metric name.
pub fn is_valid_legacy_prefix(prefix: Option<&Prefix>) -> (r: bool)
    ensures
        r == legacy_prefix(
            match prefix {
                Some(p) => Some(p@),
                None => None,
            },
        ),
{
    match prefix {
        Some(prefix) => is_valid_legacy_metric_name(prefix.as_str()),
        None => true,
    }
}

/// Whether a metric name must be quoted: under UTF-8 validation, when the
/// name or its prefix is not a legacy name.
pub fn is_quoted_metric_name(
    name: &str,
    prefix: Option<&Prefix>,
    validation_scheme: ValidationScheme,
) -> (r: bool)
    ensures
        r == (validation_scheme == ValidationScheme::UTF8Validation && (!legacy_metric_name(
            name@,
        ) || !legacy_prefix(
            match prefix {
                Some(p) => Some(p@),
                None => None,
            },
        ))),
{
    validation_scheme == ValidationScheme::UTF8Validation && (!is_valid_legacy_metric_name(name)
        || !is_valid_legacy_prefix(prefix))
}

/// Whether `label_name` is a valid legacy label name.
pub fn is_valid_legacy_label_name(label_name: &str) -> (r: bool)
    ensures
        r == legacy_label_name(label_name@),
{
    let chars = chars_of(label_name);
    if chars.len() == 0 {
        return false;
    }
    let mut i: usize = 0;
    while i < chars.len()
        invariant
            i <= chars.len(),
            chars@ == label_name@,
            forall|j: int| 0 <= j < i ==> #[trigger] legacy_label_char(chars@[j], j),
        decreases chars.len() - i,
    {
        let b = chars[i];
        if !(('a' <= b && b <= 'z') || ('A' <= b && b <= 'Z') || b == '_' || ('0' <= b && b <= '9'
            && i > 0)) {
            assert(!legacy_label_char(chars@[i as int], i as int));
            return false;
        }
        i += 1;
    }
    true
}

/// Whether a label name must be quoted: under UTF-8 validation, when it is
/// not a legacy label name.
pub fn is_quoted_label_name(name: &str, validation_scheme: ValidationScheme) -> (r: bool)
    ensures
        r == (validation_scheme == ValidationScheme::UTF8Validation && !legacy_label_name(name@)),
{
    validation_scheme == ValidationScheme::UTF8Validation && !is_valid_legacy_label_name(name)
}

/// Enum for determining how metric and label names will be escaped.
#[derive(Debug, PartialEq, Eq, Structural, Clone, Copy)]
pub enum EscapingScheme {
    /// Replaces all legacy-invalid characters with underscores.
    UnderscoreEscaping,
    /// Similar to UnderscoreEscaping, except that dots are converted to
    /// `_dot_` and pre-existing underscores are converted to `__`.
    DotsEscaping,
    /// Prepends the name with `U__` and replaces all invalid characters with
    /// the Unicode value, surrounded by underscores. Single underscores are
    /// replaced with double underscores.
    ValueEncodingEscaping,
    /// Indicates that a name will not be escaped.
    NoEscaping,
}

impl Default for EscapingScheme {
    fn default() -> (r: Self)
        ensures
            r == EscapingScheme::UnderscoreEscaping,
    {
        EscapingScheme::UnderscoreEscaping
    }
}

/// The name of an escaping scheme, as it appears in a negotiation header.
pub open spec fn escaping_scheme_name(scheme: EscapingScheme) -> Seq<char> {
    match scheme {
        EscapingScheme::UnderscoreEscaping => "underscores"@,
        EscapingScheme::DotsEscaping => "dots"@,
        EscapingScheme::ValueEncodingEscaping => "values"@,
        EscapingScheme::NoEscaping => "allow-utf-8"@,
    }
}

impl EscapingScheme {
    /// Returns a string representation of a `EscapingScheme`.
    pub fn as_str(&self) -> (r: &str)
        ensures
            r@ == escaping_scheme_name(*self),
    {
        match self {
            EscapingScheme::UnderscoreEscaping => "underscores",
            EscapingScheme::DotsEscaping => "dots",
            EscapingScheme::ValueEncodingEscaping => "values",
            EscapingScheme::NoEscaping => "allow-utf-8",
        }
    }
}

/// What underscore escaping makes of the character at position `i`.
pub open spec fn underscore_piece(c: char, i: int) -> Seq<char> {
    if legacy_char(c, i) {
        seq![c]
    } else {
        seq!['_']
    }
}

/// What dots escaping makes of the character at position `i`.
pub open spec fn dots_piece(c: char, i: int) -> Seq<char> {
    if c == '_' {
        seq!['_', '_']
    } else if c == '.' {
        seq!['_', 'd', 'o', 't', '_']
    } else if legacy_char(c, i) {
        seq![c]
    } else {
        seq!['_', '_']
    }
}

/// What value-encoding escaping makes of the character at position `i`.
pub open spec fn value_piece(c: char, i: int) -> Seq<char> {
    if c == '_' {
        seq!['_', '_']
    } else if legacy_char(c, i) {
        seq![c]
    } else {
        seq!['_'] + hex_digits((c as u32) as nat) + seq!['_']
    }
}

/// The pieces of all characters of `s`, per `scheme`, concatenated.
pub open spec fn escaped_chars(s: Seq<char>, scheme: EscapingScheme) -> Seq<char>
    decreases s.len(),
{
    if s.len() == 0 {
        seq![]
    } else {
        let i = s.len() - 1;
        escaped_chars(s.drop_last(), scheme) + match scheme {
            EscapingScheme::UnderscoreEscaping => underscore_piece(s[i], i),
            EscapingScheme::DotsEscaping => dots_piece(s[i], i),
            _ => value_piece(s[i], i),
        }
    }
}

/// The escaped form of `name` under `scheme`.
pub open spec fn spec_escape_name(name: Seq<char>, scheme: EscapingScheme) -> Seq<char> {
    if name.len() == 0 {
        name
    } else {
        match scheme {
            EscapingScheme::NoEscaping => name,
            EscapingScheme::UnderscoreEscaping => if legacy_metric_name(name) {
                name
            } else {
                escaped_chars(name, scheme)
            },
            EscapingScheme::DotsEscaping => escaped_chars(name, scheme),
            EscapingScheme::ValueEncodingEscaping => if legacy_metric_name(name) {
                name
            } else {
                seq!['U', '_', '_'] + escaped_chars(name, scheme)
            },
        }
    }
}

proof fn lemma_escaped_chars_step(s: Seq<char>, n: int, scheme: EscapingScheme)
    requires
        0 <= n < s.len(),
    ensures
        escaped_chars(s.take(n + 1), scheme) == escaped_chars(s.take(n), scheme) + match scheme {
            EscapingScheme::UnderscoreEscaping => underscore_piece(s[n], n),
            EscapingScheme::DotsEscaping => dots_piece(s[n], n),
            _ => value_piece(s[n], n),
        },
{
    assert(s.take(n + 1).drop_last() =~= s.take(n));
}

/// Appends the escaped form of every character of `chars` to `out`.
fn push_escaped_chars(out: &mut String, chars: &Vec<char>, scheme: EscapingScheme)
    requires
        scheme != EscapingScheme::NoEscaping,
    ensures
        final(out)@ == old(out)@ + escaped_chars(chars@, scheme),
{
    let ghost start = out@;
    let mut i: usize = 0;
    while i < chars.len()
        invariant
            i <= chars.len(),
            scheme != EscapingScheme::NoEscaping,
            out@ == start + escaped_chars(chars@.take(i as int), scheme),
        decreases chars.len() - i,
    {
        let b = chars[i];
        proof {
            lemma_escaped_chars_step(chars@, i as int, scheme);
        }
        match scheme {
            EscapingScheme::UnderscoreEscaping => {
                if is_valid_legacy_char(b, i) {
                    out.push(b);
                } else {
                    out.push('_');
                }
            },
            EscapingScheme::DotsEscaping => {
                if b == '_' {
                    out.append("__");
                } else if b == '.' {
                    out.append("_dot_");
                } else if is_valid_legacy_char(b, i) {
                    out.push(b);
                } else {
                    out.append("__");
                }
                proof {
                    reveal_strlit("__");
                    reveal_strlit("_dot_");
                }
            },
            _ => {
                if b == '_' {
                    out.append("__");
                } else if is_valid_legacy_char(b, i) {
                    out.push(b);
                } else {
                    out.push('_');
                    push_hex(out, b as u32);
                    out.push('_');
                }
                proof {
                    reveal_strlit("__");
                }
            },
        }
        i += 1;
    }
    assert(chars@.take(chars@.len() as int) =~= chars@);
}

/// Every hexadecimal digit may stand at any position of a legacy metric name
/// but the first.
proof fn lemma_hex_digits_legal(n: nat)
    ensures
        hex_digits(n).len() >= 1,
        forall|k: int| 0 <= k < hex_digits(n).len() ==> legacy_char(#[trigger] hex_digits(n)[k], 1),
    decreases n,
{
    if n >= 16 {
        lemma_hex_digits_legal(n / 16);
        let h = hex_digits(n / 16);
        assert(hex_digits(n) == h.push(crate::util::hex_char(n % 16)));
        assert forall|k: int| 0 <= k < hex_digits(n).len() implies legacy_char(
            #[trigger] hex_digits(n)[k],
            1,
        ) by {
            if k < h.len() {
                assert(hex_digits(n)[k] == h[k]);
            }
        }
    }
}

/// The escaped characters are at least as many as the characters, and each
/// is legal at its position (shifted by `off`) in a legacy metric name.
proof fn lemma_escaped_chars_legal(s: Seq<char>, scheme: EscapingScheme, off: int)
    requires
        off >= 0,
    ensures
        escaped_chars(s, scheme).len() >= s.len(),
        forall|k: int|
            0 <= k < escaped_chars(s, scheme).len() ==> legacy_char(
                #[trigger] escaped_chars(s, scheme)[k],
                k + off,
            ),
    decreases s.len(),
{
    if s.len() > 0 {
        let i = s.len() - 1;
        let prev = escaped_chars(s.drop_last(), scheme);
        lemma_escaped_chars_legal(s.drop_last(), scheme, off);
        let piece = match scheme {
            EscapingScheme::UnderscoreEscaping => underscore_piece(s[i], i),
            EscapingScheme::DotsEscaping => dots_piece(s[i], i),
            _ => value_piece(s[i], i),
        };
        let e = escaped_chars(s, scheme);
        assert(e == prev + piece);
        lemma_hex_digits_legal((s[i] as u32) as nat);
        assert forall|k: int| 0 <= k < e.len() implies legacy_char(#[trigger] e[k], k + off) by {
            if k < prev.len() {
                assert(e[k] == prev[k]);
            } else {
                let j = k - prev.len();
                assert(e[k] == piece[j]);
                if !legacy_char(s[i], i) && s[i] != '_' && s[i] != '.' && j > 0 && j < piece.len()
                    - 1 {
                    let h = hex_digits((s[i] as u32) as nat);
                    if scheme != EscapingScheme::UnderscoreEscaping && scheme
                        != EscapingScheme::DotsEscaping {
                        assert(piece == seq!['_'] + h + seq!['_']);
                        assert(piece[j] == h[j - 1]);
                    }
                }
            }
        }
    }
}

/// Escaping a non-empty name with any scheme but `NoEscaping` gives a valid
/// legacy metric name.
pub proof fn lemma_escape_gives_legacy_name(name: Seq<char>, scheme: EscapingScheme)
    requires
        name.len() > 0,
        scheme != EscapingScheme::NoEscaping,
    ensures
        legacy_metric_name(spec_escape_name(name, scheme)),
{
    match scheme {
        EscapingScheme::ValueEncodingEscaping => {
            if !legacy_metric_name(name) {
                lemma_escaped_chars_legal(name, scheme, 3);
                let e = escaped_chars(name, scheme);
                let r = seq!['U', '_', '_'] + e;
                assert forall|k: int| 0 <= k < r.len() implies #[trigger] legacy_char(r[k], k) by {
                    if k >= 3 {
                        assert(r[k] == e[k - 3]);
                    }
                }
            }
        },
        _ => {
            lemma_escaped_chars_legal(name, scheme, 0);
        },
    }
}

/// Underscore and value-encoding escaping, and no escaping, leave a valid
/// legacy metric name as it is.
pub proof fn lemma_escape_keeps_legacy_name(name: Seq<char>, scheme: EscapingScheme)
    requires
        legacy_metric_name(name),
        scheme != EscapingScheme::DotsEscaping,
    ensures
        spec_escape_name(name, scheme) == name,
{
}

/// Escapes `name` according to `scheme`.
pub fn escape_name(name: &str, scheme: EscapingScheme) -> (r: Cow<'_, str>)
    ensures
        r@ == spec_escape_name(name@, scheme),
{
    if name.is_empty() {
        return Cow::Borrowed(name);
    }
    match scheme {
        EscapingScheme::NoEscaping => Cow::Borrowed(name),
        EscapingScheme::UnderscoreEscaping if is_valid_legacy_metric_name(name) => Cow::Borrowed(
            name,
        ),
        EscapingScheme::ValueEncodingEscaping if is_valid_legacy_metric_name(name) => Cow::Borrowed(
            name,
        ),
        EscapingScheme::UnderscoreEscaping | EscapingScheme::DotsEscaping => {
            let chars = chars_of(name);
            let mut escaped = String::new();
            push_escaped_chars(&mut escaped, &chars, scheme);
            Cow::Owned(escaped)
        },
        EscapingScheme::ValueEncodingEscaping => {
            let chars = chars_of(name);
            let mut escaped = String::new();
            escaped.append("U__");
            proof {
                reveal_strlit("U__");
            }
            push_escaped_chars(&mut escaped, &chars, scheme);
            Cow::Owned(escaped)
        },
    }
}

/// `needle` occurs in `hay` starting at position `i`.
pub open spec fn occurs_at(hay: Seq<char>, needle: Seq<char>, i: int) -> bool {
    0 <= i && i + needle.len() <= hay.len() && hay.subrange(i, i + needle.len()) == needle
}

/// `needle` occurs somewhere in `hay`.
pub open spec fn contains_seq(hay: Seq<char>, needle: Seq<char>) -> bool {
    exists|i: int| occurs_at(hay, needle, i)
}

/// Whether `needle` occurs in `hay`.
fn str_contains(hay: &str, needle: &str) -> (r: bool)
    ensures
        r == contains_seq(hay@, needle@),
{
    let h = chars_of(hay);
    let n = chars_of(needle);
    if n.len() > h.len() {
        assert forall|i: int| !occurs_at(h@, n@, i) by {}
        return false;
    }
    let mut i: usize = 0;
    while i <= h.len() - n.len()
        invariant
            n.len() <= h.len(),
            h@ == hay@,
            n@ == needle@,
            i <= h.len() - n.len() + 1,
            forall|k: int| 0 <= k < i ==> !#[trigger] occurs_at(h@, n@, k),
        decreases h.len() - n.len() + 1 - i,
    {
        let mut j: usize = 0;
        let mut same = true;
        while j < n.len()
            invariant
                n.len() <= h.len(),
                i <= h.len() - n.len(),
                j <= n.len(),
                same == (forall|k: int| 0 <= k < j ==> h@[i + k] == n@[k]),
            decreases n.len() - j,
        {
            if h[i + j] != n[j] {
                same = false;
            }
            j += 1;
        }
        if same {
            assert(h@.subrange(i as int, i + n.len()) =~= n@);
            assert(occurs_at(h@, n@, i as int));
            return true;
        }
        assert(!occurs_at(h@, n@, i as int)) by {
            if h@.subrange(i as int, i + n.len()) == n@ {
                assert forall|k: int| 0 <= k < n.len() implies h@[i + k] == n@[k] by {
                    assert(h@.subrange(i as int, i + n.len())[k] == h@[i + k]);
                }
            }
        }
        i += 1;
    }
    false
}

/// The escaping scheme that a negotiation header selects.
pub open spec fn spec_negotiate(header: Seq<char>, default: EscapingScheme) -> EscapingScheme {
    if contains_seq(header, "underscores"@) {
        EscapingScheme::UnderscoreEscaping
    } else if contains_seq(header, "dots"@) {
        EscapingScheme::DotsEscaping
    } else if contains_seq(header, "values"@) {
        EscapingScheme::ValueEncodingEscaping
    } else if contains_seq(header, "allow-utf-8"@) {
        EscapingScheme::NoEscaping
    } else {
        default
    }
}

/// The schemes go by the names of the OpenMetrics `escaping` parameter:
/// `underscores`, `dots`, `values` and `allow-utf-8`, one name each.
pub proof fn lemma_scheme_names()
    ensures
        escaping_scheme_name(EscapingScheme::UnderscoreEscaping) == "underscores"@,
        escaping_scheme_name(EscapingScheme::DotsEscaping) == "dots"@,
        escaping_scheme_name(EscapingScheme::ValueEncodingEscaping) == "values"@,
        escaping_scheme_name(EscapingScheme::NoEscaping) == "allow-utf-8"@,
        forall|a: EscapingScheme, b: EscapingScheme|
            #[trigger] escaping_scheme_name(a) == #[trigger] escaping_scheme_name(b) ==> a == b,
{
    reveal_strlit("underscores");
    reveal_strlit("dots");
    reveal_strlit("values");
    reveal_strlit("allow-utf-8");
    assert forall|a: EscapingScheme, b: EscapingScheme|
        #[trigger] escaping_scheme_name(a) == #[trigger] escaping_scheme_name(b) implies a == b by {
        let (x, y) = (escaping_scheme_name(a), escaping_scheme_name(b));
        if a != b {
            assert(x.len() != y.len() || x[0] != y[0]);
        }
    }
}

/// The header names the scheme `s` and no other scheme.
pub open spec fn names_only(header: Seq<char>, s: EscapingScheme) -> bool {
    &&& contains_seq(header, escaping_scheme_name(s))
    &&& forall|t: EscapingScheme|
        t != s ==> !contains_seq(header, #[trigger] escaping_scheme_name(t))
}

/// The header names no scheme.
pub open spec fn names_none(header: Seq<char>) -> bool {
    forall|t: EscapingScheme| !contains_seq(header, #[trigger] escaping_scheme_name(t))
}

/// Negotiation gives back the scheme that a header names: a header that
/// names exactly one scheme, by the name that scheme goes by, negotiates to
/// that scheme whatever the default; a header that names none negotiates to
/// the default.
pub proof fn lemma_negotiate_names(header: Seq<char>, s: EscapingScheme, default: EscapingScheme)
    ensures
        names_only(header, s) ==> spec_negotiate(header, default) == s,
        names_none(header) ==> spec_negotiate(header, default) == default,
{
    reveal_strlit("underscores");
    reveal_strlit("dots");
    reveal_strlit("values");
    reveal_strlit("allow-utf-8");
    assert(escaping_scheme_name(EscapingScheme::UnderscoreEscaping) == "underscores"@);
    assert(escaping_scheme_name(EscapingScheme::DotsEscaping) == "dots"@);
    assert(escaping_scheme_name(EscapingScheme::ValueEncodingEscaping) == "values"@);
    assert(escaping_scheme_name(EscapingScheme::NoEscaping) == "allow-utf-8"@);
}

/// Returns the escaping scheme to use based on the given header.
pub fn negotiate_escaping_scheme(header: &str, default_escaping_scheme: EscapingScheme) -> (r:
    EscapingScheme)
    ensures
        r == spec_negotiate(header@, default_escaping_scheme),
        forall|s: EscapingScheme| #[trigger] names_only(header@, s) ==> r == s,
        names_none(header@) ==> r == default_escaping_scheme,
{
    proof {
        assert forall|s: EscapingScheme| #[trigger] names_only(header@, s) implies spec_negotiate(
            header@,
            default_escaping_scheme,
        ) == s by {
            lemma_negotiate_names(header@, s, default_escaping_scheme);
        }
        lemma_negotiate_names(header@, EscapingScheme::NoEscaping, default_escaping_scheme);
    }
    if str_contains(header, "underscores") {
        return EscapingScheme::UnderscoreEscaping;
    }
    if str_contains(header, "dots") {
        return EscapingScheme::DotsEscaping;
    }
    if str_contains(header, "values") {
        return EscapingScheme::ValueEncodingEscaping;
    }
    if str_contains(header, "allow-utf-8") {
        return EscapingScheme::NoEscaping;
    }
    default_escaping_scheme
}

} // verus!
