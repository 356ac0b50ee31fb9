//! Module implementing Open Metrics exemplars for counters.
//!
//! See [`CounterWithExemplarInner`] for details.
use vstd::prelude::*;

use crate::metrics::counter::{Atomic, Counter};

verus! {

/// An OpenMetrics exemplar: a label set referring to data outside of the
/// metric set, and the value that it was recorded with.
#[derive(Debug)]
pub struct Exemplar<S, V> {
    pub(crate) label_set: S,
    pub(crate) value: V,
}

impl<S, V> Exemplar<S, V> {
    /// The label set of the exemplar.
    pub closed spec fn spec_label_set(&self) -> S {
        self.label_set
    }

    /// The value of the exemplar.
    pub closed spec fn spec_value(&self) -> V {
        self.value
    }

    /// The label set of the exemplar.
    pub fn label_set(&self) -> (r: &S)
        ensures
            *r == self.spec_label_set(),
    {
        &self.label_set
    }

    /// The value of the exemplar.
    pub fn value(&self) -> (r: &V)
        ensures
            *r == self.spec_value(),
    {
        &self.value
    }
}

/// An OpenMetrics [`Counter`] in combination with an OpenMetrics
/// [`Exemplar`]: the exemplar of the last increase that came with a label
/// set.
pub struct CounterWithExemplarInner<S, N, A> {
    pub(crate) exemplar: Option<Exemplar<S, N>>,
    pub(crate) counter: Counter<N, A>,
}

impl<S, N, A> CounterWithExemplarInner<S, N, A> {
    /// The current exemplar.
    pub closed spec fn spec_exemplar(&self) -> Option<Exemplar<S, N>> {
        self.exemplar
    }

    /// The counter.
    pub closed spec fn spec_counter(&self) -> Counter<N, A> {
        self.counter
    }
}

impl<S, N, A: Default> Default for CounterWithExemplarInner<S, N, A> {
    fn default() -> (r: Self)
        ensures
            r.spec_exemplar() is None,
    {
        CounterWithExemplarInner { exemplar: None, counter: Counter::default() }
    }
}

impl<S, N: Clone, A: Atomic<N>> CounterWithExemplarInner<S, N, A> {
    /// Increase the counter by `v`, returning the previous value. With a
    /// label set, the exemplar becomes that label set and a clone of `v`;
    /// without one, there is no exemplar any more.
    pub fn inc_by(&mut self, v: N, label_set: Option<S>) -> (r: N)
        ensures
            final(self).spec_counter() == old(self).spec_counter(),
            match label_set {
                Some(l) => final(self).spec_exemplar() matches Some(e) && e.spec_label_set() == l
                    && cloned(v, e.spec_value()),
                None => final(self).spec_exemplar() is None,
            },
    {
        self.exemplar = match label_set {
            Some(label_set) => Some(Exemplar { label_set, value: v.clone() }),
            None => None,
        };
        self.counter.inc_by(v)
    }

    /// The current value of the counter and the exemplar, if any.
    pub fn get(&self) -> (r: (N, &Option<Exemplar<S, N>>))
        ensures
            *r.1 == self.spec_exemplar(),
    {
        (self.counter.get(), &self.exemplar)
    }

    /// The counter.
    pub fn counter(&self) -> (r: &Counter<N, A>)
        ensures
            *r == self.spec_counter(),
    {
        &self.counter
    }
}

} // verus!
