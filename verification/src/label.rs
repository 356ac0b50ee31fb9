//! Label sets of metric families.
use vstd::prelude::*;

verus! {

/// A set of labels that tells the metrics of a family apart.
pub trait LabelSet: std::hash::Hash + Eq {

}

impl LabelSet for Vec<(String, String)> {

}

} // verus!
