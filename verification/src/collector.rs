//! Metric collector implementation.
//!
//! See [`Collector`] for details.
use vstd::prelude::*;

use crate::encoding::DescriptorEncoder;

verus! {

/// The [`Collector`] abstraction allows users to provide additional metrics and
/// their description on each scrape.
///
/// An example use-case is an exporter that retrieves a set of operating system
/// metrics ad-hoc on each scrape.
///
/// Register a [`Collector`] with a [`Registry`](crate::registry::Registry) via
/// [`Registry::register_collector`](crate::registry::Registry::register_collector).
pub trait Collector: Send + Sync + 'static {
    /// What encoding the collector does to an encoder: `before` becomes
    /// `after`. A collector states it by overriding this; one that does not
    /// states nothing more than that the encoder grows.
    open spec fn collects(&self, before: DescriptorEncoder, after: DescriptorEncoder) -> bool {
        true
    }

    /// Once the [`Collector`] is registered, this method is called on each
    /// scrape. It adds its metrics to the encoder, in the encoder's format.
    fn encode(&self, encoder: &mut DescriptorEncoder) -> (r: Result<(), std::fmt::Error>)
        ensures
            r is Ok ==> old(encoder).grows_to(*final(encoder)),
            r is Ok ==> self.collects(*old(encoder), *final(encoder)),
    ;
}

} // verus!
