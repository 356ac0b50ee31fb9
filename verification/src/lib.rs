//! Client library implementation of the Open Metrics specification.
//!
//! Metrics are registered with a [`registry::Registry`] and exposed with the
//! text encoder of [`encoding::text`] or as the protobuf messages of
//! [`encoding::protobuf`].
use vstd::prelude::*;

pub mod collector;
pub mod counter;
pub mod encoding;
pub mod gauge;
pub mod label;
pub mod metrics;
pub mod process;
pub mod registry;
pub mod util;

verus! {

/// Represents either borrowed or owned data.
///
/// In contrast to [`std::borrow::Cow`] does not require
/// [`std::borrow::ToOwned`] or [`Clone`] respectively.
#[derive(Debug)]
pub enum MaybeOwned<'a, T> {
    /// Owned data
    Owned(T),
    /// Borrowed data
    Borrowed(&'a T),
}

impl<'a, T> MaybeOwned<'a, T> {
    /// The data, owned or borrowed.
    pub open spec fn data(&self) -> T {
        match self {
            MaybeOwned::Owned(t) => *t,
            MaybeOwned::Borrowed(t) => **t,
        }
    }
}

impl<'a, T> std::ops::Deref for MaybeOwned<'a, T> {
    type Target = T;

    fn deref(&self) -> (r: &T)
        ensures
            *r == self.data(),
    {
        match self {
            MaybeOwned::Owned(t) => t,
            MaybeOwned::Borrowed(t) => t,
        }
    }
}

} // verus!
