//! A counter whose value store is chosen by its type.
//!
//! See [`Counter`] for details.
use std::sync::atomic::{AtomicU32, AtomicU64, Ordering};
use std::sync::Arc;
use vstd::prelude::*;

verus! {

/// A monotonically increasing value, stored in an atomic `A` that clones of
/// the counter share.
pub struct Counter<A> {
    value: Arc<A>,
}

impl<A> Counter<A> {
    /// The value store of the counter.
    pub closed spec fn store(&self) -> A {
        *self.value
    }
}

impl<A> Clone for Counter<A> {
    fn clone(&self) -> (r: Self)
        ensures
            r.store() == self.store(),
    {
        Counter { value: Arc::clone(&self.value) }
    }
}

impl<A: Atomic> Counter<A> {
    /// A counter whose store starts at zero.
    pub fn new() -> Self {
        Counter { value: Arc::new(A::new()) }
    }

    /// Increase the counter by 1, returning the previous value.
    pub fn inc(&self) -> A::Number {
        self.value.inc()
    }

    /// Get the current value of the counter.
    pub fn get(&self) -> A::Number {
        self.value.get()
    }
}

/// Atomic operations for a [`Counter`] value store.
///
/// The store is shared between threads, so nothing is stated here of the
/// values that the operations return: another thread may change the store
/// at any time.
pub trait Atomic: Sized {
    /// The type of the value.
    type Number;

    /// A store holding zero.
    fn new() -> Self;

    /// Increase the value by 1, returning the previous value.
    fn inc(&self) -> Self::Number;

    /// Get the current value.
    fn get(&self) -> Self::Number;
}

impl<A: Default> Default for Counter<A> {
    fn default() -> Self {
        Counter { value: Arc::new(A::default()) }
    }
}

impl Atomic for AtomicU64 {
    type Number = u64;

    fn new() -> Self {
        AtomicU64::new(0)
    }

    fn inc(&self) -> Self::Number {
        self.fetch_add(1, Ordering::Relaxed)
    }

    fn get(&self) -> Self::Number {
        self.load(Ordering::Relaxed)
    }
}

impl Atomic for AtomicU32 {
    type Number = u32;

    fn new() -> Self {
        AtomicU32::new(0)
    }

    fn inc(&self) -> Self::Number {
        self.fetch_add(1, Ordering::Relaxed)
    }

    fn get(&self) -> Self::Number {
        self.load(Ordering::Relaxed)
    }
}

} // verus!
