//! A gauge whose value store is chosen by its type.
//!
//! See [`Gauge`] for details.
use std::sync::atomic::{AtomicU32, AtomicU64, Ordering};
use std::sync::Arc;
use vstd::prelude::*;

verus! {

/// A value that can go up and down, stored in an atomic `A` that clones of
/// the gauge share.
pub struct Gauge<A> {
    value: Arc<A>,
}

impl<A> Gauge<A> {
    /// The value store of the gauge.
    pub closed spec fn store(&self) -> A {
        *self.value
    }
}

impl<A> Clone for Gauge<A> {
    fn clone(&self) -> (r: Self)
        ensures
            r.store() == self.store(),
    {
        Gauge { value: Arc::clone(&self.value) }
    }
}

impl<A: Atomic> Gauge<A> {
    /// A gauge whose store starts at zero.
    pub fn new() -> Self {
        Gauge { value: Arc::new(A::new()) }
    }

    /// Increase the gauge by 1, returning the previous value.
    pub fn inc(&self) -> A::Number {
        self.value.inc()
    }

    /// Increase the gauge by `v`, returning the previous value.
    pub fn inc_by(&self, v: A::Number) -> A::Number {
        self.value.inc_by(v)
    }

    /// Set the gauge to `v`, returning the previous value.
    pub fn set(&self, v: A::Number) -> A::Number {
        self.value.set(v)
    }

    /// Get the current value of the gauge.
    pub fn get(&self) -> A::Number {
        self.value.get()
    }
}

/// Atomic operations for a [`Gauge`] value store.
///
/// The store is shared between threads, so nothing is stated here of the
/// values that the operations return: another thread may change the store
/// at any time.
pub trait Atomic: Sized {
    /// The type of the value.
    type Number;

    /// A store holding zero.
    fn new() -> Self;

    /// Increase the value by 1, returning the previous value.
    fn inc(&self) -> Self::Number;

    /// Increase the value by `v`, returning the previous value.
    fn inc_by(&self, v: Self::Number) -> Self::Number;

    /// Set the value to `v`, returning the previous value.
    fn set(&self, v: Self::Number) -> Self::Number;

    /// Get the current value.
    fn get(&self) -> Self::Number;
}

impl<A: Default> Default for Gauge<A> {
    fn default() -> Self {
        Gauge { value: Arc::new(A::default()) }
    }
}

impl Atomic for AtomicU64 {
    type Number = u64;

    fn new() -> Self {
        AtomicU64::new(0)
    }

    fn inc(&self) -> Self::Number {
        self.fetch_add(1, Ordering::Relaxed)
    }

    fn inc_by(&self, v: Self::Number) -> Self::Number {
        self.fetch_add(v, Ordering::Relaxed)
    }

    fn set(&self, v: Self::Number) -> Self::Number {
        self.swap(v, Ordering::Relaxed)
    }

    fn get(&self) -> Self::Number {
        self.load(Ordering::Relaxed)
    }
}

impl Atomic for AtomicU32 {
    type Number = u32;

    fn new() -> Self {
        AtomicU32::new(0)
    }

    fn inc(&self) -> Self::Number {
        self.fetch_add(1, Ordering::Relaxed)
    }

    fn inc_by(&self, v: Self::Number) -> Self::Number {
        self.fetch_add(v, Ordering::Relaxed)
    }

    fn set(&self, v: Self::Number) -> Self::Number {
        self.swap(v, Ordering::Relaxed)
    }

    fn get(&self) -> Self::Number {
        self.load(Ordering::Relaxed)
    }
}

} // verus!
