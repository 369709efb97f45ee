use vstd::prelude::*;

verus! {

/// A value wrapped so that it can serve as a unique marker.
pub struct Symbol<T> {
    inner: T,
}

impl<T> Symbol<T> {
    /// The wrapped value.
    pub closed spec fn value(&self) -> T {
        self.inner
    }

    /// Wraps `inner`.
    pub fn new(inner: T) -> (s: Self)
        ensures
            s.value() == inner,
    {
        Self { inner }
    }

    /// The wrapped value.
    pub fn get(&self) -> (r: &T)
        ensures
            *r == self.value(),
    {
        &self.inner
    }
}

} // verus!
