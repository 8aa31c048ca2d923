//! An optional value that is exchanged as a whole.
use vstd::prelude::*;

verus! {

/// A place that holds one boxed value or none.
#[derive(Debug)]
pub struct AtomicOption<T> {
    ptr: Option<Box<T>>,
}

/// What is in the box, if there is one.
pub open spec fn unboxed<T>(val: Option<Box<T>>) -> Option<T> {
    match val {
        Some(b) => Some(*b),
        None => None,
    }
}

impl<T> View for AtomicOption<T> {
    type V = Option<T>;

    closed spec fn view(&self) -> Option<T> {
        unboxed(self.ptr)
    }
}

impl<T> AtomicOption<T> {
    /// A place that holds nothing.
    pub fn empty() -> (place: AtomicOption<T>)
        ensures
            place@ is None,
    {
        AtomicOption { ptr: None }
    }

    /// Puts `val` in the place and hands back what was there.
    pub fn swap(&mut self, val: Option<Box<T>>) -> (previous: Option<Box<T>>)
        ensures
            final(self)@ == unboxed(val),
            unboxed(previous) == old(self)@,
    {
        let previous = self.ptr.take();
        self.ptr = val;
        previous
    }

    /// Empties the place and hands back what was there.
    pub fn take(&mut self) -> (previous: Option<Box<T>>)
        ensures
            final(self)@ is None,
            unboxed(previous) == old(self)@,
    {
        self.swap(None)
    }
}

} // verus!
