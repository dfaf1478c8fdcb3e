use vstd::prelude::*;

use std::sync::Arc;

verus! {

/// A handle on a value that several parts of the server read, such as the
/// list of admins: every copy of the handle shows the same value.
pub struct SharedPointer<T> {
    pointer: Arc<T>,
}

impl<T> SharedPointer<T> {
    /// A handle on the value that `pointer` shares.
    pub fn new(pointer: &Arc<T>) -> (r: SharedPointer<T>)
        ensures
            *r.value() == **pointer,
    {
        SharedPointer { pointer: Arc::clone(pointer) }
    }

    /// The shared value.
    pub closed spec fn value(&self) -> &T {
        &*self.pointer
    }

    pub fn get_pointer(&self) -> (r: &T)
        ensures
            *r == *self.value(),
    {
        &*self.pointer
    }

    /// Another handle on the same value.
    pub fn share(&self) -> (r: SharedPointer<T>)
        ensures
            *r.value() == *self.value(),
    {
        SharedPointer { pointer: Arc::clone(&self.pointer) }
    }
}

impl<T> std::ops::Deref for SharedPointer<T> {
    type Target = T;

    fn deref(&self) -> (r: &T)
        ensures
            *r == *self.value(),
    {
        &*self.pointer
    }
}

} // verus!
