//! A wrapper that holds one value and gives it back by reference.

use vstd::prelude::*;

verus! {

/// One value behind a pointer-like wrapper.
pub struct MyBox<T>(T);

impl<T> View for MyBox<T> {
    type V = T;

    /// The value inside.
    closed spec fn view(&self) -> T {
        self.0
    }
}

impl<T> MyBox<T> {
    /// Wraps a value.
    pub fn new(x: T) -> (b: MyBox<T>)
        ensures
            b@ == x,
    {
        MyBox(x)
    }
}

impl<T> std::ops::Deref for MyBox<T> {
    type Target = T;

    /// A reference to the value inside.
    fn deref(&self) -> (r: &T)
        ensures
            *r == self@,
    {
        &self.0
    }
}

} // verus!
