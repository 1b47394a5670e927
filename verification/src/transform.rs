//! Applying a function to a value in method position.

use vstd::prelude::*;

verus! {

pub trait Transformation<F: FnOnce(T) -> R, T: Sized, R: Sized> {
    /// The value that `f` is applied to.
    spec fn transformed(self) -> T;

    /// Hands `self` to `f` and returns what `f` made of it.
    fn transformation(self, f: F) -> (r: R)
        requires
            call_requires(f, (self.transformed(),)),
        ensures
            call_ensures(f, (self.transformed(),), r),
    ;
}

impl<F: FnOnce(T) -> R, T: Sized, R: Sized> Transformation<F, T, R> for T {
    open spec fn transformed(self) -> T {
        self
    }

    fn transformation(self, f: F) -> (r: R) {
        f(self)
    }
}

} // verus!
