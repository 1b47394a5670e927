//! Peeking at the inside of a `Result` or an `Option` without taking it apart.
//!
//! Each method calls a function on the variant it is named after and hands the
//! value back unchanged. Every trait names, as a spec function, the value that
//! the function is applied to, so that a caller owes the function's
//! precondition for that value only.

use vstd::prelude::*;

verus! {

pub trait ResultInspect<F: FnOnce(&T), T: Sized> {
    /// The success value, which `f` is applied to.
    spec fn inspected_ok(&self) -> Option<T>;

    /// Call function when ok.
    fn inspect_ok(self, f: F) -> (r: Self)
        requires
            self.inspected_ok() matches Some(o) ==> call_requires(f, (&o,)),
        ensures
            r == self,
            self.inspected_ok() matches Some(o) ==> call_ensures(f, (&o,), ()),
    ;
}

pub trait ResultInspectRef<F: FnOnce(&T), T: Sized> {
    /// The success value, which `f` is applied to.
    spec fn inspected_ok_ref(&self) -> Option<T>;

    /// Call function when ok, but doesn't move.
    fn inspect_ref(&self, f: F) -> (r: &Self)
        requires
            self.inspected_ok_ref() matches Some(o) ==> call_requires(f, (&o,)),
        ensures
            r == self,
            self.inspected_ok_ref() matches Some(o) ==> call_ensures(f, (&o,), ()),
    ;
}

pub trait ResultInspectErr<F: FnOnce(&E), E: Sized> {
    /// The error value, which `f` is applied to.
    spec fn inspected_error(&self) -> Option<E>;

    /// Call function when error.
    fn inspect_error(self, f: F) -> (r: Self)
        requires
            self.inspected_error() matches Some(e) ==> call_requires(f, (&e,)),
        ensures
            r == self,
            self.inspected_error() matches Some(e) ==> call_ensures(f, (&e,), ()),
    ;
}

pub trait ResultInspectErrRef<F: FnOnce(&E), E: Sized> {
    /// The error value, which `f` is applied to.
    spec fn inspected_error_ref(&self) -> Option<E>;

    /// Call function when error, but doesn't move.
    fn inspect_err_ref(&self, f: F) -> (r: &Self)
        requires
            self.inspected_error_ref() matches Some(e) ==> call_requires(f, (&e,)),
        ensures
            r == self,
            self.inspected_error_ref() matches Some(e) ==> call_ensures(f, (&e,), ()),
    ;
}

pub trait OptionInspect<F: FnOnce(&T), T: Sized> {
    /// The held value, which `f` is applied to.
    spec fn inspected_some(&self) -> Option<T>;

    /// Call function when some.
    fn inspect_some(self, f: F) -> (r: Self)
        requires
            self.inspected_some() matches Some(o) ==> call_requires(f, (&o,)),
        ensures
            r == self,
            self.inspected_some() matches Some(o) ==> call_ensures(f, (&o,), ()),
    ;
}

pub trait OptionInspectRef<F: FnOnce(&T), T: Sized> {
    /// The held value, which `f` is applied to.
    spec fn inspected_some_ref(&self) -> Option<T>;

    /// Call function when some, but doesn't move.
    fn inspect_ref(&self, f: F) -> (r: &Self)
        requires
            self.inspected_some_ref() matches Some(o) ==> call_requires(f, (&o,)),
        ensures
            r == self,
            self.inspected_some_ref() matches Some(o) ==> call_ensures(f, (&o,), ()),
    ;
}

pub trait OptionInspectNone<F: FnOnce()> {
    /// Whether nothing is held, which is when `f` is called.
    spec fn inspected_none(&self) -> bool;

    /// Call function when none.
    fn inspect_none(self, f: F) -> (r: Self)
        requires
            self.inspected_none() ==> call_requires(f, ()),
        ensures
            r == self,
            self.inspected_none() ==> call_ensures(f, (), ()),
    ;
}

pub trait OptionInspectNoneRef<F: FnOnce()> {
    /// Whether nothing is held, which is when `f` is called.
    spec fn inspected_none_ref(&self) -> bool;

    /// Call function when none, but doesn't move.
    fn inspect_none_ref(&self, f: F) -> (r: &Self)
        requires
            self.inspected_none_ref() ==> call_requires(f, ()),
        ensures
            r == self,
            self.inspected_none_ref() ==> call_ensures(f, (), ()),
    ;
}

impl<F: FnOnce(&T), T: Sized, E> ResultInspect<F, T> for Result<T, E> {
    open spec fn inspected_ok(&self) -> Option<T> {
        match *self {
            Ok(o) => Some(o),
            Err(_) => None,
        }
    }

    fn inspect_ok(self, f: F) -> (r: Self) {
        if let Ok(o) = self.as_ref() {
            f(o);
        }
        self
    }
}

impl<F: FnOnce(&T), T: Sized, E> ResultInspectRef<F, T> for Result<T, E> {
    open spec fn inspected_ok_ref(&self) -> Option<T> {
        match *self {
            Ok(o) => Some(o),
            Err(_) => None,
        }
    }

    fn inspect_ref(&self, f: F) -> (r: &Self) {
        if let Ok(o) = self {
            f(o);
        }
        self
    }
}

impl<F: FnOnce(&E), T, E: Sized> ResultInspectErr<F, E> for Result<T, E> {
    open spec fn inspected_error(&self) -> Option<E> {
        match *self {
            Ok(_) => None,
            Err(e) => Some(e),
        }
    }

    fn inspect_error(self, f: F) -> (r: Self) {
        if let Err(e) = self.as_ref() {
            f(e);
        }
        self
    }
}

impl<F: FnOnce(&E), T, E: Sized> ResultInspectErrRef<F, E> for Result<T, E> {
    open spec fn inspected_error_ref(&self) -> Option<E> {
        match *self {
            Ok(_) => None,
            Err(e) => Some(e),
        }
    }

    fn inspect_err_ref(&self, f: F) -> (r: &Self) {
        if let Err(e) = self {
            f(e);
        }
        self
    }
}

impl<F: FnOnce(&T), T: Sized> OptionInspect<F, T> for Option<T> {
    open spec fn inspected_some(&self) -> Option<T> {
        *self
    }

    fn inspect_some(self, f: F) -> (r: Self) {
        if let Some(o) = self.as_ref() {
            f(o);
        }
        self
    }
}

impl<F: FnOnce(&T), T: Sized> OptionInspectRef<F, T> for Option<T> {
    open spec fn inspected_some_ref(&self) -> Option<T> {
        *self
    }

    fn inspect_ref(&self, f: F) -> (r: &Self) {
        if let Some(o) = self {
            f(o);
        }
        self
    }
}

impl<F: FnOnce(), T> OptionInspectNone<F> for Option<T> {
    open spec fn inspected_none(&self) -> bool {
        *self is None
    }

    fn inspect_none(self, f: F) -> (r: Self) {
        if let None = self.as_ref() {
            f();
        }
        self
    }
}

impl<F: FnOnce(), T> OptionInspectNoneRef<F> for Option<T> {
    open spec fn inspected_none_ref(&self) -> bool {
        *self is None
    }

    fn inspect_none_ref(&self, f: F) -> (r: &Self) {
        if let None = self {
            f();
        }
        self
    }
}

} // verus!
