//! Callbacks that widgets and the event broker hold on behalf of the
//! application.

use vstd::prelude::*;
use core::marker::PhantomData;

verus! {

/// Something that can be told about a value of type `T`.
///
/// `received` is what is known once the listener has returned. Holders of a
/// listener can only establish it by making the call.
pub trait Listener<T> {
    spec fn received(&self, value: &T) -> bool;

    fn notify(&self, value: &T)
        ensures
            self.received(value),
    ;
}

/// A listener made of a closure that takes the value by reference and may be
/// called on every value.
pub struct FnListener<T, F: Fn(&T)> {
    call: F,
    marker: PhantomData<T>,
}

impl<T, F: Fn(&T)> FnListener<T, F> {
    #[verifier::type_invariant]
    spec fn accepts_everything(self) -> bool {
        forall|value: &T| call_requires(self.call, (value,))
    }

    /// The closure inside the listener.
    pub closed spec fn callee(self) -> F {
        self.call
    }

    /// Wraps a closure that may be called on every value.
    pub fn new(call: F) -> (listener: Self)
        requires
            forall|value: &T| call_requires(call, (value,)),
        ensures
            listener.callee() == call,
    {
        FnListener { call, marker: PhantomData }
    }
}

impl<T, F: Fn(&T)> Listener<T> for FnListener<T, F> {
    open spec fn received(&self, value: &T) -> bool {
        call_ensures(self.callee(), (value,), ())
    }

    fn notify(&self, value: &T) {
        proof {
            use_type_invariant(self);
        }
        (self.call)(value)
    }
}

/// A listener made of a closure without parameters that may always be called.
pub struct FnAction<F: Fn()> {
    call: F,
}

impl<F: Fn()> FnAction<F> {
    #[verifier::type_invariant]
    spec fn always_callable(self) -> bool {
        call_requires(self.call, ())
    }

    /// The closure inside the listener.
    pub closed spec fn callee(self) -> F {
        self.call
    }

    /// Wraps a closure that may always be called.
    pub fn new(call: F) -> (listener: Self)
        requires
            call_requires(call, ()),
        ensures
            listener.callee() == call,
    {
        FnAction { call }
    }
}

impl<F: Fn()> Listener<()> for FnAction<F> {
    open spec fn received(&self, value: &()) -> bool {
        call_ensures(self.callee(), (), ())
    }

    fn notify(&self, value: &()) {
        proof {
            use_type_invariant(self);
        }
        (self.call)()
    }
}

} // verus!
