//! Values that change over time and streams of events, as values.

use vstd::prelude::*;
use core::marker::PhantomData;
use std::rc::Rc;
use crate::listener::{FnListener, Listener};

verus! {

/// Something that yields a value of type `T` when asked.
///
/// `produced` is what is known of a value once the source has returned it.
pub trait Source<T> {
    spec fn produced(&self, value: T) -> bool;

    fn produce(&self) -> (value: T)
        ensures
            self.produced(value),
    ;
}

/// A source made of a closure that may always be called.
#[verifier::reject_recursive_types(T)]
pub struct FnSource<T, F: Fn() -> T> {
    call: F,
    marker: PhantomData<T>,
}

impl<T, F: Fn() -> T> FnSource<T, F> {
    #[verifier::type_invariant]
    spec fn always_callable(self) -> bool {
        call_requires(self.call, ())
    }

    /// The closure inside the source.
    pub closed spec fn callee(self) -> F {
        self.call
    }

    /// Wraps a closure that may always be called.
    pub fn new(call: F) -> (source: Self)
        requires
            call_requires(call, ()),
        ensures
            source.callee() == call,
    {
        FnSource { call, marker: PhantomData }
    }
}

impl<T, F: Fn() -> T> Source<T> for FnSource<T, F> {
    open spec fn produced(&self, value: T) -> bool {
        call_ensures(self.callee(), (), value)
    }

    fn produce(&self) -> (value: T) {
        proof {
            use_type_invariant(self);
        }
        (self.call)()
    }
}

/// A value that may differ each time it is read.
#[verifier::reject_recursive_types(T)]
pub struct Behavior<T> {
    pub call: Rc<Box<dyn Source<T>>>,
}

impl<T: 'static> Behavior<T> {
    /// A behavior that reads its value from `f`: the values that the behavior
    /// can yield are those that `f` can return.
    pub fn from_fn<F: Fn() -> T + 'static>(f: F) -> (behavior: Self)
        requires
            call_requires(f, ()),
        ensures
            forall|value: T| #[trigger] behavior.call.produced(value) <==> call_ensures(f, (), value),
    {
        let concrete = FnSource::new(f);
        let source: Box<dyn Source<T>> = Box::new(concrete);
        let shared = Rc::new(source);
        proof {
            assert forall|value: T| #[trigger] shared.produced(value) <==> call_ensures(
                f,
                (),
                value,
            ) by {
                assert(source.produced(value) <==> concrete.produced(value));
            }
        }
        Behavior { call: shared }
    }

    /// The present value.
    pub fn value(&self) -> (value: T)
        ensures
            self.call.produced(value),
    {
        self.call.produce()
    }
}

/// A callback registered with a stream of events.
#[verifier::reject_recursive_types(T)]
pub struct Observer<T> {
    pub listener: Box<dyn Listener<T>>,
}

/// A stream of events of type `T` with the callbacks that observe it.
#[verifier::reject_recursive_types(T)]
pub struct Event<T> {
    pub cbs: Vec<Observer<T>>,
}

/// Every callback shows that `event` was delivered to it.
pub open spec fn observed<T>(cbs: Seq<Observer<T>>, event: &T) -> bool {
    forall|i: int| 0 <= i < cbs.len() ==> (#[trigger] cbs[i]).listener.received(event)
}

impl<T: 'static> Event<T> {
    /// A stream that nobody observes yet.
    pub fn new() -> (event: Self)
        ensures
            event.cbs@.len() == 0,
    {
        Event { cbs: Vec::new() }
    }

    /// Register a callback for the events of this stream. Earlier callbacks
    /// stay.
    pub fn observe<F: Fn(&T) + 'static>(&mut self, f: F)
        requires
            forall|event: &T| call_requires(f, (event,)),
        ensures
            final(self).cbs@.len() == old(self).cbs@.len() + 1,
            final(self).cbs@.drop_last() == old(self).cbs@,
            forall|event: &T| #[trigger]
                final(self).cbs@.last().listener.received(event) <==> call_ensures(
                    f,
                    (event,),
                    (),
                ),
    {
        let concrete = FnListener::new(f);
        let observer = Observer { listener: Box::new(concrete) };
        proof {
            assert forall|event: &T| #[trigger]
                observer.listener.received(event) <==> call_ensures(f, (event,), ()) by {
                assert(observer.listener.received(event) <==> concrete.received(event));
            }
        }
        self.add(observer);
    }

    fn add(&mut self, observer: Observer<T>)
        ensures
            final(self).cbs@.len() == old(self).cbs@.len() + 1,
            final(self).cbs@.drop_last() == old(self).cbs@,
            final(self).cbs@.last() == observer,
    {
        self.cbs.push(observer);
        assert(self.cbs@.drop_last() =~= old(self).cbs@);
    }

    /// Call every callback with `event`, in the order of registration.
    pub fn send(&self, event: &T)
        ensures
            observed(self.cbs@, event),
    {
        let mut i: usize = 0;
        while i < self.cbs.len()
            invariant
                i <= self.cbs@.len(),
                forall|j: int| 0 <= j < i ==> (#[trigger] self.cbs@[j]).listener.received(event),
            decreases self.cbs@.len() - i,
        {
            self.cbs[i].listener.notify(event);
            i = i + 1;
        }
    }
}

/// A place to send values of type `T` to.
#[verifier::reject_recursive_types(T)]
pub struct Sink<T> {
    pub call: Rc<Box<dyn Listener<T>>>,
}

impl<T: 'static> Sink<T> {
    /// A sink that hands every value to `f`: the sink has received a value
    /// exactly when `f` has returned from a call with it.
    pub fn from_fn<F: Fn(&T) + 'static>(f: F) -> (sink: Self)
        requires
            forall|value: &T| call_requires(f, (value,)),
        ensures
            forall|value: &T| #[trigger] sink.call.received(value) <==> call_ensures(f, (value,), ()),
    {
        let concrete = FnListener::new(f);
        let listener: Box<dyn Listener<T>> = Box::new(concrete);
        let shared = Rc::new(listener);
        proof {
            assert forall|value: &T| #[trigger] shared.received(value) <==> call_ensures(
                f,
                (value,),
                (),
            ) by {
                assert(listener.received(value) <==> concrete.received(value));
            }
        }
        Sink { call: shared }
    }

    /// Hand `value` to the sink.
    pub fn send(&self, value: &T)
        ensures
            self.call.received(value),
    {
        self.call.notify(value)
    }
}

} // verus!
