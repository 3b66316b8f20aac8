//! The wire event model and the typed event broker.

use vstd::prelude::*;
use crate::listener::{FnListener, Listener};

verus! {

/// What happened on the rendering surface.
#[derive(Debug, PartialEq, Eq)]
pub enum EventValue {
    Clicked,
    ChildClicked(String),
    ValueChanged(String),
    Created,
    PageLoaded,
    NodeExpand(String),
}

/// An event as the host delivers it: the id of the widget that owns the
/// interaction surface, and what happened there.
#[derive(Debug, PartialEq, Eq)]
pub struct Event {
    pub id: String,
    pub value: EventValue,
}

/// A listener registered with the broker for the events of one topic.
#[verifier::reject_recursive_types(E)]
pub struct Subscription<E> {
    /// The tag of the kind of event the listener asked for.
    pub topic: u64,
    pub listener: Box<dyn Listener<E>>,
}

/// How many of the subscriptions ask for `topic`.
pub open spec fn audience<E>(subscriptions: Seq<Subscription<E>>, topic: u64) -> nat
    decreases subscriptions.len(),
{
    if subscriptions.len() == 0 {
        0
    } else {
        audience(subscriptions.drop_last(), topic) + (if subscriptions.last().topic == topic {
            1nat
        } else {
            0nat
        })
    }
}

/// Every subscription for `topic` shows that `event` was delivered to it.
pub open spec fn delivered<E>(subscriptions: Seq<Subscription<E>>, topic: u64, event: &E) -> bool {
    forall|i: int|
        0 <= i < subscriptions.len() && (#[trigger] subscriptions[i]).topic == topic
            ==> subscriptions[i].listener.received(event)
}

/// A new subscription is heard under its own topic and under no other: an
/// event published under another topic reaches exactly the listeners it
/// reached before.
pub proof fn lemma_audience_subscribe<E>(
    subscriptions: Seq<Subscription<E>>,
    subscription: Subscription<E>,
    topic: u64,
)
    ensures
        audience(subscriptions.push(subscription), topic) == audience(subscriptions, topic) + (
        if subscription.topic == topic {
            1nat
        } else {
            0nat
        }),
{
    assert(subscriptions.push(subscription).drop_last() == subscriptions);
}

/// Where nobody subscribed to a topic, nobody is in its audience.
pub proof fn lemma_audience_none<E>(subscriptions: Seq<Subscription<E>>, topic: u64)
    requires
        forall|i: int| 0 <= i < subscriptions.len() ==> (#[trigger] subscriptions[i]).topic != topic,
    ensures
        audience(subscriptions, topic) == 0,
    decreases subscriptions.len(),
{
    if subscriptions.len() > 0 {
        lemma_audience_none(subscriptions.drop_last(), topic);
    }
}

/// A publish/subscribe channel for application events.
///
/// Every kind of application event has a topic, a number that the application
/// chooses. Listeners subscribe to a topic; an event published under a topic
/// is delivered to the listeners of that topic, in the order in which they
/// subscribed, and to no others.
#[verifier::reject_recursive_types(E)]
pub struct EventBroker<E> {
    pub listeners: Vec<Subscription<E>>,
}

impl<E: 'static> EventBroker<E> {
    /// Create a broker without listeners.
    pub fn new() -> (broker: Self)
        ensures
            broker.listeners@.len() == 0,
            forall|topic: u64| audience(broker.listeners@, topic) == 0,
    {
        EventBroker { listeners: Vec::new() }
    }

    /// Publish `event` under `topic`: every listener subscribed to the topic
    /// is called with the event, in the order of subscription. Returns how
    /// many listeners were called.
    pub fn send(&self, topic: u64, event: &E) -> (reached: usize)
        ensures
            reached == audience(self.listeners@, topic),
            delivered(self.listeners@, topic, event),
    {
        let mut reached: usize = 0;
        let mut i: usize = 0;
        while i < self.listeners.len()
            invariant
                i <= self.listeners@.len(),
                reached == audience(self.listeners@.take(i as int), topic),
                reached <= i,
                delivered(self.listeners@.take(i as int), topic, event),
            decreases self.listeners@.len() - i,
        {
            proof {
                assert(self.listeners@.take(i + 1).drop_last() == self.listeners@.take(i as int));
                assert(self.listeners@.take(i + 1).last() == self.listeners@[i as int]);
            }
            if self.listeners[i].topic == topic {
                self.listeners[i].listener.notify(event);
                reached = reached + 1;
            }
            proof {
                assert forall|j: int|
                    0 <= j < i + 1 && (#[trigger] self.listeners@.take(i + 1)[j]).topic
                        == topic implies self.listeners@.take(i + 1)[j].listener.received(event) by {
                    if j < i {
                        assert(self.listeners@.take(i as int)[j] == self.listeners@.take(i + 1)[j]);
                    }
                }
            }
            i = i + 1;
        }
        proof {
            assert(self.listeners@.take(i as int) == self.listeners@);
        }
        reached
    }

    /// Append a subscription to the list of listeners.
    pub fn add_listener(&mut self, subscription: Subscription<E>)
        ensures
            final(self).listeners@ == old(self).listeners@.push(subscription),
            final(self).listeners@.len() == old(self).listeners@.len() + 1,
            final(self).listeners@.drop_last() == old(self).listeners@,
            final(self).listeners@.last() == subscription,
            forall|topic: u64|
                audience(final(self).listeners@, topic) == audience(old(self).listeners@, topic)
                    + (if subscription.topic == topic {
                    1nat
                } else {
                    0nat
                }),
    {
        proof {
            assert forall|topic: u64|
                audience(old(self).listeners@.push(subscription), topic) == audience(
                    old(self).listeners@,
                    topic,
                ) + (if subscription.topic == topic {
                    1nat
                } else {
                    0nat
                }) by {
                lemma_audience_subscribe(old(self).listeners@, subscription, topic);
            }
        }
        self.listeners.push(subscription);
        assert(self.listeners@.drop_last() =~= old(self).listeners@);
    }

    /// Subscribe `f` to the events published under `topic`: `f` becomes the
    /// last listener. Earlier subscriptions stay: several listeners may share
    /// a topic. No listener is called.
    pub fn subscribe<F: Fn(&E) + 'static>(&mut self, topic: u64, f: F)
        requires
            forall|event: &E| call_requires(f, (event,)),
        ensures
            final(self).listeners@.len() == old(self).listeners@.len() + 1,
            final(self).listeners@.drop_last() == old(self).listeners@,
            final(self).listeners@.last().topic == topic,
            forall|event: &E| #[trigger]
                final(self).listeners@.last().listener.received(event) <==> call_ensures(
                    f,
                    (event,),
                    (),
                ),
            audience(final(self).listeners@, topic) == audience(old(self).listeners@, topic) + 1,
            forall|other: u64|
                other != topic ==> audience(final(self).listeners@, other) == audience(
                    old(self).listeners@,
                    other,
                ),
    {
        let concrete = FnListener::new(f);
        let subscription = Subscription { topic, listener: Box::new(concrete) };
        proof {
            assert forall|event: &E| #[trigger]
                subscription.listener.received(event) <==> call_ensures(f, (event,), ()) by {
                assert(subscription.listener.received(event) <==> concrete.received(event));
            }
        }
        self.add_listener(subscription);
    }
}

} // verus!
