//! One registered outbound destination: an identifier, the client it
//! delivers through, and its own set of subscribed event names.

use vstd::prelude::*;
use vstd::string::*;

use crate::client::Client;
use crate::errors::TransportError;
use crate::subscriptions::{EventSubscriptions, Observer};

verus! {

/// A producer forwards routed messages to one external consumer through
/// an injected client.  Identity is the id; subscriptions are mutable
/// for the producer's lifetime.
pub struct Producer<C> {
    client: C,
    id: String,
    subscriptions: EventSubscriptions,
}

impl<C> Producer<C> {
    /// The producer's identifier.
    pub closed spec fn id_spec(&self) -> Seq<char> {
        self.id@
    }

    /// Whether the producer is subscribed to event name `e`.
    pub closed spec fn subscribed_spec(&self, e: Seq<char>) -> bool {
        self.subscriptions.contains_spec(e)
    }

    /// The subscribed event names, in insertion order.
    pub closed spec fn event_views(&self) -> Seq<Seq<char>> {
        self.subscriptions.event_views()
    }

    /// The injected client.
    pub closed spec fn client_spec(&self) -> C {
        self.client
    }

    /// Well-formed: the subscription set holds no duplicates.
    pub closed spec fn wf(&self) -> bool {
        self.subscriptions.wf()
    }

    /// Creates a producer with an empty subscription set, owning the
    /// given client.
    pub fn new(id: String, client: C) -> (r: Producer<C>)
        ensures
            r.wf(),
            r.id_spec() == id@,
            r.client_spec() == client,
            forall|e: Seq<char>| !r.subscribed_spec(e),
    {
        Producer { client, id, subscriptions: EventSubscriptions::new() }
    }

    /// Subscribes the producer to an event; a repeat is a no-op.
    pub fn subscribe(&mut self, event_name: &str)
        requires
            old(self).wf(),
        ensures
            final(self).wf(),
            final(self).id_spec() == old(self).id_spec(),
            final(self).client_spec() == old(self).client_spec(),
            forall|e: Seq<char>|
                #[trigger] final(self).subscribed_spec(e) <==> (old(self).subscribed_spec(e) || e
                    == event_name@),
    {
        self.subscriptions.subscribe(event_name);
    }

    /// Unsubscribes the producer from an event; absent names are a no-op.
    pub fn unsubscribe(&mut self, event_name: &str)
        requires
            old(self).wf(),
        ensures
            final(self).wf(),
            final(self).id_spec() == old(self).id_spec(),
            final(self).client_spec() == old(self).client_spec(),
            forall|e: Seq<char>|
                #[trigger] final(self).subscribed_spec(e) <==> (old(self).subscribed_spec(e) && e
                    != event_name@),
    {
        self.subscriptions.unsubscribe(event_name);
    }

    /// Subscribes the producer to every listed event.
    pub fn subscribe_many(&mut self, event_names: &[&str])
        requires
            old(self).wf(),
        ensures
            final(self).wf(),
            final(self).id_spec() == old(self).id_spec(),
            final(self).client_spec() == old(self).client_spec(),
            forall|e: Seq<char>|
                #[trigger] final(self).subscribed_spec(e) <==> (old(self).subscribed_spec(e)
                    || exists|k: int| 0 <= k < event_names@.len() && event_names@[k]@ == e),
    {
        self.subscriptions.subscribe_many(event_names);
    }

    /// Whether the producer is subscribed to `event_name`.
    pub fn is_subscribed(&self, event_name: &str) -> (r: bool)
        ensures
            r == self.subscribed_spec(event_name@),
    {
        self.subscriptions.is_subscribed(event_name)
    }

    /// The subscribed event names: exactly the subscriptions, each
    /// once when the producer is well-formed.
    pub fn subscribed_events(&self) -> (r: Vec<String>)
        ensures
            r@.len() == self.event_views().len(),
            forall|i: int| 0 <= i < r@.len() ==> r@[i]@ == self.event_views()[i],
            forall|e: Seq<char>|
                (exists|j: int| 0 <= j < r@.len() && r@[j]@ == e) <==> #[trigger] self
                    .subscribed_spec(e),
            self.wf() ==> forall|j1: int, j2: int|
                0 <= j1 < j2 < r@.len() ==> r@[j1]@ != r@[j2]@,
    {
        self.subscriptions.get_events()
    }

    /// The producer's identifier.
    pub fn id(&self) -> (r: &str)
        ensures
            r@ == self.id_spec(),
    {
        self.id.as_str()
    }

    /// The injected client.
    pub fn client(&self) -> (r: &C)
        ensures
            *r == self.client_spec(),
    {
        &self.client
    }
}

impl<C: Client> Producer<C> {
    /// Forwards one message to the external consumer: exactly one call
    /// of the client's `send`, whose outcome is surfaced unchanged.
    pub fn forward(&self, message: &str) -> (r: Result<(), TransportError>)
        ensures
            call_ensures(C::send, (&self.client_spec(), message), r),
    {
        self.client.send(message)
    }

    /// The client's wire-protocol tag, as the client reports it.
    pub fn protocol_name(&self) -> (r: &str)
        ensures
            call_ensures(C::protocol_name, (&self.client_spec(),), r),
    {
        self.client.protocol_name()
    }

    /// The client's target address, as the client reports it.
    pub fn address(&self) -> (r: &str)
        ensures
            call_ensures(C::address, (&self.client_spec(),), r),
    {
        self.client.address()
    }
}

impl<C: Client> Observer for Producer<C> {
    fn id(&self) -> &str {
        self.id.as_str()
    }

    fn notify(&self, message: &str) -> Result<(), TransportError> {
        self.forward(message)
    }

    fn subscribed_events(&self) -> Vec<String> {
        self.subscriptions.get_events()
    }
}

} // verus!
