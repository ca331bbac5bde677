//! The mutable set of event names one producer is subscribed to, and the
//! observer interface through which routed messages reach a producer.

use vstd::prelude::*;
use vstd::string::*;

use crate::errors::TransportError;
use crate::strutil::str_eq;

verus! {

/// An observer that can be notified with a routed message.  Producers
/// implement this; further observer kinds may be added by users of the
/// library.
pub trait Observer {
    /// The observer's identifier.
    fn id(&self) -> &str;

    /// Delivers one message to the observer.
    fn notify(&self, message: &str) -> Result<(), TransportError>;

    /// The event names the observer is subscribed to.
    fn subscribed_events(&self) -> Vec<String>;
}

/// A set of event names, with set semantics: no duplicates, no order
/// promised to callers beyond the insertion order of [`Self::get_events`].
pub struct EventSubscriptions {
    events: Vec<String>,
}

impl EventSubscriptions {
    /// Whether event name `e` is in the set.
    pub closed spec fn contains_spec(&self, e: Seq<char>) -> bool {
        exists|i: int| 0 <= i < self.events@.len() && self.events@[i]@ == e
    }

    /// The stored names, in insertion order.
    pub closed spec fn event_views(&self) -> Seq<Seq<char>> {
        self.events@.map_values(|s: String| s@)
    }

    /// Well-formed: no event name occurs twice.
    pub closed spec fn wf(&self) -> bool {
        forall|i: int, j: int|
            0 <= i < j < self.events@.len() ==> self.events@[i]@ != self.events@[j]@
    }

    /// The number of distinct subscribed events.
    pub closed spec fn count_spec(&self) -> nat {
        self.events@.len()
    }

    /// Creates an empty subscription set.
    pub fn new() -> (r: EventSubscriptions)
        ensures
            r.wf(),
            forall|e: Seq<char>| !r.contains_spec(e),
            r.count_spec() == 0,
    {
        EventSubscriptions { events: Vec::new() }
    }

    /// The index at which `event_name` is stored, if it is present.
    fn index_of(&self, event_name: &str) -> (r: Option<usize>)
        ensures
            match r {
                Some(i) => i < self.events@.len() && self.events@[i as int]@ == event_name@,
                None => !self.contains_spec(event_name@),
            },
    {
        let n = self.events.len();
        let mut i: usize = 0;
        while i < n
            invariant
                0 <= i <= n,
                n == self.events@.len(),
                forall|k: int| 0 <= k < i ==> self.events@[k]@ != event_name@,
            decreases n - i,
        {
            if str_eq(self.events[i].as_str(), event_name) {
                return Some(i);
            }
            i = i + 1;
        }
        None
    }

    /// Adds `event_name` to the set; subscribing twice is a no-op.
    pub fn subscribe(&mut self, event_name: &str)
        requires
            old(self).wf(),
        ensures
            final(self).wf(),
            forall|e: Seq<char>|
                #[trigger] final(self).contains_spec(e) <==> (old(self).contains_spec(e) || e
                    == event_name@),
    {
        let present = self.index_of(event_name);
        match present {
            Some(i) => {
                proof {
                    assert(self.events@[i as int]@ == event_name@);
                    assert(self.contains_spec(event_name@));
                }
            },
            None => {
                let ghost prior = self.events@;
                self.events.push(event_name.to_owned());
                proof {
                    assert(self.events@[prior.len() as int]@ == event_name@);
                    assert(self.contains_spec(event_name@));
                    assert forall|e: Seq<char>| #[trigger] self.contains_spec(e) implies (exists|
                        i: int,
                    |
                        0 <= i < prior.len() && prior[i]@ == e) || e == event_name@ by {
                        let i = choose|i: int|
                            0 <= i < self.events@.len() && self.events@[i]@ == e;
                        if i < prior.len() {
                            assert(prior[i]@ == e);
                        }
                    }
                    assert forall|e: Seq<char>|
                        (exists|i: int|
                            0 <= i < prior.len() && prior[i]@ == e) implies #[trigger] self
                        .contains_spec(e) by {
                        let i = choose|i: int| 0 <= i < prior.len() && prior[i]@ == e;
                        assert(self.events@[i]@ == e);
                    }
                }
            },
        }
    }

    /// Removes `event_name` from the set; removing an absent name is a
    /// no-op.
    pub fn unsubscribe(&mut self, event_name: &str)
        requires
            old(self).wf(),
        ensures
            final(self).wf(),
            forall|e: Seq<char>|
                #[trigger] final(self).contains_spec(e) <==> (old(self).contains_spec(e) && e
                    != event_name@),
    {
        let found = self.index_of(event_name);
        if let Some(i) = found {
            let ghost prior = self.events@;
            self.events.remove(i);
            proof {
                assert forall|e: Seq<char>| #[trigger] self.contains_spec(e) implies (exists|k: int|
                    0 <= k < prior.len() && prior[k]@ == e) && e != event_name@ by {
                    let k = choose|k: int| 0 <= k < self.events@.len() && self.events@[k]@ == e;
                    if k < i {
                        assert(prior[k]@ == e);
                    } else {
                        assert(prior[k + 1]@ == e);
                    }
                }
                assert forall|e: Seq<char>|
                    (exists|k: int| 0 <= k < prior.len() && prior[k]@ == e) && e
                        != event_name@ implies #[trigger] self.contains_spec(e) by {
                    let k = choose|k: int| 0 <= k < prior.len() && prior[k]@ == e;
                    assert(k != i);
                    if k < i {
                        assert(self.events@[k]@ == e);
                    } else {
                        assert(self.events@[k - 1]@ == e);
                    }
                }
            }
        }
    }

    /// Whether the set holds `event_name`.
    pub fn is_subscribed(&self, event_name: &str) -> (r: bool)
        ensures
            r == self.contains_spec(event_name@),
    {
        self.index_of(event_name).is_some()
    }

    /// The subscribed event names, in insertion order: exactly the
    /// contained names, each once when the set is well-formed.
    pub fn get_events(&self) -> (r: Vec<String>)
        ensures
            r@.len() == self.event_views().len(),
            r@.len() == self.count_spec(),
            forall|i: int| 0 <= i < r@.len() ==> r@[i]@ == self.event_views()[i],
            forall|e: Seq<char>|
                (exists|j: int| 0 <= j < r@.len() && r@[j]@ == e) <==> #[trigger] self.contains_spec(
                    e,
                ),
            self.wf() ==> forall|j1: int, j2: int|
                0 <= j1 < j2 < r@.len() ==> r@[j1]@ != r@[j2]@,
    {
        let n = self.events.len();
        let mut out: Vec<String> = Vec::new();
        let mut i: usize = 0;
        while i < n
            invariant
                0 <= i <= n,
                n == self.events@.len(),
                out@.len() == i,
                forall|k: int| 0 <= k < i ==> out@[k]@ == self.events@[k]@,
            decreases n - i,
        {
            out.push(self.events[i].clone());
            i = i + 1;
        }
        proof {
            assert forall|i: int| 0 <= i < out@.len() implies out@[i]@ == self.event_views()[i] by {
                assert(self.event_views()[i] == self.events@[i]@);
            }
            assert forall|e: Seq<char>|
                (exists|j: int| 0 <= j < out@.len() && out@[j]@ == e) implies #[trigger] self
                .contains_spec(e) by {
                let j = choose|j: int| 0 <= j < out@.len() && out@[j]@ == e;
                assert(self.events@[j]@ == e);
            }
            assert forall|e: Seq<char>| #[trigger] self.contains_spec(e) implies (exists|j: int|
                0 <= j < out@.len() && out@[j]@ == e) by {
                let j = choose|j: int| 0 <= j < self.events@.len() && self.events@[j]@ == e;
                assert(out@[j]@ == e);
            }
        }
        out
    }

    /// Adds every listed event name to the set.
    pub fn subscribe_many(&mut self, event_names: &[&str])
        requires
            old(self).wf(),
        ensures
            final(self).wf(),
            forall|e: Seq<char>|
                #[trigger] final(self).contains_spec(e) <==> (old(self).contains_spec(e) || exists|
                    k: int,
                |
                    0 <= k < event_names@.len() && event_names@[k]@ == e),
    {
        let n = event_names.len();
        let mut i: usize = 0;
        while i < n
            invariant
                self.wf(),
                n == event_names@.len(),
                0 <= i <= n,
                forall|e: Seq<char>|
                    #[trigger] self.contains_spec(e) <==> (old(self).contains_spec(e) || exists|
                        k: int,
                    |
                        0 <= k < i && event_names@[k]@ == e),
            decreases n - i,
        {
            self.subscribe(event_names[i]);
            i = i + 1;
        }
    }

    /// Empties the set.
    pub fn clear(&mut self)
        ensures
            final(self).wf(),
            forall|e: Seq<char>| !final(self).contains_spec(e),
            final(self).count_spec() == 0,
    {
        self.events.clear();
    }
}

} // verus!
