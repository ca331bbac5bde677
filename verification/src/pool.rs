//! The producer registry: a table of producers plus a reverse index from
//! event name to subscribed producer ids, kept consistent by every
//! operation.
//!
//! The governing invariant, part of [`ProducerPool::wf`]: an id stands
//! under an event in the reverse index exactly when that producer is
//! subscribed to the event.  Every operation requires and re-establishes
//! it, so it holds at every quiescent point of any call sequence.

use vstd::prelude::*;
use vstd::string::*;

use crate::client::Client;
use crate::errors::{make_not_found, not_found_msg, TransportError};
use crate::producer::Producer;
use crate::strutil::str_eq;

verus! {

/// Whether some element of `l` views as `s`.
pub open spec fn seq_has_str(l: Seq<String>, s: Seq<char>) -> bool {
    exists|j: int| 0 <= j < l.len() && l[j]@ == s
}

/// Whether the elements of `l` are pairwise distinct as character
/// sequences.
pub open spec fn distinct_strs(l: Seq<String>) -> bool {
    forall|j: int, k: int| 0 <= j < k < l.len() ==> l[j]@ != l[k]@
}

/// Finds the first element of `v` equal to `x`.
fn find_string(v: &Vec<String>, x: &str) -> (r: Option<usize>)
    ensures
        match r {
            Some(i) => i < v@.len() && v@[i as int]@ == x@,
            None => !seq_has_str(v@, x@),
        },
{
    let n = v.len();
    let mut i: usize = 0;
    while i < n
        invariant
            0 <= i <= n,
            n == v@.len(),
            forall|k: int| 0 <= k < i ==> v@[k]@ != x@,
        decreases n - i,
    {
        if str_eq(v[i].as_str(), x) {
            return Some(i);
        }
        i = i + 1;
    }
    None
}

/// Returns `v` without any element equal to `x`, order preserved.
fn remove_string(v: &Vec<String>, x: &str) -> (r: Vec<String>)
    requires
        distinct_strs(v@),
    ensures
        distinct_strs(r@),
        forall|s: Seq<char>| #[trigger] seq_has_str(r@, s) <==> (seq_has_str(v@, s) && s != x@),
        r@.len() <= v@.len(),
{
    let n = v.len();
    let mut out: Vec<String> = Vec::new();
    let mut i: usize = 0;
    while i < n
        invariant
            0 <= i <= n,
            n == v@.len(),
            distinct_strs(v@),
            distinct_strs(out@),
            out@.len() <= i,
            forall|j: int| 0 <= j < out@.len() ==> out@[j]@ != x@,
            forall|j: int|
                0 <= j < out@.len() ==> exists|k: int| 0 <= k < i && v@[k]@ == #[trigger] out@[j]@,
            forall|k: int|
                0 <= k < i && v@[k]@ != x@ ==> exists|j: int|
                    0 <= j < out@.len() && out@[j]@ == #[trigger] v@[k]@,
        decreases n - i,
    {
        if !str_eq(v[i].as_str(), x) {
            let ghost prior = out@;
            out.push(v[i].clone());
            proof {
                assert(out@[prior.len() as int]@ == v@[i as int]@);
                assert forall|j: int, k: int| 0 <= j < k < out@.len() implies out@[j]@
                    != out@[k]@ by {
                    if k == prior.len() {
                        let k0 = choose|k0: int| 0 <= k0 < i && v@[k0]@ == out@[j]@;
                        assert(v@[k0]@ != v@[i as int]@);
                    }
                }
                assert forall|k: int|
                    0 <= k < i + 1 && v@[k]@ != x@ implies exists|j: int|
                        0 <= j < out@.len() && out@[j]@ == #[trigger] v@[k]@ by {
                    if k < i {
                        let j = choose|j: int| 0 <= j < prior.len() && prior[j]@ == v@[k]@;
                        assert(out@[j]@ == v@[k]@);
                    } else {
                        assert(out@[prior.len() as int]@ == v@[k]@);
                    }
                }
            }
        } else {
            proof {
                assert(v@[i as int]@ == x@);
            }
        }
        i = i + 1;
    }
    proof {
        assert forall|s: Seq<char>| #[trigger] seq_has_str(out@, s) implies (seq_has_str(v@, s) && s
            != x@) by {
            let j = choose|j: int| 0 <= j < out@.len() && out@[j]@ == s;
            assert(exists|k: int| 0 <= k < n && v@[k]@ == out@[j]@);
        }
        assert forall|s: Seq<char>| seq_has_str(v@, s) && s != x@ implies #[trigger] seq_has_str(
            out@,
            s,
        ) by {
            let k = choose|k: int| 0 <= k < v@.len() && v@[k]@ == s;
            assert(exists|j: int| 0 <= j < out@.len() && out@[j]@ == v@[k]@);
        }
    }
    out
}

/// The events of the index entries `l` that have at least one
/// subscriber, in entry order.
pub open spec fn surviving_events(l: Seq<(String, Vec<String>)>) -> Seq<Seq<char>>
    decreases l.len(),
{
    if l.len() == 0 {
        Seq::empty()
    } else {
        (if l[0].1@.len() > 0 {
            seq![l[0].0@]
        } else {
            Seq::<Seq<char>>::empty()
        }) + surviving_events(l.drop_first())
    }
}

/// [`surviving_events`] distributes over appending one entry.
proof fn lemma_surviving_snoc(l: Seq<(String, Vec<String>)>, x: (String, Vec<String>))
    ensures
        surviving_events(l.push(x)) == surviving_events(l) + (if x.1@.len() > 0 {
            seq![x.0@]
        } else {
            Seq::<Seq<char>>::empty()
        }),
    decreases l.len(),
{
    if l.len() == 0 {
        assert(l.push(x)[0] == x);
        assert(l.push(x).drop_first() =~= Seq::<(String, Vec<String>)>::empty());
        assert(surviving_events(l.push(x)) == (if x.1@.len() > 0 {
            seq![x.0@]
        } else {
            Seq::<Seq<char>>::empty()
        }) + surviving_events(l.push(x).drop_first()));
        assert(surviving_events(Seq::<(String, Vec<String>)>::empty()) == Seq::<Seq<char>>::empty());
        assert(surviving_events(l.push(x)) =~= surviving_events(l) + (if x.1@.len() > 0 {
            seq![x.0@]
        } else {
            Seq::<Seq<char>>::empty()
        }));
    } else {
        assert(l.push(x)[0] == l[0]);
        assert(l.push(x).drop_first() =~= l.drop_first().push(x));
        lemma_surviving_snoc(l.drop_first(), x);
        assert(surviving_events(l.push(x)) =~= surviving_events(l) + (if x.1@.len() > 0 {
            seq![x.0@]
        } else {
            Seq::<Seq<char>>::empty()
        }));
    }
}

/// The shared table of producers plus the reverse event index.  The two
/// structures never diverge: see [`ProducerPool::wf`].
pub struct ProducerPool<C> {
    producers: Vec<Producer<C>>,
    event_index: Vec<(String, Vec<String>)>,
}

impl<C> ProducerPool<C> {
    /// Whether a producer with id `id` is registered.
    pub closed spec fn has_producer_spec(&self, id: Seq<char>) -> bool {
        exists|i: int| 0 <= i < self.producers@.len() && self.producers@[i].id_spec() == id
    }

    /// Whether producer `id` is registered and subscribed to event `e`.
    pub closed spec fn subscribed_spec(&self, id: Seq<char>, e: Seq<char>) -> bool {
        exists|i: int|
            0 <= i < self.producers@.len() && self.producers@[i].id_spec() == id
                && self.producers@[i].subscribed_spec(e)
    }

    /// Whether the reverse index lists `id` under event `e`.
    pub closed spec fn index_has_spec(&self, e: Seq<char>, id: Seq<char>) -> bool {
        exists|i: int|
            0 <= i < self.event_index@.len() && self.event_index@[i].0@ == e && seq_has_str(
                self.event_index@[i].1@,
                id,
            )
    }

    /// Whether event `e` currently has at least one subscriber.
    pub closed spec fn has_event_spec(&self, e: Seq<char>) -> bool {
        exists|i: int|
            0 <= i < self.event_index@.len() && self.event_index@[i].0@ == e
                && self.event_index@[i].1@.len() > 0
    }

    /// The registered producer ids, in table order.
    pub closed spec fn ids_seq(&self) -> Seq<Seq<char>> {
        Seq::new(self.producers@.len(), |i: int| self.producers@[i].id_spec())
    }

    /// The number of registered producers.
    pub closed spec fn count_spec(&self) -> nat {
        self.producers@.len()
    }

    /// The ids the reverse index lists under event `e`, in index order;
    /// empty when the event is unknown.
    pub closed spec fn subscribers_of(&self, e: Seq<char>) -> Seq<Seq<char>> {
        if exists|i: int| 0 <= i < self.event_index@.len() && self.event_index@[i].0@ == e {
            let i = choose|i: int|
                0 <= i < self.event_index@.len() && self.event_index@[i].0@ == e;
            Seq::new(
                self.event_index@[i].1@.len(),
                |j: int| self.event_index@[i].1@[j]@,
            )
        } else {
            Seq::empty()
        }
    }

    /// The client of the registered producer `id`; meaningful only
    /// when `has_producer_spec(id)` holds.
    pub closed spec fn client_of(&self, id: Seq<char>) -> C {
        let i = choose|i: int|
            0 <= i < self.producers@.len() && self.producers@[i].id_spec() == id;
        self.producers@[i].client_spec()
    }

    /// The subscribed event names of the registered producer `id`, in
    /// insertion order; meaningful only when the producer is
    /// registered.
    pub closed spec fn producer_events(&self, id: Seq<char>) -> Seq<Seq<char>> {
        let i = choose|i: int|
            0 <= i < self.producers@.len() && self.producers@[i].id_spec() == id;
        self.producers@[i].event_views()
    }

    /// The events that currently have at least one subscriber, in
    /// index order.
    pub closed spec fn events_with_subscribers(&self) -> Seq<Seq<char>> {
        surviving_events(self.event_index@)
    }

    /// With unique ids, `client_of` and `producer_events` of the id at
    /// `i` are that producer's.
    proof fn lemma_producer_pinned(&self, i: int)
        requires
            forall|m1: int, m2: int|
                0 <= m1 < m2 < self.producers@.len() ==> self.producers@[m1].id_spec()
                    != self.producers@[m2].id_spec(),
            0 <= i < self.producers@.len(),
        ensures
            self.client_of(self.producers@[i].id_spec()) == self.producers@[i].client_spec(),
            self.producer_events(self.producers@[i].id_spec()) == self.producers@[i].event_views(),
    {
        let id = self.producers@[i].id_spec();
        assert(0 <= i < self.producers@.len() && self.producers@[i].id_spec() == id);
        let m = choose|m: int|
            0 <= m < self.producers@.len() && self.producers@[m].id_spec() == id;
        if m != i {
            if m < i {
                assert(self.producers@[m].id_spec() != self.producers@[i].id_spec());
            } else {
                assert(self.producers@[i].id_spec() != self.producers@[m].id_spec());
            }
        }
    }

    /// The producer table is well-formed: ids unique, each producer's
    /// subscription set duplicate-free.
    spec fn producers_wf(&self) -> bool {
        &&& forall|i: int, j: int|
            0 <= i < j < self.producers@.len() ==> self.producers@[i].id_spec()
                != self.producers@[j].id_spec()
        &&& forall|i: int| 0 <= i < self.producers@.len() ==> self.producers@[i].wf()
    }

    /// The reverse index is well-formed: event names unique, each
    /// subscriber list duplicate-free.
    spec fn index_wf(&self) -> bool {
        &&& forall|i: int, j: int|
            0 <= i < j < self.event_index@.len() ==> self.event_index@[i].0@
                != self.event_index@[j].0@
        &&& forall|i: int|
            0 <= i < self.event_index@.len() ==> distinct_strs(self.event_index@[i].1@)
    }

    /// The two structures agree: the index lists `id` under `e` exactly
    /// when producer `id` is subscribed to `e`.
    spec fn linked(&self) -> bool {
        forall|e: Seq<char>, id: Seq<char>|
            #[trigger] self.index_has_spec(e, id) <==> self.subscribed_spec(id, e)
    }

    /// Well-formedness of the whole registry.
    pub closed spec fn wf(&self) -> bool {
        self.producers_wf() && self.index_wf() && self.linked()
    }

    /// The subscription invariant, as a consequence of [`Self::wf`]:
    /// an id stands in the reverse index under an event exactly when
    /// that producer is subscribed to the event.
    pub proof fn lemma_index_consistent(&self, e: Seq<char>, id: Seq<char>)
        requires
            self.wf(),
        ensures
            self.index_has_spec(e, id) <==> self.subscribed_spec(id, e),
            self.subscribed_spec(id, e) ==> self.has_producer_spec(id),
            self.has_event_spec(e) <==> exists|id2: Seq<char>|
                #[trigger] self.index_has_spec(e, id2),
    {
        if self.has_event_spec(e) {
            let i = choose|i: int|
                0 <= i < self.event_index@.len() && self.event_index@[i].0@ == e
                    && self.event_index@[i].1@.len() > 0;
            let sub = self.event_index@[i].1@[0]@;
            assert(seq_has_str(self.event_index@[i].1@, sub));
            assert(self.index_has_spec(e, sub));
        }
        if exists|id2: Seq<char>| #[trigger] self.index_has_spec(e, id2) {
            let id2 = choose|id2: Seq<char>| self.index_has_spec(e, id2);
            let m = choose|m: int|
                0 <= m < self.event_index@.len() && self.event_index@[m].0@ == e && seq_has_str(
                    self.event_index@[m].1@,
                    id2,
                );
            let j = choose|j: int|
                0 <= j < self.event_index@[m].1@.len() && self.event_index@[m].1@[j]@ == id2;
            assert(self.event_index@[m].1@.len() > 0);
            assert(self.has_event_spec(e));
        }
    }

    /// Creates an empty pool.
    pub fn new() -> (r: ProducerPool<C>)
        ensures
            r.wf(),
            r.count_spec() == 0,
            forall|id: Seq<char>| !r.has_producer_spec(id),
            forall|e: Seq<char>| !r.has_event_spec(e),
            forall|e: Seq<char>, id: Seq<char>| !r.index_has_spec(e, id),
    {
        ProducerPool { producers: Vec::new(), event_index: Vec::new() }
    }

    /// The index of the producer with id `id`, if registered.
    fn find_producer(&self, id: &str) -> (r: Option<usize>)
        ensures
            match r {
                Some(i) => i < self.producers@.len() && self.producers@[i as int].id_spec() == id@,
                None => !self.has_producer_spec(id@),
            },
    {
        let n = self.producers.len();
        let mut i: usize = 0;
        while i < n
            invariant
                0 <= i <= n,
                n == self.producers@.len(),
                forall|k: int| 0 <= k < i ==> self.producers@[k].id_spec() != id@,
            decreases n - i,
        {
            if str_eq(self.producers[i].id(), id) {
                return Some(i);
            }
            i = i + 1;
        }
        None
    }

    /// The position of the index entry for `event`, if present.
    fn find_entry(&self, event: &str) -> (r: Option<usize>)
        ensures
            match r {
                Some(i) => i < self.event_index@.len() && self.event_index@[i as int].0@ == event@,
                None => forall|i: int|
                    0 <= i < self.event_index@.len() ==> self.event_index@[i].0@ != event@,
            },
    {
        let n = self.event_index.len();
        let mut i: usize = 0;
        while i < n
            invariant
                0 <= i <= n,
                n == self.event_index@.len(),
                forall|k: int| 0 <= k < i ==> self.event_index@[k].0@ != event@,
            decreases n - i,
        {
            if str_eq(self.event_index[i].0.as_str(), event) {
                return Some(i);
            }
            i = i + 1;
        }
        None
    }

    /// Removes a producer and purges its id from every index entry.
    /// Returns the removed producer, or `None` (not an error) when the
    /// id is unknown.
    pub fn remove_producer(&mut self, id: &str) -> (r: Option<Producer<C>>)
        requires
            old(self).wf(),
        ensures
            final(self).wf(),
            match r {
                Some(p) => old(self).has_producer_spec(id@) && p.id_spec() == id@
                    && final(self).count_spec() + 1 == old(self).count_spec() && (forall|
                    e: Seq<char>,
                |
                    #[trigger] p.subscribed_spec(e) <==> old(self).subscribed_spec(id@, e)),
                None => !old(self).has_producer_spec(id@) && *final(self) == *old(self),
            },
            forall|id2: Seq<char>|
                #[trigger] final(self).has_producer_spec(id2) <==> (old(self).has_producer_spec(
                    id2,
                ) && id2 != id@),
            forall|id2: Seq<char>, e: Seq<char>|
                #[trigger] final(self).subscribed_spec(id2, e) <==> (old(self).subscribed_spec(
                    id2,
                    e,
                ) && id2 != id@),
            forall|e: Seq<char>, id2: Seq<char>|
                #[trigger] final(self).index_has_spec(e, id2) <==> (old(self).index_has_spec(
                    e,
                    id2,
                ) && id2 != id@),
            forall|e: Seq<char>|
                #[trigger] final(self).has_event_spec(e) <==> exists|id2: Seq<char>|
                    id2 != id@ && #[trigger] old(self).index_has_spec(e, id2),
            forall|id2: Seq<char>|
                id2 != id@ && old(self).has_producer_spec(id2)
                    ==> #[trigger] final(self).client_of(id2) == old(self).client_of(id2),
    {
        let found = self.find_producer(id);
        match found {
            None => {
                proof {
                    assert forall|e: Seq<char>| #[trigger] self.has_event_spec(e) implies exists|
                        id2: Seq<char>,
                    | id2 != id@ && #[trigger] self.index_has_spec(e, id2) by {
                        let i = choose|i: int|
                            0 <= i < self.event_index@.len() && self.event_index@[i].0@ == e
                                && self.event_index@[i].1@.len() > 0;
                        let sub = self.event_index@[i].1@[0]@;
                        assert(seq_has_str(self.event_index@[i].1@, sub));
                        assert(self.index_has_spec(e, sub));
                        assert(self.subscribed_spec(sub, e));
                        assert(self.has_producer_spec(sub));
                        assert(sub != id@);
                    }
                    assert forall|e: Seq<char>|
                        (exists|id2: Seq<char>|
                            id2 != id@ && #[trigger] self.index_has_spec(
                                e,
                                id2,
                            )) implies #[trigger] self.has_event_spec(e) by {
                        let id2 = choose|id2: Seq<char>|
                            id2 != id@ && self.index_has_spec(e, id2);
                        let i = choose|i: int|
                            0 <= i < self.event_index@.len() && self.event_index@[i].0@ == e
                                && seq_has_str(self.event_index@[i].1@, id2);
                        assert(self.event_index@[i].1@.len() > 0);
                    }
                }
                None
            },
            Some(i) => {
                let ghost prior = *self;
                let p = self.producers.remove(i);
                // Purge the id from every entry; entries keep their
                // positions so the index stays aligned with its events.
                let n = self.event_index.len();
                let mut k: usize = 0;
                while k < n
                    invariant
                        0 <= k <= n,
                        n == self.event_index@.len(),
                        prior.wf(),
                        prior == *old(self),
                        i < prior.producers@.len(),
                        prior.producers@[i as int].id_spec() == id@,
                        self.producers@ == prior.producers@.remove(i as int),
                        self.event_index@.len() == prior.event_index@.len(),
                        forall|m: int|
                            0 <= m < self.event_index@.len() ==> self.event_index@[m].0@
                                == prior.event_index@[m].0@,
                        forall|m: int|
                            k <= m < self.event_index@.len() ==> self.event_index@[m]
                                == prior.event_index@[m],
                        forall|m: int|
                            0 <= m < k ==> distinct_strs(self.event_index@[m].1@) && (forall|
                                s: Seq<char>,
                            |
                                #[trigger] seq_has_str(self.event_index@[m].1@, s) <==> (
                                seq_has_str(prior.event_index@[m].1@, s) && s != id@)),
                    decreases n - k,
                {
                    let entry = self.event_index.remove(k);
                    proof {
                        assert(entry == prior.event_index@[k as int]);
                        assert(distinct_strs(entry.1@));
                    }
                    let filtered = remove_string(&entry.1, id);
                    self.event_index.insert(k, (entry.0, filtered));
                    proof {
                        assert(self.event_index@[k as int].1@ == filtered@);
                        assert forall|m: int|
                            k + 1 <= m < self.event_index@.len() implies self.event_index@[m]
                            == prior.event_index@[m] by {}
                    }
                    k = k + 1;
                }
                proof {
                    lemma_after_remove::<C>(prior, *self, i as int, id@);
                }
                Some(p)
            },
        }
    }
}

/// After removing producer `i` (whose id is `id`) from the table and
/// filtering `id` out of every index entry, the registry is well-formed
/// again and relates to the prior state as `remove_producer` promises.
proof fn lemma_after_remove<C>(prior: ProducerPool<C>, cur: ProducerPool<C>, i: int, id: Seq<char>)
    requires
        prior.wf(),
        0 <= i < prior.producers@.len(),
        prior.producers@[i].id_spec() == id,
        cur.producers@ == prior.producers@.remove(i),
        cur.event_index@.len() == prior.event_index@.len(),
        forall|m: int|
            0 <= m < cur.event_index@.len() ==> cur.event_index@[m].0@ == prior.event_index@[m].0@,
        forall|m: int|
            0 <= m < cur.event_index@.len() ==> distinct_strs(cur.event_index@[m].1@) && (forall|
                s: Seq<char>,
            |
                #[trigger] seq_has_str(cur.event_index@[m].1@, s) <==> (seq_has_str(
                    prior.event_index@[m].1@,
                    s,
                ) && s != id)),
    ensures
        cur.wf(),
        forall|id2: Seq<char>|
            #[trigger] cur.has_producer_spec(id2) <==> (prior.has_producer_spec(id2) && id2 != id),
        forall|id2: Seq<char>, e: Seq<char>|
            #[trigger] cur.subscribed_spec(id2, e) <==> (prior.subscribed_spec(id2, e) && id2
                != id),
        forall|e: Seq<char>, id2: Seq<char>|
            #[trigger] cur.index_has_spec(e, id2) <==> (prior.index_has_spec(e, id2) && id2 != id),
        forall|e: Seq<char>|
            #[trigger] cur.has_event_spec(e) <==> exists|id2: Seq<char>|
                id2 != id && #[trigger] prior.index_has_spec(e, id2),
        forall|id2: Seq<char>|
            id2 != id && prior.has_producer_spec(id2) ==> #[trigger] cur.client_of(id2)
                == prior.client_of(id2),
{
    // Producer-side facts.
    assert forall|id2: Seq<char>| #[trigger] cur.has_producer_spec(id2) implies (
    prior.has_producer_spec(id2) && id2 != id) by {
        let m = choose|m: int|
            0 <= m < cur.producers@.len() && cur.producers@[m].id_spec() == id2;
        let m0: int = if m < i {
            m
        } else {
            m + 1
        };
        assert(prior.producers@[m0] == cur.producers@[m]);
        assert(m0 != i);
    }
    assert forall|id2: Seq<char>|
        prior.has_producer_spec(id2) && id2 != id implies #[trigger] cur.has_producer_spec(
        id2,
    ) by {
        let m0 = choose|m0: int|
            0 <= m0 < prior.producers@.len() && prior.producers@[m0].id_spec() == id2;
        assert(m0 != i);
        let m: int = if m0 < i {
            m0
        } else {
            m0 - 1
        };
        assert(cur.producers@[m] == prior.producers@[m0]);
    }
    assert forall|id2: Seq<char>, e: Seq<char>| #[trigger] cur.subscribed_spec(id2, e) implies (
    prior.subscribed_spec(id2, e) && id2 != id) by {
        let m = choose|m: int|
            0 <= m < cur.producers@.len() && cur.producers@[m].id_spec() == id2
                && cur.producers@[m].subscribed_spec(e);
        let m0: int = if m < i {
            m
        } else {
            m + 1
        };
        assert(prior.producers@[m0] == cur.producers@[m]);
        assert(m0 != i);
    }
    assert forall|id2: Seq<char>, e: Seq<char>|
        prior.subscribed_spec(id2, e) && id2 != id implies #[trigger] cur.subscribed_spec(
        id2,
        e,
    ) by {
        let m0 = choose|m0: int|
            0 <= m0 < prior.producers@.len() && prior.producers@[m0].id_spec() == id2
                && prior.producers@[m0].subscribed_spec(e);
        assert(m0 != i);
        let m: int = if m0 < i {
            m0
        } else {
            m0 - 1
        };
        assert(cur.producers@[m] == prior.producers@[m0]);
    }
    // Index-side facts.
    assert forall|e: Seq<char>, id2: Seq<char>| #[trigger] cur.index_has_spec(e, id2) implies (
    prior.index_has_spec(e, id2) && id2 != id) by {
        let m = choose|m: int|
            0 <= m < cur.event_index@.len() && cur.event_index@[m].0@ == e && seq_has_str(
                cur.event_index@[m].1@,
                id2,
            );
        assert(seq_has_str(prior.event_index@[m].1@, id2) && id2 != id);
    }
    assert forall|e: Seq<char>, id2: Seq<char>|
        prior.index_has_spec(e, id2) && id2 != id implies #[trigger] cur.index_has_spec(
        e,
        id2,
    ) by {
        let m = choose|m: int|
            0 <= m < prior.event_index@.len() && prior.event_index@[m].0@ == e && seq_has_str(
                prior.event_index@[m].1@,
                id2,
            );
        assert(seq_has_str(cur.event_index@[m].1@, id2));
    }
    // Uniqueness of producer ids in the new table.
    assert forall|m1: int, m2: int|
        0 <= m1 < m2 < cur.producers@.len() implies cur.producers@[m1].id_spec()
        != cur.producers@[m2].id_spec() by {
        let n1: int = if m1 < i {
            m1
        } else {
            m1 + 1
        };
        let n2: int = if m2 < i {
            m2
        } else {
            m2 + 1
        };
        assert(cur.producers@[m1] == prior.producers@[n1]);
        assert(cur.producers@[m2] == prior.producers@[n2]);
    }
    assert forall|m: int| 0 <= m < cur.producers@.len() implies cur.producers@[m].wf() by {
        let n1: int = if m < i {
            m
        } else {
            m + 1
        };
        assert(cur.producers@[m] == prior.producers@[n1]);
    }
    // The two sides stay linked.
    assert forall|e: Seq<char>, id2: Seq<char>| #[trigger] cur.index_has_spec(e, id2) implies
    cur.subscribed_spec(id2, e) by {
        assert(prior.index_has_spec(e, id2) && id2 != id);
        assert(prior.subscribed_spec(id2, e));
    }
    assert forall|e: Seq<char>, id2: Seq<char>| cur.subscribed_spec(id2, e) implies #[trigger]
    cur.index_has_spec(e, id2) by {
        assert(prior.subscribed_spec(id2, e) && id2 != id);
        assert(prior.index_has_spec(e, id2));
    }
    // Which events keep a subscriber.
    assert forall|e: Seq<char>| #[trigger] cur.has_event_spec(e) implies exists|id2: Seq<char>|
        id2 != id && #[trigger] prior.index_has_spec(e, id2) by {
        let m = choose|m: int|
            0 <= m < cur.event_index@.len() && cur.event_index@[m].0@ == e
                && cur.event_index@[m].1@.len() > 0;
        let sub = cur.event_index@[m].1@[0]@;
        assert(seq_has_str(cur.event_index@[m].1@, sub));
        assert(cur.index_has_spec(e, sub));
        assert(prior.index_has_spec(e, sub) && sub != id);
    }
    assert forall|e: Seq<char>|
        (exists|id2: Seq<char>|
            id2 != id && #[trigger] prior.index_has_spec(e, id2)) implies #[trigger]
    cur.has_event_spec(e) by {
        let id2 = choose|id2: Seq<char>| id2 != id && prior.index_has_spec(e, id2);
        let m = choose|m: int|
            0 <= m < prior.event_index@.len() && prior.event_index@[m].0@ == e && seq_has_str(
                prior.event_index@[m].1@,
                id2,
            );
        assert(seq_has_str(cur.event_index@[m].1@, id2));
        let j = choose|j: int|
            0 <= j < cur.event_index@[m].1@.len() && cur.event_index@[m].1@[j]@ == id2;
        assert(cur.event_index@[m].1@.len() > 0);
    }
    // Clients of the remaining producers are untouched.
    assert forall|id2: Seq<char>|
        id2 != id && prior.has_producer_spec(id2) implies #[trigger] cur.client_of(id2)
        == prior.client_of(id2) by {
        let m0 = choose|m0: int|
            0 <= m0 < prior.producers@.len() && prior.producers@[m0].id_spec() == id2;
        assert(m0 != i);
        let m: int = if m0 < i {
            m0
        } else {
            m0 - 1
        };
        assert(cur.producers@[m] == prior.producers@[m0]);
        prior.lemma_producer_pinned(m0);
        cur.lemma_producer_pinned(m);
    }
}


impl<C> ProducerPool<C> {
    /// Registers (or replaces) a producer with an empty subscription
    /// set.  Replacing also purges the id from the reverse index, so the
    /// subscription invariant is kept.  Never fails.
    pub fn add_producer(&mut self, id: String, client: C) -> (r: Result<(), TransportError>)
        requires
            old(self).wf(),
        ensures
            r is Ok,
            final(self).wf(),
            final(self).has_producer_spec(id@),
            forall|id2: Seq<char>|
                #[trigger] final(self).has_producer_spec(id2) <==> (old(self).has_producer_spec(
                    id2,
                ) || id2 == id@),
            forall|e: Seq<char>| !final(self).subscribed_spec(id@, e),
            forall|id2: Seq<char>, e: Seq<char>|
                id2 != id@ ==> (#[trigger] final(self).subscribed_spec(id2, e) <==> old(
                    self,
                ).subscribed_spec(id2, e)),
            forall|e: Seq<char>, id2: Seq<char>|
                id2 != id@ ==> (#[trigger] final(self).index_has_spec(e, id2) <==> old(
                    self,
                ).index_has_spec(e, id2)),
            forall|e: Seq<char>| !final(self).index_has_spec(e, id@),
            final(self).count_spec() == old(self).count_spec() + (if old(self).has_producer_spec(
                id@,
            ) {
                0int
            } else {
                1int
            }),
            final(self).client_of(id@) == client,
            forall|id2: Seq<char>|
                id2 != id@ && old(self).has_producer_spec(id2)
                    ==> #[trigger] final(self).client_of(id2) == old(self).client_of(id2),
    {
        let ghost given = client;
        let _prior_entry = self.remove_producer(id.as_str());
        let ghost ar = *self;
        let p = Producer::new(id, client);
        self.producers.push(p);
        proof {
            let ghost pid = self.producers@.last().id_spec();
            assert forall|id2: Seq<char>| #[trigger] self.has_producer_spec(id2) implies (
            ar.has_producer_spec(id2) || id2 == pid) by {
                let m = choose|m: int|
                    0 <= m < self.producers@.len() && self.producers@[m].id_spec() == id2;
                if m < ar.producers@.len() {
                    assert(ar.producers@[m] == self.producers@[m]);
                }
            }
            assert forall|id2: Seq<char>|
                ar.has_producer_spec(id2) implies #[trigger] self.has_producer_spec(id2) by {
                let m = choose|m: int|
                    0 <= m < ar.producers@.len() && ar.producers@[m].id_spec() == id2;
                assert(self.producers@[m] == ar.producers@[m]);
            }
            assert(self.has_producer_spec(pid)) by {
                assert(self.producers@.last().id_spec() == pid);
            }
            assert forall|id2: Seq<char>, e: Seq<char>| #[trigger] self.subscribed_spec(
                id2,
                e,
            ) implies (ar.subscribed_spec(id2, e) || id2 == pid) by {
                let m = choose|m: int|
                    0 <= m < self.producers@.len() && self.producers@[m].id_spec() == id2
                        && self.producers@[m].subscribed_spec(e);
                if m < ar.producers@.len() {
                    assert(ar.producers@[m] == self.producers@[m]);
                }
            }
            assert forall|id2: Seq<char>, e: Seq<char>|
                ar.subscribed_spec(id2, e) implies #[trigger] self.subscribed_spec(id2, e) by {
                let m = choose|m: int|
                    0 <= m < ar.producers@.len() && ar.producers@[m].id_spec() == id2
                        && ar.producers@[m].subscribed_spec(e);
                assert(self.producers@[m] == ar.producers@[m]);
            }
            assert forall|e: Seq<char>| !(#[trigger] self.subscribed_spec(pid, e)) by {
                if self.subscribed_spec(pid, e) {
                    let m = choose|m: int|
                        0 <= m < self.producers@.len() && self.producers@[m].id_spec() == pid
                            && self.producers@[m].subscribed_spec(e);
                    if m < ar.producers@.len() {
                        assert(ar.producers@[m] == self.producers@[m]);
                        assert(ar.has_producer_spec(pid));
                    }
                }
            }
            // The table stays duplicate-free: the new id was purged.
            assert forall|m1: int, m2: int|
                0 <= m1 < m2 < self.producers@.len() implies self.producers@[m1].id_spec()
                != self.producers@[m2].id_spec() by {
                if m2 == ar.producers@.len() {
                    assert(self.producers@[m1] == ar.producers@[m1]);
                    if self.producers@[m1].id_spec() == pid {
                        assert(ar.has_producer_spec(pid));
                    }
                } else {
                    assert(self.producers@[m1] == ar.producers@[m1]);
                    assert(self.producers@[m2] == ar.producers@[m2]);
                }
            }
            assert forall|m: int| 0 <= m < self.producers@.len() implies self.producers@[m].wf() by {
                if m < ar.producers@.len() {
                    assert(self.producers@[m] == ar.producers@[m]);
                }
            }
            // Index untouched by the push.
            assert(self.event_index@ == ar.event_index@);
            assert forall|e: Seq<char>, id2: Seq<char>| #[trigger] self.index_has_spec(
                e,
                id2,
            ) implies self.subscribed_spec(id2, e) by {
                assert(ar.index_has_spec(e, id2));
                assert(ar.subscribed_spec(id2, e));
            }
            assert forall|e: Seq<char>, id2: Seq<char>|
                self.subscribed_spec(id2, e) implies #[trigger] self.index_has_spec(e, id2) by {
                if id2 != pid {
                    assert(ar.subscribed_spec(id2, e));
                    assert(ar.index_has_spec(e, id2));
                }
            }
            // The new producer carries the given client; the others
            // keep theirs.
            self.lemma_producer_pinned(ar.producers@.len() as int);
            assert(self.client_of(pid) == given);
            assert forall|id2: Seq<char>|
                id2 != pid && old(self).has_producer_spec(id2) implies #[trigger] self.client_of(
                id2,
            ) == old(self).client_of(id2) by {
                assert(ar.has_producer_spec(id2));
                let m = choose|m: int|
                    0 <= m < ar.producers@.len() && ar.producers@[m].id_spec() == id2;
                assert(self.producers@[m] == ar.producers@[m]);
                ar.lemma_producer_pinned(m);
                self.lemma_producer_pinned(m);
            }
        }
        Ok(())
    }

    /// Registers a producer and subscribes it to each listed event, so
    /// that routing sees the producer only with its full subscription
    /// set.  Never fails.
    pub fn add_producer_with_events(
        &mut self,
        id: String,
        client: C,
        events: &[&str],
    ) -> (r: Result<(), TransportError>)
        requires
            old(self).wf(),
        ensures
            r is Ok,
            final(self).wf(),
            forall|id2: Seq<char>|
                #[trigger] final(self).has_producer_spec(id2) <==> (old(self).has_producer_spec(
                    id2,
                ) || id2 == id@),
            forall|e: Seq<char>|
                #[trigger] final(self).subscribed_spec(id@, e) <==> exists|k: int|
                    0 <= k < events@.len() && events@[k]@ == e,
            forall|id2: Seq<char>, e: Seq<char>|
                id2 != id@ ==> (#[trigger] final(self).subscribed_spec(id2, e) <==> old(
                    self,
                ).subscribed_spec(id2, e)),
            final(self).client_of(id@) == client,
            forall|id2: Seq<char>|
                id2 != id@ && old(self).has_producer_spec(id2)
                    ==> #[trigger] final(self).client_of(id2) == old(self).client_of(id2),
    {
        let ghost given = client;
        let id_key = id.clone();
        let _ = self.add_producer(id, client);
        let n = events.len();
        let mut k: usize = 0;
        while k < n
            invariant
                0 <= k <= n,
                n == events@.len(),
                id_key@ == id@,
                self.wf(),
                self.has_producer_spec(id@),
                forall|id2: Seq<char>|
                    #[trigger] self.has_producer_spec(id2) <==> (old(self).has_producer_spec(id2)
                        || id2 == id@),
                forall|e: Seq<char>|
                    #[trigger] self.subscribed_spec(id@, e) <==> exists|k2: int|
                        0 <= k2 < k && events@[k2]@ == e,
                forall|id2: Seq<char>, e: Seq<char>|
                    id2 != id@ ==> (#[trigger] self.subscribed_spec(id2, e) <==> old(
                        self,
                    ).subscribed_spec(id2, e)),
                self.client_of(id@) == given,
                forall|id2: Seq<char>|
                    id2 != id@ && old(self).has_producer_spec(id2)
                        ==> #[trigger] self.client_of(id2) == old(self).client_of(id2),
            decreases n - k,
        {
            let _ = self.subscribe_producer_to_event(id_key.as_str(), events[k]);
            k = k + 1;
        }
        Ok(())
    }

    /// Looks up a producer by id: the one registered under it, with
    /// its client and subscriptions.
    pub fn get_producer(&self, id: &str) -> (r: Option<&Producer<C>>)
        requires
            self.wf(),
        ensures
            match r {
                Some(p) => self.has_producer_spec(id@) && p.id_spec() == id@ && p.client_spec()
                    == self.client_of(id@) && p.event_views() == self.producer_events(id@) && forall|
                    e: Seq<char>,
                |
                    #[trigger] p.subscribed_spec(e) <==> self.subscribed_spec(id@, e),
                None => !self.has_producer_spec(id@),
            },
    {
        let found = self.find_producer(id);
        match found {
            Some(i) => {
                proof {
                    self.lemma_subscribed_at(i as int);
                    self.lemma_producer_pinned(i as int);
                }
                Some(&self.producers[i])
            },
            None => None,
        }
    }

    /// For a well-formed pool, producer `i` carries exactly the
    /// subscriptions that `subscribed_spec` reports for its id.
    proof fn lemma_subscribed_at(&self, i: int)
        requires
            self.wf(),
            0 <= i < self.producers@.len(),
        ensures
            forall|e: Seq<char>|
                #[trigger] self.producers@[i].subscribed_spec(e) <==> self.subscribed_spec(
                    self.producers@[i].id_spec(),
                    e,
                ),
    {
        let pid = self.producers@[i].id_spec();
        assert forall|e: Seq<char>|
            self.subscribed_spec(pid, e) implies #[trigger] self.producers@[i].subscribed_spec(
            e,
        ) by {
            let m = choose|m: int|
                0 <= m < self.producers@.len() && self.producers@[m].id_spec() == pid
                    && self.producers@[m].subscribed_spec(e);
            if m != i {
                if m < i {
                    assert(self.producers@[m].id_spec() != self.producers@[i].id_spec());
                } else {
                    assert(self.producers@[i].id_spec() != self.producers@[m].id_spec());
                }
            }
        }
    }

    /// The ids of all registered producers, in table order, each once:
    /// exactly the registered ids.
    pub fn get_producer_ids(&self) -> (r: Vec<String>)
        requires
            self.wf(),
        ensures
            r@.len() == self.count_spec(),
            self.ids_seq().len() == self.count_spec(),
            forall|i: int| 0 <= i < r@.len() ==> r@[i]@ == self.ids_seq()[i],
            forall|i1: int, i2: int| 0 <= i1 < i2 < r@.len() ==> r@[i1]@ != r@[i2]@,
            forall|id2: Seq<char>|
                (exists|i: int| 0 <= i < r@.len() && r@[i]@ == id2) <==> #[trigger] self
                    .has_producer_spec(id2),
    {
        let n = self.producers.len();
        let mut out: Vec<String> = Vec::new();
        let mut i: usize = 0;
        while i < n
            invariant
                0 <= i <= n,
                n == self.producers@.len(),
                out@.len() == i,
                forall|k: int| 0 <= k < i ==> out@[k]@ == self.producers@[k].id_spec(),
            decreases n - i,
        {
            out.push(self.producers[i].id().to_owned());
            i = i + 1;
        }
        proof {
            assert forall|i1: int, i2: int| 0 <= i1 < i2 < out@.len() implies out@[i1]@
                != out@[i2]@ by {
                assert(self.producers@[i1].id_spec() != self.producers@[i2].id_spec());
            }
            assert forall|id2: Seq<char>|
                (exists|i: int|
                    0 <= i < out@.len() && out@[i]@ == id2) implies #[trigger] self.has_producer_spec(
                id2,
            ) by {
                let i = choose|i: int| 0 <= i < out@.len() && out@[i]@ == id2;
                assert(self.producers@[i].id_spec() == id2);
            }
            assert forall|id2: Seq<char>| #[trigger] self.has_producer_spec(id2) implies (exists|
                i: int,
            | 0 <= i < out@.len() && out@[i]@ == id2) by {
                let i = choose|i: int|
                    0 <= i < self.producers@.len() && self.producers@[i].id_spec() == id2;
                assert(out@[i]@ == id2);
            }
        }
        out
    }

    /// The number of registered producers.
    pub fn count(&self) -> (r: usize)
        ensures
            r == self.count_spec(),
    {
        self.producers.len()
    }

    /// Whether a producer with id `id` is registered.
    pub fn has_producer(&self, id: &str) -> (r: bool)
        ensures
            r == self.has_producer_spec(id@),
    {
        self.find_producer(id).is_some()
    }

    /// Subscribes a registered producer to an event and records it in
    /// the reverse index; fails with a not-found error when the id is
    /// unknown.  Subscribing twice is a no-op.
    pub fn subscribe_producer_to_event(&mut self, producer_id: &str, event_name: &str) -> (r:
        Result<(), TransportError>)
        requires
            old(self).wf(),
        ensures
            final(self).wf(),
            r is Ok <==> old(self).has_producer_spec(producer_id@),
            !old(self).has_producer_spec(producer_id@) ==> (r matches Err(
                TransportError::NotFound(m),
            ) && m@ == not_found_msg(producer_id@) && *final(self) == *old(self)),
            r is Ok ==> forall|id2: Seq<char>, e: Seq<char>|
                #[trigger] final(self).subscribed_spec(id2, e) <==> (old(self).subscribed_spec(
                    id2,
                    e,
                ) || (id2 == producer_id@ && e == event_name@)),
            r is Ok ==> forall|e: Seq<char>|
                #[trigger] final(self).has_event_spec(e) <==> (old(self).has_event_spec(e) || e
                    == event_name@),
            forall|id2: Seq<char>|
                #[trigger] final(self).has_producer_spec(id2) <==> old(self).has_producer_spec(
                    id2,
                ),
            forall|id2: Seq<char>|
                old(self).has_producer_spec(id2)
                    ==> #[trigger] final(self).client_of(id2) == old(self).client_of(id2),
            final(self).count_spec() == old(self).count_spec(),
    {
        let found = self.find_producer(producer_id);
        match found {
            None => Err(make_not_found(producer_id)),
            Some(i) => {
                let ghost prior = *self;
                let mut p = self.producers.remove(i);
                p.subscribe(event_name);
                self.producers.insert(i, p);
                proof {
                    assert(self.producers@ =~= prior.producers@.update(
                        i as int,
                        self.producers@[i as int],
                    ));
                }
                let entry_pos = self.find_entry(event_name);
                match entry_pos {
                    Some(j) => {
                        let entry = self.event_index.remove(j);
                        proof {
                            assert(entry == prior.event_index@[j as int]);
                        }
                        let already = find_string(&entry.1, producer_id);
                        let mut subs = entry.1;
                        let ghost subs0 = subs@;
                        if already.is_none() {
                            subs.push(producer_id.to_owned());
                            proof {
                                assert(subs@[subs0.len() as int]@ == producer_id@);
                                assert forall|s: Seq<char>| #[trigger] seq_has_str(subs@, s) implies
                                (seq_has_str(subs0, s) || s == producer_id@) by {
                                    let m = choose|m: int|
                                        0 <= m < subs@.len() && subs@[m]@ == s;
                                    if m < subs0.len() {
                                        assert(subs0[m]@ == s);
                                    }
                                }
                                assert forall|s: Seq<char>|
                                    seq_has_str(subs0, s) implies #[trigger] seq_has_str(
                                    subs@,
                                    s,
                                ) by {
                                    let m = choose|m: int|
                                        0 <= m < subs0.len() && subs0[m]@ == s;
                                    assert(subs@[m]@ == s);
                                }
                                assert(distinct_strs(subs0));
                                assert forall|m1: int, m2: int|
                                    0 <= m1 < m2 < subs@.len() implies subs@[m1]@
                                    != subs@[m2]@ by {
                                    if m2 == subs0.len() {
                                        assert(subs@[m1]@ == subs0[m1]@);
                                        assert(!seq_has_str(subs0, producer_id@));
                                    }
                                }
                            }
                        } else {
                            proof {
                                assert(seq_has_str(subs0, producer_id@));
                                assert(distinct_strs(subs@));
                            }
                        }
                        self.event_index.insert(j, (entry.0, subs));
                        proof {
                            assert(self.event_index@ =~= prior.event_index@.update(
                                j as int,
                                self.event_index@[j as int],
                            ));
                            lemma_subscribe_entry_updated::<C>(
                                prior,
                                *self,
                                i as int,
                                j as int,
                                producer_id@,
                                event_name@,
                            );
                        }
                    },
                    None => {
                        let mut subs: Vec<String> = Vec::new();
                        subs.push(producer_id.to_owned());
                        self.event_index.push((event_name.to_owned(), subs));
                        proof {
                            lemma_subscribe_entry_pushed::<C>(
                                prior,
                                *self,
                                i as int,
                                producer_id@,
                                event_name@,
                            );
                        }
                    },
                }
                Ok(())
            },
        }
    }

    /// Unsubscribes a registered producer from an event and removes it
    /// from the reverse index; fails with a not-found error when the id
    /// is unknown.  Unsubscribing from a non-subscribed event is a
    /// no-op.
    pub fn unsubscribe_producer_from_event(&mut self, producer_id: &str, event_name: &str) -> (r:
        Result<(), TransportError>)
        requires
            old(self).wf(),
        ensures
            final(self).wf(),
            r is Ok <==> old(self).has_producer_spec(producer_id@),
            !old(self).has_producer_spec(producer_id@) ==> (r matches Err(
                TransportError::NotFound(m),
            ) && m@ == not_found_msg(producer_id@) && *final(self) == *old(self)),
            r is Ok ==> forall|id2: Seq<char>, e: Seq<char>|
                #[trigger] final(self).subscribed_spec(id2, e) <==> (old(self).subscribed_spec(
                    id2,
                    e,
                ) && !(id2 == producer_id@ && e == event_name@)),
            r is Ok ==> forall|e: Seq<char>|
                e != event_name@ ==> (#[trigger] final(self).has_event_spec(e) <==> old(
                    self,
                ).has_event_spec(e)),
            r is Ok ==> (final(self).has_event_spec(event_name@) <==> exists|id2: Seq<char>|
                id2 != producer_id@ && #[trigger] old(self).index_has_spec(event_name@, id2)),
            forall|id2: Seq<char>|
                #[trigger] final(self).has_producer_spec(id2) <==> old(self).has_producer_spec(
                    id2,
                ),
            forall|id2: Seq<char>|
                old(self).has_producer_spec(id2)
                    ==> #[trigger] final(self).client_of(id2) == old(self).client_of(id2),
            final(self).count_spec() == old(self).count_spec(),
    {
        let found = self.find_producer(producer_id);
        match found {
            None => Err(make_not_found(producer_id)),
            Some(i) => {
                let ghost prior = *self;
                let mut p = self.producers.remove(i);
                p.unsubscribe(event_name);
                self.producers.insert(i, p);
                proof {
                    assert(self.producers@ =~= prior.producers@.update(
                        i as int,
                        self.producers@[i as int],
                    ));
                }
                let entry_pos = self.find_entry(event_name);
                match entry_pos {
                    Some(j) => {
                        let entry = self.event_index.remove(j);
                        proof {
                            assert(entry == prior.event_index@[j as int]);
                            assert(distinct_strs(entry.1@));
                        }
                        let filtered = remove_string(&entry.1, producer_id);
                        self.event_index.insert(j, (entry.0, filtered));
                        proof {
                            assert(self.event_index@ =~= prior.event_index@.update(
                                j as int,
                                self.event_index@[j as int],
                            ));
                            lemma_unsubscribe_entry_updated::<C>(
                                prior,
                                *self,
                                i as int,
                                j as int,
                                producer_id@,
                                event_name@,
                            );
                        }
                    },
                    None => {
                        proof {
                            lemma_unsubscribe_no_entry::<C>(
                                prior,
                                *self,
                                i as int,
                                producer_id@,
                                event_name@,
                            );
                        }
                    },
                }
                Ok(())
            },
        }
    }

    /// The events that currently have at least one subscriber, in
    /// index order, each listed once.
    pub fn get_subscribed_events(&self) -> (r: Vec<String>)
        requires
            self.wf(),
        ensures
            r@.len() == self.events_with_subscribers().len(),
            forall|j: int| 0 <= j < r@.len() ==> r@[j]@ == self.events_with_subscribers()[j],
            forall|j1: int, j2: int| 0 <= j1 < j2 < r@.len() ==> r@[j1]@ != r@[j2]@,
            forall|e: Seq<char>|
                (exists|j: int| 0 <= j < r@.len() && r@[j]@ == e) <==> #[trigger] self.has_event_spec(
                    e,
                ),
    {
        let n = self.event_index.len();
        let mut out: Vec<String> = Vec::new();
        let ghost mut src: Seq<int> = Seq::empty();
        let mut i: usize = 0;
        while i < n
            invariant
                0 <= i <= n,
                n == self.event_index@.len(),
                out@.len() == surviving_events(self.event_index@.subrange(0, i as int)).len(),
                forall|j: int|
                    0 <= j < out@.len() ==> out@[j]@ == surviving_events(
                        self.event_index@.subrange(0, i as int),
                    )[j],
                src.len() == out@.len(),
                forall|j: int|
                    0 <= j < src.len() ==> 0 <= #[trigger] src[j] < i && self.event_index@[src[j]].0@
                        == out@[j]@ && self.event_index@[src[j]].1@.len() > 0,
                forall|j1: int, j2: int| 0 <= j1 < j2 < src.len() ==> src[j1] < src[j2],
                forall|m: int|
                    0 <= m < i && #[trigger] self.event_index@[m].1@.len() > 0 ==> exists|j: int|
                        0 <= j < src.len() && src[j] == m,
            decreases n - i,
        {
            proof {
                lemma_surviving_snoc(
                    self.event_index@.subrange(0, i as int),
                    self.event_index@[i as int],
                );
                assert(self.event_index@.subrange(0, i + 1 as int) =~= self.event_index@.subrange(
                    0,
                    i as int,
                ).push(self.event_index@[i as int]));
            }
            if self.event_index[i].1.len() > 0 {
                out.push(self.event_index[i].0.clone());
                proof {
                    let prior_src = src;
                    src = src.push(i as int);
                    assert(src[src.len() - 1] == i as int);
                    assert forall|m: int|
                        0 <= m < i + 1 && #[trigger] self.event_index@[m].1@.len() > 0 implies
                    exists|j: int| 0 <= j < src.len() && src[j] == m by {
                        if m < i {
                            let j = choose|j: int| 0 <= j < prior_src.len() && prior_src[j] == m;
                            assert(src[j] == m);
                        } else {
                            assert(src[src.len() - 1] == m);
                        }
                    }
                }
            }
            i = i + 1;
        }
        proof {
            assert(self.event_index@.subrange(0, n as int) =~= self.event_index@);
            assert forall|j1: int, j2: int| 0 <= j1 < j2 < out@.len() implies out@[j1]@
                != out@[j2]@ by {
                assert(src[j1] < src[j2]);
                assert(self.event_index@[src[j1]].0@ != self.event_index@[src[j2]].0@);
            }
            assert forall|e: Seq<char>|
                (exists|j: int| 0 <= j < out@.len() && out@[j]@ == e) implies #[trigger] self
                .has_event_spec(e) by {
                let j = choose|j: int| 0 <= j < out@.len() && out@[j]@ == e;
                assert(self.event_index@[src[j]].0@ == e
                    && self.event_index@[src[j]].1@.len() > 0);
            }
            assert forall|e: Seq<char>| #[trigger] self.has_event_spec(e) implies (exists|j: int|
                0 <= j < out@.len() && out@[j]@ == e) by {
                let m = choose|m: int|
                    0 <= m < self.event_index@.len() && self.event_index@[m].0@ == e
                        && self.event_index@[m].1@.len() > 0;
                let j = choose|j: int| 0 <= j < src.len() && src[j] == m;
                assert(out@[j]@ == e);
            }
        }
        out
    }

    /// The ids subscribed to `event_name`, in index order; empty when
    /// the event is unknown.
    pub fn get_event_subscribers(&self, event_name: &str) -> (r: Vec<String>)
        requires
            self.wf(),
        ensures
            r@.len() == self.subscribers_of(event_name@).len(),
            forall|j: int| 0 <= j < r@.len() ==> r@[j]@ == self.subscribers_of(event_name@)[j],
            forall|j1: int, j2: int| 0 <= j1 < j2 < r@.len() ==> r@[j1]@ != r@[j2]@,
            forall|id2: Seq<char>|
                (exists|j: int| 0 <= j < r@.len() && r@[j]@ == id2) <==> #[trigger] self
                    .index_has_spec(event_name@, id2),
    {
        let entry_pos = self.find_entry(event_name);
        match entry_pos {
            None => {
                let out: Vec<String> = Vec::new();
                proof {
                    assert forall|id2: Seq<char>| !(#[trigger] self.index_has_spec(
                        event_name@,
                        id2,
                    )) by {
                        if self.index_has_spec(event_name@, id2) {
                            let m = choose|m: int|
                                0 <= m < self.event_index@.len() && self.event_index@[m].0@
                                    == event_name@ && seq_has_str(self.event_index@[m].1@, id2);
                        }
                    }
                }
                out
            },
            Some(j) => {
                proof {
                    self.lemma_subscribers_at(j as int, event_name@);
                }
                let n = self.event_index[j].1.len();
                let mut out: Vec<String> = Vec::new();
                let mut k: usize = 0;
                while k < n
                    invariant
                        0 <= k <= n,
                        j < self.event_index@.len(),
                        n == self.event_index@[j as int].1@.len(),
                        out@.len() == k,
                        forall|m: int|
                            0 <= m < k ==> out@[m]@ == self.event_index@[j as int].1@[m]@,
                    decreases n - k,
                {
                    out.push(self.event_index[j].1[k].clone());
                    k = k + 1;
                }
                proof {
                    assert(distinct_strs(self.event_index@[j as int].1@));
                    assert forall|j1: int, j2: int| 0 <= j1 < j2 < out@.len() implies out@[j1]@
                        != out@[j2]@ by {
                        assert(self.event_index@[j as int].1@[j1]@
                            != self.event_index@[j as int].1@[j2]@);
                    }
                    assert forall|id2: Seq<char>|
                        (exists|m: int|
                            0 <= m < out@.len() && out@[m]@ == id2) implies #[trigger] self
                        .index_has_spec(event_name@, id2) by {
                        let m = choose|m: int| 0 <= m < out@.len() && out@[m]@ == id2;
                        assert(self.event_index@[j as int].1@[m]@ == id2);
                        assert(seq_has_str(self.event_index@[j as int].1@, id2));
                    }
                    assert forall|id2: Seq<char>| #[trigger] self.index_has_spec(
                        event_name@,
                        id2,
                    ) implies (exists|m: int| 0 <= m < out@.len() && out@[m]@ == id2) by {
                        assert(seq_has_str(self.event_index@[j as int].1@, id2));
                        let m = choose|m: int|
                            0 <= m < self.event_index@[j as int].1@.len()
                                && self.event_index@[j as int].1@[m]@ == id2;
                        assert(out@[m]@ == id2);
                    }
                }
                out
            },
        }
    }

    /// For a well-formed pool with the entry for `e` at position `j`,
    /// `subscribers_of(e)` is exactly that entry's list.
    proof fn lemma_subscribers_at(&self, j: int, e: Seq<char>)
        requires
            self.wf(),
            0 <= j < self.event_index@.len(),
            self.event_index@[j].0@ == e,
        ensures
            self.subscribers_of(e) == Seq::new(
                self.event_index@[j].1@.len(),
                |k: int| self.event_index@[j].1@[k]@,
            ),
            forall|id2: Seq<char>|
                #[trigger] self.index_has_spec(e, id2) <==> seq_has_str(
                    self.event_index@[j].1@,
                    id2,
                ),
    {
        let i = choose|i: int| 0 <= i < self.event_index@.len() && self.event_index@[i].0@ == e;
        if i != j {
            if i < j {
                assert(self.event_index@[i].0@ != self.event_index@[j].0@);
            } else {
                assert(self.event_index@[j].0@ != self.event_index@[i].0@);
            }
        }
        assert forall|id2: Seq<char>| #[trigger] self.index_has_spec(e, id2) implies seq_has_str(
            self.event_index@[j].1@,
            id2,
        ) by {
            let m = choose|m: int|
                0 <= m < self.event_index@.len() && self.event_index@[m].0@ == e && seq_has_str(
                    self.event_index@[m].1@,
                    id2,
                );
            if m != j {
                if m < j {
                    assert(self.event_index@[m].0@ != self.event_index@[j].0@);
                } else {
                    assert(self.event_index@[j].0@ != self.event_index@[m].0@);
                }
            }
        }
    }
}

impl<C: Client> ProducerPool<C> {
    /// Forwards `message` to the producer with id `producer_id`.  An
    /// unknown id yields the not-found error; otherwise the outcome is
    /// the producer's client's own, surfaced unchanged.
    pub fn forward_to(&self, producer_id: &str, message: &str) -> (r: Result<(), TransportError>)
        requires
            self.wf(),
        ensures
            !self.has_producer_spec(producer_id@) ==> (r matches Err(TransportError::NotFound(m))
                && m@ == not_found_msg(producer_id@)),
            self.has_producer_spec(producer_id@) ==> call_ensures(
                C::send,
                (&self.client_of(producer_id@), message),
                r,
            ),
    {
        let found = self.find_producer(producer_id);
        match found {
            None => Err(make_not_found(producer_id)),
            Some(i) => {
                proof {
                    self.lemma_producer_pinned(i as int);
                }
                self.producers[i].forward(message)
            },
        }
    }

    /// Forwards `message` to every registered producer; each producer's
    /// outcome is recorded independently, in table order, one slot per
    /// producer.
    pub fn forward_to_all(&self, message: &str) -> (r: Vec<(String, Result<(), TransportError>)>)
        requires
            self.wf(),
        ensures
            r@.len() == self.count_spec(),
            forall|i: int| 0 <= i < r@.len() ==> r@[i].0@ == self.ids_seq()[i],
            forall|i1: int, i2: int| 0 <= i1 < i2 < r@.len() ==> r@[i1].0@ != r@[i2].0@,
            forall|id2: Seq<char>|
                (exists|i: int| 0 <= i < r@.len() && r@[i].0@ == id2) <==> #[trigger] self
                    .has_producer_spec(id2),
            forall|i: int|
                0 <= i < r@.len() ==> #[trigger] call_ensures(
                    C::send,
                    (&self.client_of(r@[i].0@), message),
                    r@[i].1,
                ),
    {
        let n = self.producers.len();
        let mut out: Vec<(String, Result<(), TransportError>)> = Vec::new();
        let mut i: usize = 0;
        while i < n
            invariant
                self.wf(),
                0 <= i <= n,
                n == self.producers@.len(),
                out@.len() == i,
                forall|k: int| 0 <= k < i ==> out@[k].0@ == self.producers@[k].id_spec(),
                forall|k: int|
                    0 <= k < i ==> #[trigger] call_ensures(
                        C::send,
                        (&self.client_of(out@[k].0@), message),
                        out@[k].1,
                    ),
            decreases n - i,
        {
            proof {
                self.lemma_producer_pinned(i as int);
            }
            let res = self.producers[i].forward(message);
            out.push((self.producers[i].id().to_owned(), res));
            i = i + 1;
        }
        proof {
            assert forall|i1: int, i2: int| 0 <= i1 < i2 < out@.len() implies out@[i1].0@
                != out@[i2].0@ by {
                assert(self.producers@[i1].id_spec() != self.producers@[i2].id_spec());
            }
            assert forall|id2: Seq<char>|
                (exists|i: int|
                    0 <= i < out@.len() && out@[i].0@ == id2) implies #[trigger] self
                .has_producer_spec(id2) by {
                let i = choose|i: int| 0 <= i < out@.len() && out@[i].0@ == id2;
                assert(self.producers@[i].id_spec() == id2);
            }
            assert forall|id2: Seq<char>| #[trigger] self.has_producer_spec(id2) implies (exists|
                i: int,
            | 0 <= i < out@.len() && out@[i].0@ == id2) by {
                let i = choose|i: int|
                    0 <= i < self.producers@.len() && self.producers@[i].id_spec() == id2;
                assert(out@[i].0@ == id2);
            }
        }
        out
    }

    /// Forwards `message` to each listed producer id; an unknown id
    /// yields a not-found outcome in its slot, never aborting the batch.
    pub fn forward_to_many(&self, producer_ids: &[&str], message: &str) -> (r: Vec<
        (String, Result<(), TransportError>),
    >)
        requires
            self.wf(),
        ensures
            r@.len() == producer_ids@.len(),
            forall|i: int| 0 <= i < r@.len() ==> r@[i].0@ == producer_ids@[i]@,
            forall|i: int|
                0 <= i < r@.len() && !self.has_producer_spec(producer_ids@[i]@) ==> (#[trigger] r@[i].1
                    matches Err(TransportError::NotFound(m)) && m@ == not_found_msg(
                    producer_ids@[i]@,
                )),
            forall|i: int|
                0 <= i < r@.len() && self.has_producer_spec(producer_ids@[i]@)
                    ==> #[trigger] call_ensures(
                    C::send,
                    (&self.client_of(producer_ids@[i]@), message),
                    r@[i].1,
                ),
    {
        let n = producer_ids.len();
        let mut out: Vec<(String, Result<(), TransportError>)> = Vec::new();
        let mut i: usize = 0;
        while i < n
            invariant
                0 <= i <= n,
                self.wf(),
                n == producer_ids@.len(),
                out@.len() == i,
                forall|k: int| 0 <= k < i ==> out@[k].0@ == producer_ids@[k]@,
                forall|k: int|
                    0 <= k < i && !self.has_producer_spec(producer_ids@[k]@) ==> (#[trigger] out@[k].1
                        matches Err(TransportError::NotFound(m)) && m@ == not_found_msg(
                        producer_ids@[k]@,
                    )),
                forall|k: int|
                    0 <= k < i && self.has_producer_spec(producer_ids@[k]@)
                        ==> #[trigger] call_ensures(
                        C::send,
                        (&self.client_of(producer_ids@[k]@), message),
                        out@[k].1,
                    ),
            decreases n - i,
        {
            let res = self.forward_to(producer_ids[i], message);
            out.push((producer_ids[i].to_owned(), res));
            i = i + 1;
        }
        out
    }

    /// Forwards `message` to every producer subscribed to `event_name`.
    /// Each subscriber is delivered to exactly once, in index order; an
    /// unknown event yields an empty result, not an error.  One
    /// subscriber's failure never aborts the batch: every subscriber
    /// gets its own slot in the result.
    pub fn forward_to_event(&self, event_name: &str, message: &str) -> (r: Vec<
        (String, Result<(), TransportError>),
    >)
        requires
            self.wf(),
        ensures
            r@.len() == self.subscribers_of(event_name@).len(),
            forall|i: int| 0 <= i < r@.len() ==> r@[i].0@ == self.subscribers_of(event_name@)[i],
            forall|i1: int, i2: int| 0 <= i1 < i2 < r@.len() ==> r@[i1].0@ != r@[i2].0@,
            forall|id2: Seq<char>|
                (exists|i: int| 0 <= i < r@.len() && r@[i].0@ == id2) <==> #[trigger] self
                    .index_has_spec(event_name@, id2),
            forall|i: int|
                0 <= i < r@.len() ==> #[trigger] call_ensures(
                    C::send,
                    (&self.client_of(r@[i].0@), message),
                    r@[i].1,
                ),
    {
        let entry_pos = self.find_entry(event_name);
        match entry_pos {
            None => {
                let out: Vec<(String, Result<(), TransportError>)> = Vec::new();
                proof {
                    assert forall|id2: Seq<char>| !(#[trigger] self.index_has_spec(
                        event_name@,
                        id2,
                    )) by {
                        if self.index_has_spec(event_name@, id2) {
                            let m = choose|m: int|
                                0 <= m < self.event_index@.len() && self.event_index@[m].0@
                                    == event_name@ && seq_has_str(self.event_index@[m].1@, id2);
                        }
                    }
                }
                out
            },
            Some(j) => {
                proof {
                    self.lemma_subscribers_at(j as int, event_name@);
                }
                let n = self.event_index[j].1.len();
                let mut out: Vec<(String, Result<(), TransportError>)> = Vec::new();
                let mut k: usize = 0;
                while k < n
                    invariant
                        0 <= k <= n,
                        self.wf(),
                        j < self.event_index@.len(),
                        n == self.event_index@[j as int].1@.len(),
                        out@.len() == k,
                        self.event_index@[j as int].0@ == event_name@,
                        forall|m: int|
                            0 <= m < k ==> out@[m].0@ == self.event_index@[j as int].1@[m]@,
                        forall|m: int|
                            0 <= m < k ==> #[trigger] call_ensures(
                                C::send,
                                (&self.client_of(out@[m].0@), message),
                                out@[m].1,
                            ),
                    decreases n - k,
                {
                    let sub_id = self.event_index[j].1[k].clone();
                    proof {
                        // Every indexed subscriber is a registered
                        // producer, by the subscription invariant.
                        assert(seq_has_str(self.event_index@[j as int].1@, sub_id@));
                        assert(self.index_has_spec(event_name@, sub_id@));
                        assert(self.subscribed_spec(sub_id@, event_name@));
                        assert(self.has_producer_spec(sub_id@));
                    }
                    let res = self.forward_to(sub_id.as_str(), message);
                    out.push((sub_id, res));
                    k = k + 1;
                }
                proof {
                    assert(distinct_strs(self.event_index@[j as int].1@));
                    assert forall|i1: int, i2: int|
                        0 <= i1 < i2 < out@.len() implies out@[i1].0@ != out@[i2].0@ by {
                        assert(self.event_index@[j as int].1@[i1]@
                            != self.event_index@[j as int].1@[i2]@);
                    }
                    assert forall|id2: Seq<char>|
                        (exists|i: int|
                            0 <= i < out@.len() && out@[i].0@ == id2) implies #[trigger] self
                        .index_has_spec(event_name@, id2) by {
                        let i = choose|i: int| 0 <= i < out@.len() && out@[i].0@ == id2;
                        assert(self.event_index@[j as int].1@[i]@ == id2);
                        assert(seq_has_str(self.event_index@[j as int].1@, id2));
                    }
                    assert forall|id2: Seq<char>| #[trigger] self.index_has_spec(
                        event_name@,
                        id2,
                    ) implies (exists|i: int| 0 <= i < out@.len() && out@[i].0@ == id2) by {
                        assert(seq_has_str(self.event_index@[j as int].1@, id2));
                        let m = choose|m: int|
                            0 <= m < self.event_index@[j as int].1@.len()
                                && self.event_index@[j as int].1@[m]@ == id2;
                        assert(out@[m].0@ == id2);
                    }
                }
                out
            },
        }
    }
}

impl<C> Default for ProducerPool<C> {
    /// An empty pool.
    fn default() -> (r: Self)
        ensures
            r.wf(),
            r.count_spec() == 0,
            forall|id: Seq<char>| !r.has_producer_spec(id),
            forall|e: Seq<char>| !r.has_event_spec(e),
    {
        ProducerPool::new()
    }
}

/// Re-establishes well-formedness after a subscribe that updated the
/// producer at `i` and the existing index entry at `j`.
proof fn lemma_subscribe_entry_updated<C>(
    prior: ProducerPool<C>,
    cur: ProducerPool<C>,
    i: int,
    j: int,
    pid: Seq<char>,
    ev: Seq<char>,
)
    requires
        prior.wf(),
        0 <= i < prior.producers@.len(),
        prior.producers@[i].id_spec() == pid,
        cur.producers@.len() == prior.producers@.len(),
        forall|m: int| 0 <= m < cur.producers@.len() && m != i ==> cur.producers@[m] == prior.producers@[m],
        cur.producers@[i].wf(),
        cur.producers@[i].id_spec() == pid,
        cur.producers@[i].client_spec() == prior.producers@[i].client_spec(),
        forall|e: Seq<char>|
            #[trigger] cur.producers@[i].subscribed_spec(e) <==> (
            prior.producers@[i].subscribed_spec(e) || e == ev),
        cur.event_index@.len() == prior.event_index@.len(),
        0 <= j < cur.event_index@.len(),
        forall|m: int|
            0 <= m < cur.event_index@.len() && m != j ==> cur.event_index@[m]
                == prior.event_index@[m],
        cur.event_index@[j].0@ == ev,
        prior.event_index@[j].0@ == ev,
        distinct_strs(cur.event_index@[j].1@),
        forall|s: Seq<char>|
            #[trigger] seq_has_str(cur.event_index@[j].1@, s) <==> (seq_has_str(
                prior.event_index@[j].1@,
                s,
            ) || s == pid),
    ensures
        cur.wf(),
        forall|id2: Seq<char>|
            #[trigger] cur.has_producer_spec(id2) <==> prior.has_producer_spec(id2),
        cur.count_spec() == prior.count_spec(),
        forall|id2: Seq<char>, e: Seq<char>|
            #[trigger] cur.subscribed_spec(id2, e) <==> (prior.subscribed_spec(id2, e) || (id2
                == pid && e == ev)),
        forall|id2: Seq<char>|
            prior.has_producer_spec(id2) ==> #[trigger] cur.client_of(id2) == prior.client_of(
                id2,
            ),
        forall|e: Seq<char>|
            #[trigger] cur.has_event_spec(e) <==> (prior.has_event_spec(e) || e == ev),
{
    lemma_producers_updated::<C>(prior, cur, i, pid, ev, true);
    // Index side.
    assert forall|e: Seq<char>, id2: Seq<char>| #[trigger] cur.index_has_spec(e, id2) implies (
    prior.index_has_spec(e, id2) || (id2 == pid && e == ev)) by {
        let m = choose|m: int|
            0 <= m < cur.event_index@.len() && cur.event_index@[m].0@ == e && seq_has_str(
                cur.event_index@[m].1@,
                id2,
            );
        if m != j {
            assert(cur.event_index@[m] == prior.event_index@[m]);
        } else {
            if id2 != pid {
                assert(seq_has_str(prior.event_index@[j].1@, id2));
            }
        }
    }
    assert forall|e: Seq<char>, id2: Seq<char>|
        prior.index_has_spec(e, id2) implies #[trigger] cur.index_has_spec(e, id2) by {
        let m = choose|m: int|
            0 <= m < prior.event_index@.len() && prior.event_index@[m].0@ == e && seq_has_str(
                prior.event_index@[m].1@,
                id2,
            );
        if m != j {
            assert(cur.event_index@[m] == prior.event_index@[m]);
        } else {
            assert(seq_has_str(cur.event_index@[j].1@, id2));
        }
    }
    assert(seq_has_str(cur.event_index@[j].1@, pid));
    assert(cur.index_has_spec(ev, pid));
    // Index well-formedness.
    assert forall|m1: int, m2: int|
        0 <= m1 < m2 < cur.event_index@.len() implies cur.event_index@[m1].0@
        != cur.event_index@[m2].0@ by {
        assert(cur.event_index@[m1].0@ == prior.event_index@[m1].0@);
        assert(cur.event_index@[m2].0@ == prior.event_index@[m2].0@);
    }
    assert forall|m: int| 0 <= m < cur.event_index@.len() implies distinct_strs(
        cur.event_index@[m].1@,
    ) by {
        if m != j {
            assert(cur.event_index@[m] == prior.event_index@[m]);
        }
    }
    // Linked.
    assert forall|e: Seq<char>, id2: Seq<char>| #[trigger] cur.index_has_spec(e, id2) implies
    cur.subscribed_spec(id2, e) by {
        if prior.index_has_spec(e, id2) {
            assert(prior.subscribed_spec(id2, e));
        }
    }
    assert forall|e: Seq<char>, id2: Seq<char>| cur.subscribed_spec(id2, e) implies #[trigger]
    cur.index_has_spec(e, id2) by {
        if prior.subscribed_spec(id2, e) {
            assert(prior.index_has_spec(e, id2));
        }
    }
    assert forall|e: Seq<char>| #[trigger] cur.has_event_spec(e) implies (prior.has_event_spec(e)
        || e == ev) by {
        let m = choose|m: int|
            0 <= m < cur.event_index@.len() && cur.event_index@[m].0@ == e
                && cur.event_index@[m].1@.len() > 0;
        if m != j {
            assert(cur.event_index@[m] == prior.event_index@[m]);
        }
    }
    assert forall|e: Seq<char>|
        prior.has_event_spec(e) || e == ev implies #[trigger] cur.has_event_spec(e) by {
        if e == ev {
            let q = choose|q: int|
                0 <= q < cur.event_index@[j].1@.len() && cur.event_index@[j].1@[q]@ == pid;
            assert(cur.event_index@[j].1@.len() > 0);
        } else {
            let m = choose|m: int|
                0 <= m < prior.event_index@.len() && prior.event_index@[m].0@ == e
                    && prior.event_index@[m].1@.len() > 0;
            assert(m != j);
            assert(cur.event_index@[m] == prior.event_index@[m]);
        }
    }
}

/// Re-establishes well-formedness after a subscribe that updated the
/// producer at `i` and pushed a fresh index entry for `ev`.
proof fn lemma_subscribe_entry_pushed<C>(
    prior: ProducerPool<C>,
    cur: ProducerPool<C>,
    i: int,
    pid: Seq<char>,
    ev: Seq<char>,
)
    requires
        prior.wf(),
        0 <= i < prior.producers@.len(),
        prior.producers@[i].id_spec() == pid,
        cur.producers@.len() == prior.producers@.len(),
        forall|m: int| 0 <= m < cur.producers@.len() && m != i ==> cur.producers@[m] == prior.producers@[m],
        cur.producers@[i].wf(),
        cur.producers@[i].id_spec() == pid,
        cur.producers@[i].client_spec() == prior.producers@[i].client_spec(),
        forall|e: Seq<char>|
            #[trigger] cur.producers@[i].subscribed_spec(e) <==> (
            prior.producers@[i].subscribed_spec(e) || e == ev),
        cur.event_index@.len() == prior.event_index@.len() + 1,
        forall|m: int|
            0 <= m < prior.event_index@.len() ==> cur.event_index@[m] == prior.event_index@[m],
        forall|m: int| 0 <= m < prior.event_index@.len() ==> prior.event_index@[m].0@ != ev,
        cur.event_index@.last().0@ == ev,
        cur.event_index@.last().1@.len() == 1,
        cur.event_index@.last().1@[0]@ == pid,
    ensures
        cur.wf(),
        forall|id2: Seq<char>|
            #[trigger] cur.has_producer_spec(id2) <==> prior.has_producer_spec(id2),
        cur.count_spec() == prior.count_spec(),
        forall|id2: Seq<char>, e: Seq<char>|
            #[trigger] cur.subscribed_spec(id2, e) <==> (prior.subscribed_spec(id2, e) || (id2
                == pid && e == ev)),
        forall|id2: Seq<char>|
            prior.has_producer_spec(id2) ==> #[trigger] cur.client_of(id2) == prior.client_of(
                id2,
            ),
        forall|e: Seq<char>|
            #[trigger] cur.has_event_spec(e) <==> (prior.has_event_spec(e) || e == ev),
{
    lemma_producers_updated::<C>(prior, cur, i, pid, ev, true);
    let last = prior.event_index@.len() as int;
    assert forall|e: Seq<char>, id2: Seq<char>| #[trigger] cur.index_has_spec(e, id2) implies (
    prior.index_has_spec(e, id2) || (id2 == pid && e == ev)) by {
        let m = choose|m: int|
            0 <= m < cur.event_index@.len() && cur.event_index@[m].0@ == e && seq_has_str(
                cur.event_index@[m].1@,
                id2,
            );
        if m < last {
            assert(cur.event_index@[m] == prior.event_index@[m]);
        } else {
            let q = choose|q: int|
                0 <= q < cur.event_index@[m].1@.len() && cur.event_index@[m].1@[q]@ == id2;
            assert(q == 0);
        }
    }
    assert forall|e: Seq<char>, id2: Seq<char>|
        prior.index_has_spec(e, id2) implies #[trigger] cur.index_has_spec(e, id2) by {
        let m = choose|m: int|
            0 <= m < prior.event_index@.len() && prior.event_index@[m].0@ == e && seq_has_str(
                prior.event_index@[m].1@,
                id2,
            );
        assert(cur.event_index@[m] == prior.event_index@[m]);
    }
    assert(seq_has_str(cur.event_index@.last().1@, pid)) by {
        assert(cur.event_index@.last().1@[0]@ == pid);
    }
    assert(cur.index_has_spec(ev, pid));
    assert forall|m1: int, m2: int|
        0 <= m1 < m2 < cur.event_index@.len() implies cur.event_index@[m1].0@
        != cur.event_index@[m2].0@ by {
        if m2 == last {
            assert(cur.event_index@[m1] == prior.event_index@[m1]);
            assert(prior.event_index@[m1].0@ != ev);
        } else {
            assert(cur.event_index@[m1] == prior.event_index@[m1]);
            assert(cur.event_index@[m2] == prior.event_index@[m2]);
        }
    }
    assert forall|m: int| 0 <= m < cur.event_index@.len() implies distinct_strs(
        cur.event_index@[m].1@,
    ) by {
        if m < last {
            assert(cur.event_index@[m] == prior.event_index@[m]);
        }
    }
    assert forall|e: Seq<char>, id2: Seq<char>| #[trigger] cur.index_has_spec(e, id2) implies
    cur.subscribed_spec(id2, e) by {
        if prior.index_has_spec(e, id2) {
            assert(prior.subscribed_spec(id2, e));
        }
    }
    assert forall|e: Seq<char>, id2: Seq<char>| cur.subscribed_spec(id2, e) implies #[trigger]
    cur.index_has_spec(e, id2) by {
        if prior.subscribed_spec(id2, e) {
            assert(prior.index_has_spec(e, id2));
        }
    }
    assert forall|e: Seq<char>| #[trigger] cur.has_event_spec(e) implies (prior.has_event_spec(e)
        || e == ev) by {
        let m = choose|m: int|
            0 <= m < cur.event_index@.len() && cur.event_index@[m].0@ == e
                && cur.event_index@[m].1@.len() > 0;
        if m < last {
            assert(cur.event_index@[m] == prior.event_index@[m]);
        }
    }
    assert forall|e: Seq<char>|
        prior.has_event_spec(e) || e == ev implies #[trigger] cur.has_event_spec(e) by {
        if e == ev {
            assert(cur.event_index@[last].0@ == ev && cur.event_index@[last].1@.len() > 0);
        } else {
            let m = choose|m: int|
                0 <= m < prior.event_index@.len() && prior.event_index@[m].0@ == e
                    && prior.event_index@[m].1@.len() > 0;
            assert(cur.event_index@[m] == prior.event_index@[m]);
        }
    }
}

/// Producer-table reasoning shared by the subscribe/unsubscribe lemmas:
/// after replacing producer `i` (id `pid`) by a version whose
/// subscriptions changed only at `ev` (added when `adding`, removed
/// otherwise), table membership is unchanged and `subscribed_spec`
/// changes exactly at `(pid, ev)`.
proof fn lemma_producers_updated<C>(
    prior: ProducerPool<C>,
    cur: ProducerPool<C>,
    i: int,
    pid: Seq<char>,
    ev: Seq<char>,
    adding: bool,
)
    requires
        prior.wf(),
        0 <= i < prior.producers@.len(),
        prior.producers@[i].id_spec() == pid,
        cur.producers@.len() == prior.producers@.len(),
        forall|m: int| 0 <= m < cur.producers@.len() && m != i ==> cur.producers@[m] == prior.producers@[m],
        cur.producers@[i].wf(),
        cur.producers@[i].id_spec() == pid,
        cur.producers@[i].client_spec() == prior.producers@[i].client_spec(),
        adding ==> forall|e: Seq<char>|
            #[trigger] cur.producers@[i].subscribed_spec(e) <==> (
            prior.producers@[i].subscribed_spec(e) || e == ev),
        !adding ==> forall|e: Seq<char>|
            #[trigger] cur.producers@[i].subscribed_spec(e) <==> (
            prior.producers@[i].subscribed_spec(e) && e != ev),
    ensures
        forall|id2: Seq<char>|
            #[trigger] cur.has_producer_spec(id2) <==> prior.has_producer_spec(id2),
        forall|id2: Seq<char>|
            prior.has_producer_spec(id2) ==> #[trigger] cur.client_of(id2) == prior.client_of(
                id2,
            ),
        forall|m1: int, m2: int|
            0 <= m1 < m2 < cur.producers@.len() ==> cur.producers@[m1].id_spec()
                != cur.producers@[m2].id_spec(),
        forall|m: int| 0 <= m < cur.producers@.len() ==> cur.producers@[m].wf(),
        adding ==> forall|id2: Seq<char>, e: Seq<char>|
            #[trigger] cur.subscribed_spec(id2, e) <==> (prior.subscribed_spec(id2, e) || (id2
                == pid && e == ev)),
        !adding ==> forall|id2: Seq<char>, e: Seq<char>|
            #[trigger] cur.subscribed_spec(id2, e) <==> (prior.subscribed_spec(id2, e) && !(id2
                == pid && e == ev)),
{
    assert forall|id2: Seq<char>| #[trigger] cur.has_producer_spec(id2) implies
    prior.has_producer_spec(id2) by {
        let m = choose|m: int|
            0 <= m < cur.producers@.len() && cur.producers@[m].id_spec() == id2;
        if m != i {
            assert(cur.producers@[m] == prior.producers@[m]);
        } else {
            assert(prior.producers@[i].id_spec() == id2);
        }
    }
    assert forall|id2: Seq<char>|
        prior.has_producer_spec(id2) implies #[trigger] cur.has_producer_spec(id2) by {
        let m = choose|m: int|
            0 <= m < prior.producers@.len() && prior.producers@[m].id_spec() == id2;
        if m != i {
            assert(cur.producers@[m] == prior.producers@[m]);
        } else {
            assert(cur.producers@[i].id_spec() == id2);
        }
    }
    assert forall|m1: int, m2: int|
        0 <= m1 < m2 < cur.producers@.len() implies cur.producers@[m1].id_spec()
        != cur.producers@[m2].id_spec() by {
        assert(cur.producers@[m1].id_spec() == prior.producers@[m1].id_spec());
        assert(cur.producers@[m2].id_spec() == prior.producers@[m2].id_spec());
    }
    assert forall|m: int| 0 <= m < cur.producers@.len() implies cur.producers@[m].wf() by {
        if m != i {
            assert(cur.producers@[m] == prior.producers@[m]);
        }
    }
    // A producer other than `i` cannot carry `pid`.
    assert forall|m: int|
        0 <= m < prior.producers@.len() && m != i implies prior.producers@[m].id_spec() != pid by {
        if m < i {
            assert(prior.producers@[m].id_spec() != prior.producers@[i].id_spec());
        } else {
            assert(prior.producers@[i].id_spec() != prior.producers@[m].id_spec());
        }
    }
    assert forall|id2: Seq<char>, e: Seq<char>| #[trigger] cur.subscribed_spec(id2, e) implies (
    prior.subscribed_spec(id2, e) || (adding && id2 == pid && e == ev)) by {
        let m = choose|m: int|
            0 <= m < cur.producers@.len() && cur.producers@[m].id_spec() == id2
                && cur.producers@[m].subscribed_spec(e);
        if m != i {
            assert(cur.producers@[m] == prior.producers@[m]);
        } else {
            if adding {
                if e != ev {
                    assert(prior.producers@[i].subscribed_spec(e));
                }
            } else {
                assert(prior.producers@[i].subscribed_spec(e));
            }
        }
    }
    assert forall|id2: Seq<char>, e: Seq<char>|
        prior.subscribed_spec(id2, e) && !(!adding && id2 == pid && e == ev) implies #[trigger]
    cur.subscribed_spec(id2, e) by {
        let m = choose|m: int|
            0 <= m < prior.producers@.len() && prior.producers@[m].id_spec() == id2
                && prior.producers@[m].subscribed_spec(e);
        if m != i {
            assert(cur.producers@[m] == prior.producers@[m]);
        } else {
            assert(cur.producers@[i].subscribed_spec(e));
        }
    }
    if adding {
        assert(cur.producers@[i].subscribed_spec(ev));
        assert(cur.subscribed_spec(pid, ev));
    } else {
        assert forall|id2: Seq<char>, e: Seq<char>|
            id2 == pid && e == ev implies !(#[trigger] cur.subscribed_spec(id2, e)) by {
            if cur.subscribed_spec(pid, ev) {
                let m = choose|m: int|
                    0 <= m < cur.producers@.len() && cur.producers@[m].id_spec() == pid
                        && cur.producers@[m].subscribed_spec(ev);
                if m != i {
                    assert(cur.producers@[m] == prior.producers@[m]);
                    assert(prior.producers@[m].id_spec() != pid);
                }
            }
        }
    }
    assert forall|id2: Seq<char>|
        prior.has_producer_spec(id2) implies #[trigger] cur.client_of(id2) == prior.client_of(
        id2,
    ) by {
        let m0 = choose|m0: int|
            0 <= m0 < prior.producers@.len() && prior.producers@[m0].id_spec() == id2;
        assert(cur.producers@[m0].id_spec() == id2);
        prior.lemma_producer_pinned(m0);
        cur.lemma_producer_pinned(m0);
        if m0 != i {
            assert(cur.producers@[m0] == prior.producers@[m0]);
        }
    }
}

/// Re-establishes well-formedness after an unsubscribe that updated the
/// producer at `i` and filtered the id out of the index entry at `j`.
proof fn lemma_unsubscribe_entry_updated<C>(
    prior: ProducerPool<C>,
    cur: ProducerPool<C>,
    i: int,
    j: int,
    pid: Seq<char>,
    ev: Seq<char>,
)
    requires
        prior.wf(),
        0 <= i < prior.producers@.len(),
        prior.producers@[i].id_spec() == pid,
        cur.producers@.len() == prior.producers@.len(),
        forall|m: int| 0 <= m < cur.producers@.len() && m != i ==> cur.producers@[m] == prior.producers@[m],
        cur.producers@[i].wf(),
        cur.producers@[i].id_spec() == pid,
        cur.producers@[i].client_spec() == prior.producers@[i].client_spec(),
        forall|e: Seq<char>|
            #[trigger] cur.producers@[i].subscribed_spec(e) <==> (
            prior.producers@[i].subscribed_spec(e) && e != ev),
        cur.event_index@.len() == prior.event_index@.len(),
        0 <= j < cur.event_index@.len(),
        forall|m: int|
            0 <= m < cur.event_index@.len() && m != j ==> cur.event_index@[m]
                == prior.event_index@[m],
        cur.event_index@[j].0@ == ev,
        prior.event_index@[j].0@ == ev,
        distinct_strs(cur.event_index@[j].1@),
        forall|s: Seq<char>|
            #[trigger] seq_has_str(cur.event_index@[j].1@, s) <==> (seq_has_str(
                prior.event_index@[j].1@,
                s,
            ) && s != pid),
    ensures
        cur.wf(),
        forall|id2: Seq<char>|
            #[trigger] cur.has_producer_spec(id2) <==> prior.has_producer_spec(id2),
        cur.count_spec() == prior.count_spec(),
        forall|id2: Seq<char>, e: Seq<char>|
            #[trigger] cur.subscribed_spec(id2, e) <==> (prior.subscribed_spec(id2, e) && !(id2
                == pid && e == ev)),
        forall|id2: Seq<char>|
            prior.has_producer_spec(id2) ==> #[trigger] cur.client_of(id2) == prior.client_of(
                id2,
            ),
        forall|e: Seq<char>|
            e != ev ==> (#[trigger] cur.has_event_spec(e) <==> prior.has_event_spec(e)),
        cur.has_event_spec(ev) <==> exists|id2: Seq<char>|
            id2 != pid && #[trigger] prior.index_has_spec(ev, id2),
{
    lemma_producers_updated::<C>(prior, cur, i, pid, ev, false);
    assert forall|e: Seq<char>, id2: Seq<char>| #[trigger] cur.index_has_spec(e, id2) implies (
    prior.index_has_spec(e, id2) && !(id2 == pid && e == ev)) by {
        let m = choose|m: int|
            0 <= m < cur.event_index@.len() && cur.event_index@[m].0@ == e && seq_has_str(
                cur.event_index@[m].1@,
                id2,
            );
        if m != j {
            assert(cur.event_index@[m] == prior.event_index@[m]);
            if e == ev {
                if m < j {
                    assert(prior.event_index@[m].0@ != prior.event_index@[j].0@);
                } else {
                    assert(prior.event_index@[j].0@ != prior.event_index@[m].0@);
                }
            }
        } else {
            assert(seq_has_str(prior.event_index@[j].1@, id2) && id2 != pid);
        }
    }
    assert forall|e: Seq<char>, id2: Seq<char>|
        prior.index_has_spec(e, id2) && !(id2 == pid && e == ev) implies #[trigger]
    cur.index_has_spec(e, id2) by {
        let m = choose|m: int|
            0 <= m < prior.event_index@.len() && prior.event_index@[m].0@ == e && seq_has_str(
                prior.event_index@[m].1@,
                id2,
            );
        if m != j {
            assert(cur.event_index@[m] == prior.event_index@[m]);
        } else {
            if id2 != pid {
                assert(seq_has_str(cur.event_index@[j].1@, id2));
            } else {
                // id2 == pid under event ev is excluded; the entry at j
                // carries ev, so e == ev here.
                assert(e == ev);
            }
        }
    }
    assert forall|m1: int, m2: int|
        0 <= m1 < m2 < cur.event_index@.len() implies cur.event_index@[m1].0@
        != cur.event_index@[m2].0@ by {
        assert(cur.event_index@[m1].0@ == prior.event_index@[m1].0@);
        assert(cur.event_index@[m2].0@ == prior.event_index@[m2].0@);
    }
    assert forall|m: int| 0 <= m < cur.event_index@.len() implies distinct_strs(
        cur.event_index@[m].1@,
    ) by {
        if m != j {
            assert(cur.event_index@[m] == prior.event_index@[m]);
        }
    }
    assert forall|e: Seq<char>, id2: Seq<char>| #[trigger] cur.index_has_spec(e, id2) implies
    cur.subscribed_spec(id2, e) by {
        assert(prior.index_has_spec(e, id2));
        assert(prior.subscribed_spec(id2, e));
    }
    assert forall|e: Seq<char>, id2: Seq<char>| cur.subscribed_spec(id2, e) implies #[trigger]
    cur.index_has_spec(e, id2) by {
        assert(prior.subscribed_spec(id2, e));
        assert(prior.index_has_spec(e, id2));
    }
    assert forall|e: Seq<char>|
        e != ev implies (#[trigger] cur.has_event_spec(e) <==> prior.has_event_spec(e)) by {
        if cur.has_event_spec(e) {
            let m = choose|m: int|
                0 <= m < cur.event_index@.len() && cur.event_index@[m].0@ == e
                    && cur.event_index@[m].1@.len() > 0;
            assert(m != j);
            assert(cur.event_index@[m] == prior.event_index@[m]);
        }
        if prior.has_event_spec(e) {
            let m = choose|m: int|
                0 <= m < prior.event_index@.len() && prior.event_index@[m].0@ == e
                    && prior.event_index@[m].1@.len() > 0;
            assert(m != j);
            assert(cur.event_index@[m] == prior.event_index@[m]);
        }
    }
    if cur.has_event_spec(ev) {
        let m = choose|m: int|
            0 <= m < cur.event_index@.len() && cur.event_index@[m].0@ == ev
                && cur.event_index@[m].1@.len() > 0;
        if m != j {
            assert(cur.event_index@[m] == prior.event_index@[m]);
            if m < j {
                assert(prior.event_index@[m].0@ != prior.event_index@[j].0@);
            } else {
                assert(prior.event_index@[j].0@ != prior.event_index@[m].0@);
            }
        }
        let sub = cur.event_index@[j].1@[0]@;
        assert(seq_has_str(cur.event_index@[j].1@, sub));
        assert(seq_has_str(prior.event_index@[j].1@, sub) && sub != pid);
        assert(prior.index_has_spec(ev, sub));
    }
    if exists|id2: Seq<char>| id2 != pid && #[trigger] prior.index_has_spec(ev, id2) {
        let id2 = choose|id2: Seq<char>| id2 != pid && prior.index_has_spec(ev, id2);
        let m = choose|m: int|
            0 <= m < prior.event_index@.len() && prior.event_index@[m].0@ == ev && seq_has_str(
                prior.event_index@[m].1@,
                id2,
            );
        if m != j {
            if m < j {
                assert(prior.event_index@[m].0@ != prior.event_index@[j].0@);
            } else {
                assert(prior.event_index@[j].0@ != prior.event_index@[m].0@);
            }
        }
        assert(seq_has_str(cur.event_index@[j].1@, id2));
        let q = choose|q: int|
            0 <= q < cur.event_index@[j].1@.len() && cur.event_index@[j].1@[q]@ == id2;
        assert(cur.event_index@[j].1@.len() > 0);
        assert(cur.has_event_spec(ev));
    }
}

/// Re-establishes well-formedness after an unsubscribe whose event had
/// no index entry: by the invariant the producer was not subscribed to
/// it, so only the producer table was (vacuously) touched.
proof fn lemma_unsubscribe_no_entry<C>(
    prior: ProducerPool<C>,
    cur: ProducerPool<C>,
    i: int,
    pid: Seq<char>,
    ev: Seq<char>,
)
    requires
        prior.wf(),
        0 <= i < prior.producers@.len(),
        prior.producers@[i].id_spec() == pid,
        cur.producers@.len() == prior.producers@.len(),
        forall|m: int| 0 <= m < cur.producers@.len() && m != i ==> cur.producers@[m] == prior.producers@[m],
        cur.producers@[i].wf(),
        cur.producers@[i].id_spec() == pid,
        cur.producers@[i].client_spec() == prior.producers@[i].client_spec(),
        forall|e: Seq<char>|
            #[trigger] cur.producers@[i].subscribed_spec(e) <==> (
            prior.producers@[i].subscribed_spec(e) && e != ev),
        cur.event_index@ == prior.event_index@,
        forall|m: int| 0 <= m < prior.event_index@.len() ==> prior.event_index@[m].0@ != ev,
    ensures
        cur.wf(),
        forall|id2: Seq<char>|
            #[trigger] cur.has_producer_spec(id2) <==> prior.has_producer_spec(id2),
        cur.count_spec() == prior.count_spec(),
        forall|id2: Seq<char>, e: Seq<char>|
            #[trigger] cur.subscribed_spec(id2, e) <==> (prior.subscribed_spec(id2, e) && !(id2
                == pid && e == ev)),
        forall|id2: Seq<char>|
            prior.has_producer_spec(id2) ==> #[trigger] cur.client_of(id2) == prior.client_of(
                id2,
            ),
        forall|e: Seq<char>|
            e != ev ==> (#[trigger] cur.has_event_spec(e) <==> prior.has_event_spec(e)),
        cur.has_event_spec(ev) <==> exists|id2: Seq<char>|
            id2 != pid && #[trigger] prior.index_has_spec(ev, id2),
{
    lemma_producers_updated::<C>(prior, cur, i, pid, ev, false);
    assert forall|e: Seq<char>, id2: Seq<char>| !(#[trigger] cur.index_has_spec(e, id2) && e
        == ev) by {
        if cur.index_has_spec(ev, id2) {
            let m = choose|m: int|
                0 <= m < cur.event_index@.len() && cur.event_index@[m].0@ == ev && seq_has_str(
                    cur.event_index@[m].1@,
                    id2,
                );
        }
    }
    assert forall|e: Seq<char>, id2: Seq<char>| #[trigger] cur.index_has_spec(e, id2) implies
    cur.subscribed_spec(id2, e) by {
        assert(prior.index_has_spec(e, id2));
        assert(prior.subscribed_spec(id2, e));
        assert(e != ev || !prior.index_has_spec(ev, id2));
    }
    assert forall|e: Seq<char>, id2: Seq<char>| cur.subscribed_spec(id2, e) implies #[trigger]
    cur.index_has_spec(e, id2) by {
        assert(prior.subscribed_spec(id2, e));
        assert(prior.index_has_spec(e, id2));
    }
    if cur.has_event_spec(ev) {
        let m = choose|m: int|
            0 <= m < cur.event_index@.len() && cur.event_index@[m].0@ == ev
                && cur.event_index@[m].1@.len() > 0;
        assert(prior.event_index@[m].0@ != ev);
        assert(false);
    }
    if exists|id2: Seq<char>| id2 != pid && #[trigger] prior.index_has_spec(ev, id2) {
        let id2 = choose|id2: Seq<char>| id2 != pid && prior.index_has_spec(ev, id2);
        let m = choose|m: int|
            0 <= m < prior.event_index@.len() && prior.event_index@[m].0@ == ev && seq_has_str(
                prior.event_index@[m].1@,
                id2,
            );
        assert(false);
    }
}


} // verus!
