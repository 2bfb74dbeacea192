//! The event replicator transformer: a fan-out that forwards every polled
//! event, deep-copied, to each of its destinations in order.

use vstd::prelude::*;
use crate::ComponentKind;
use crate::ComponentApi;
use crate::event::Event;
use crate::event_router::EventRouter;

verus! {

/// The transformer that copies each event to every destination.
#[derive(Debug, PartialEq)]
pub struct EventReplicator {
    pub id: String,
    pub destinations: Vec<String>,
}

/// How many of the destinations name `d`.
pub open spec fn occurrences(ds: Seq<String>, d: Seq<char>) -> int
    decreases ds.len(),
{
    if ds.len() == 0 {
        0
    } else {
        occurrences(ds.drop_last(), d) + if ds.last()@ == d {
            1int
        } else {
            0int
        }
    }
}

/// Destination counts are never negative.
pub proof fn lemma_occurrences_nonneg(ds: Seq<String>, d: Seq<char>)
    ensures
        occurrences(ds, d) >= 0,
    decreases ds.len(),
{
    if ds.len() > 0 {
        lemma_occurrences_nonneg(ds.drop_last(), d);
    }
}

/// The new queue is the old one with `n` copies of the event appended at
/// the back: each copy carries the same payload model and metadata.
pub open spec fn appended_copies(oldq: Seq<Event>, newq: Seq<Event>, event: Event, n: int) -> bool {
    &&& newq.len() == oldq.len() + n
    &&& newq.take(oldq.len() as int) == oldq
    &&& forall|i: int|
        oldq.len() <= i < newq.len() ==> (#[trigger] newq[i]).value@ == event.value@ && newq[i].meta
            == event.meta
}

impl EventReplicator {
    /// Sends a deep copy of the event to each destination in declaration
    /// order.  The fan-out succeeds exactly when every destination is a
    /// registered non-collector; it stops at the first routing failure.
    pub fn replicate(&self, event: &Event, router: &mut EventRouter) -> (r: Result<
        (),
        crate::event_router::Error,
    >)
        requires
            old(router).wf(),
        ensures
            final(router).wf(),
            forall|d: Seq<char>| #![auto]
                final(router).registered(d) == old(router).registered(d),
            forall|d: Seq<char>| #![auto]
                old(router).registered(d) ==> final(router).kind_of(d) == old(router).kind_of(d),
            r is Ok <==> (forall|j: int|
                0 <= j < self.destinations@.len() ==> old(router).registered(
                    (#[trigger] self.destinations@[j])@,
                ) && old(router).kind_of(self.destinations@[j]@) != ComponentKind::Collector),
            r is Ok ==> (forall|d: Seq<char>| #![auto]
                old(router).registered(d) ==> appended_copies(
                    old(router).queue_of(d),
                    final(router).queue_of(d),
                    *event,
                    occurrences(self.destinations@, d),
                )),
            r matches Err(e) ==> e is NoSuchComponent || e is WrongComponentKind,
    {
        let n = self.destinations.len();
        let mut i: usize = 0;
        proof {
            assert forall|d: Seq<char>| #![auto]
                old(router).registered(d) implies appended_copies(
                old(router).queue_of(d),
                router.queue_of(d),
                *event,
                occurrences(self.destinations@.take(0), d),
            ) by {
                assert(self.destinations@.take(0) =~= Seq::<String>::empty());
                let q = old(router).queue_of(d);
                assert(q.take(q.len() as int) =~= q);
            }
        }
        while i < n
            invariant
                i <= n,
                n == self.destinations@.len(),
                router.wf(),
                forall|d: Seq<char>| #![auto]
                    router.registered(d) == old(router).registered(d),
                forall|d: Seq<char>| #![auto]
                    old(router).registered(d) ==> router.kind_of(d) == old(router).kind_of(d),
                forall|j: int|
                    0 <= j < i ==> old(router).registered((#[trigger] self.destinations@[j])@)
                        && old(router).kind_of(self.destinations@[j]@) != ComponentKind::Collector,
                forall|d: Seq<char>| #![auto]
                    old(router).registered(d) ==> appended_copies(
                        old(router).queue_of(d),
                        router.queue_of(d),
                        *event,
                        occurrences(self.destinations@.take(i as int), d),
                    ),
            decreases n - i,
        {
            let ghost before = *router;
            let copy = event.duplicate();
            let ghost copy_snapshot = copy;
            let dest = &self.destinations[i];
            match router.send_event(copy, dest.as_str()) {
                Ok(()) => {
                    proof {
                        let ghost di = dest@;
                        let longer = self.destinations@.take(i as int + 1);
                        assert(longer.drop_last() =~= self.destinations@.take(i as int));
                        assert(longer.last() == self.destinations@[i as int]);
                        assert forall|d: Seq<char>| #![auto]
                            old(router).registered(d) implies appended_copies(
                            old(router).queue_of(d),
                            router.queue_of(d),
                            *event,
                            occurrences(longer, d),
                        ) by {
                            let oldq = old(router).queue_of(d);
                            let prev = before.queue_of(d);
                            let newq = router.queue_of(d);
                            assert(appended_copies(
                                oldq,
                                prev,
                                *event,
                                occurrences(self.destinations@.take(i as int), d),
                            ));
                            lemma_occurrences_nonneg(self.destinations@.take(i as int), d);
                            if d == di {
                                assert(newq == prev.push(copy_snapshot));
                                assert(newq.take(oldq.len() as int) =~= prev.take(
                                    oldq.len() as int,
                                ));
                            } else {
                                assert(newq == prev);
                            }
                        }
                    }
                },
                Err(e) => {
                    proof {
                        assert(!(old(router).registered(self.destinations@[i as int]@) && old(
                            router,
                        ).kind_of(self.destinations@[i as int]@) != ComponentKind::Collector));
                    }
                    return Err(e);
                },
            }
            i = i + 1;
        }
        proof {
            assert(self.destinations@.take(n as int) =~= self.destinations@);
        }
        Ok(())
    }
}

impl ComponentApi for EventReplicator {
    open spec fn spec_id(&self) -> Seq<char> {
        self.id@
    }

    open spec fn spec_kind(&self) -> ComponentKind {
        ComponentKind::Transformer
    }

    fn id(&self) -> (r: &str)
        ensures
            r@ == self.spec_id(),
    {
        self.id.as_str()
    }

    fn kind(&self) -> (r: ComponentKind)
        ensures
            r == self.spec_kind(),
    {
        ComponentKind::Transformer
    }
}

} // verus!
