//! The event router: a registry of named components and one unbounded FIFO
//! inbox per non-collector.
//!
//! Components register under a unique string id together with their kind;
//! the first registration of an id wins.  `send_event` enqueues an event
//! into the target's inbox and fails on an unknown id or on a collector
//! target; `poll_event` takes the front of the caller's inbox.

use vstd::prelude::*;
use crate::ComponentKind;
use crate::ComponentApi;
use crate::event::Event;
use crate::text::str_eq;

verus! {

#[verifier::external_type_specification]
#[verifier::external_body]
#[verifier::reject_recursive_types(T)]
pub struct ExFlumeSender<T>(flume::Sender<T>);

#[verifier::external_type_specification]
#[verifier::external_body]
#[verifier::reject_recursive_types(T)]
pub struct ExFlumeReceiver<T>(flume::Receiver<T>);

/// A component's inbox: both endpoints of one unbounded flume channel.
/// Holding the two ends together keeps the channel alive for as long as the
/// registry holds the record.
pub struct Inbox {
    tx: flume::Sender<Event>,
    rx: flume::Receiver<Event>,
}

/// The events waiting in a channel, front of the queue first.
pub uninterp spec fn inbox_queue(rx: &flume::Receiver<Event>) -> Seq<Event>;

impl Inbox {
    /// The events waiting in this inbox, front first.
    pub closed spec fn queue(&self) -> Seq<Event> {
        inbox_queue(&self.rx)
    }
}

/// Relies on `flume::unbounded`: a fresh channel holds no events.
#[verifier::external_body]
fn inbox_new() -> (r: Inbox)
    ensures
        inbox_queue(&r.rx) == Seq::<Event>::empty(),
{
    let (tx, rx) = flume::unbounded();
    Inbox { tx, rx }
}

/// Relies on `flume::Sender::send` on an unbounded channel: it appends the
/// value at the back of the queue without blocking, and can fail only when
/// every receiver is gone.  The paired receiver is borrowed alive in the
/// same inbox for the whole call, so the send always enqueues.
#[verifier::external_body]
fn inbox_send(inbox: &mut Inbox, event: Event)
    ensures
        inbox_queue(&final(inbox).rx) == inbox_queue(&old(inbox).rx).push(event),
{
    let _ = inbox.tx.send(event);
}

/// Relies on `flume::Receiver::try_recv`: it pops and returns the front of
/// the queue, or reports the queue empty.  (The paired sender lives in the
/// same inbox, so a disconnect cannot be observed.)
#[verifier::external_body]
fn inbox_try_recv(inbox: &mut Inbox) -> (r: Option<Event>)
    ensures
        match r {
            Some(e) => inbox_queue(&old(inbox).rx).len() > 0 && e == inbox_queue(
                &old(inbox).rx,
            )[0] && inbox_queue(&final(inbox).rx) == inbox_queue(&old(inbox).rx).drop_first(),
            None => inbox_queue(&old(inbox).rx).len() == 0 && inbox_queue(&final(inbox).rx)
                == inbox_queue(&old(inbox).rx),
        },
{
    inbox.rx.try_recv().ok()
}

/// A registry entry: collectors have no inbox, transformers and dispatchers
/// own one.
pub enum ComponentRecord {
    Collector,
    Transformer { inbox: Inbox },
    Dispatcher { inbox: Inbox },
}

/// The kind a record was registered under.
pub open spec fn record_kind(r: &ComponentRecord) -> ComponentKind {
    match r {
        ComponentRecord::Collector => ComponentKind::Collector,
        ComponentRecord::Transformer { .. } => ComponentKind::Transformer,
        ComponentRecord::Dispatcher { .. } => ComponentKind::Dispatcher,
    }
}

/// The events waiting for the record's component; a collector has none.
pub open spec fn record_queue(r: &ComponentRecord) -> Seq<Event> {
    match r {
        ComponentRecord::Collector => Seq::empty(),
        ComponentRecord::Transformer { inbox } => inbox.queue(),
        ComponentRecord::Dispatcher { inbox } => inbox.queue(),
    }
}

/// A routing failure, returned to the caller; the router itself never
/// panics.
#[derive(Debug, PartialEq)]
pub enum Error {
    NoSuchComponent(String),
    WrongComponentKind,
    Internal(String),
}

/// The index of the first entry registered under `id`, or the registry
/// length if there is none.
pub open spec fn find_id(reg: Seq<(String, ComponentRecord)>, id: Seq<char>) -> int
    decreases reg.len(),
{
    if reg.len() == 0 {
        0
    } else if reg[0].0@ == id {
        0
    } else {
        1 + find_id(reg.drop_first(), id)
    }
}

/// What [`find_id`] returns: an in-range position holding `id` with no
/// earlier occurrence, or the length when `id` is not registered.
pub proof fn lemma_find_id(reg: Seq<(String, ComponentRecord)>, id: Seq<char>)
    ensures
        0 <= find_id(reg, id) <= reg.len(),
        find_id(reg, id) < reg.len() ==> reg[find_id(reg, id)].0@ == id,
        forall|j: int| 0 <= j < find_id(reg, id) ==> reg[j].0@ != id,
    decreases reg.len(),
{
    if reg.len() > 0 && reg[0].0@ != id {
        lemma_find_id(reg.drop_first(), id);
        let k = find_id(reg, id);
        assert forall|j: int| 0 <= j < k implies reg[j].0@ != id by {
            if j > 0 {
                assert(reg.drop_first()[j - 1].0@ != id);
            }
        }
    }
}

/// A position holding `id` with no earlier occurrence is what [`find_id`]
/// finds; a registry without `id` makes it the length.
pub proof fn lemma_find_id_unique(reg: Seq<(String, ComponentRecord)>, id: Seq<char>, i: int)
    requires
        0 <= i <= reg.len(),
        i < reg.len() ==> reg[i].0@ == id,
        forall|j: int| 0 <= j < i ==> reg[j].0@ != id,
    ensures
        i < reg.len() ==> find_id(reg, id) == i,
        i == reg.len() ==> find_id(reg, id) == reg.len(),
    decreases reg.len(),
{
    if reg.len() > 0 && reg[0].0@ != id {
        assert forall|j: int| 0 <= j < i - 1 implies reg.drop_first()[j].0@ != id by {
            assert(reg[j + 1].0@ != id);
        }
        lemma_find_id_unique(reg.drop_first(), id, if i >= 1 { i - 1 } else { 0 });
    }
}

/// Registries whose entries carry the same ids position for position find
/// every id at the same place.
proof fn lemma_find_id_same_keys(
    a: Seq<(String, ComponentRecord)>,
    b: Seq<(String, ComponentRecord)>,
    id: Seq<char>,
)
    requires
        a.len() == b.len(),
        forall|j: int| 0 <= j < a.len() ==> a[j].0@ == b[j].0@,
    ensures
        find_id(a, id) == find_id(b, id),
    decreases a.len(),
{
    if a.len() > 0 {
        assert(a[0].0@ == b[0].0@);
        assert forall|j: int| 0 <= j < a.len() - 1 implies a.drop_first()[j].0@
            == b.drop_first()[j].0@ by {
            assert(a[j + 1].0@ == b[j + 1].0@);
        }
        lemma_find_id_same_keys(a.drop_first(), b.drop_first(), id);
    }
}

/// The process-wide broker: the registry of components and their inboxes.
pub struct EventRouter {
    registry: Vec<(String, ComponentRecord)>,
}

impl EventRouter {
    /// Every id is registered at most once.
    pub closed spec fn wf(&self) -> bool {
        forall|i: int, j: int|
            0 <= i < j < self.registry@.len() ==> (#[trigger] self.registry@[i]).0@ != (
            #[trigger] self.registry@[j]).0@
    }

    /// Whether some component is registered under `id`.
    pub closed spec fn registered(&self, id: Seq<char>) -> bool {
        find_id(self.registry@, id) < self.registry@.len()
    }

    /// The kind of the component registered under `id`.
    pub closed spec fn kind_of(&self, id: Seq<char>) -> ComponentKind {
        record_kind(&self.registry@[find_id(self.registry@, id)].1)
    }

    /// The events waiting for the component registered under `id`, front
    /// first.
    pub closed spec fn queue_of(&self, id: Seq<char>) -> Seq<Event> {
        record_queue(&self.registry@[find_id(self.registry@, id)].1)
    }

    /// An empty router: nothing is registered.
    pub fn new() -> (r: Self)
        ensures
            r.wf(),
            forall|id: Seq<char>| !r.registered(id),
    {
        let r = EventRouter { registry: Vec::new() };
        proof {
            assert forall|id: Seq<char>| !r.registered(id) by {
                lemma_find_id(r.registry@, id);
            }
        }
        r
    }

    /// Finds the registry position of `id`.
    fn lookup(&self, id: &str) -> (r: Option<usize>)
        ensures
            match r {
                Some(i) => self.registered(id@) && i == find_id(self.registry@, id@),
                None => !self.registered(id@),
            },
    {
        let n = self.registry.len();
        let mut i: usize = 0;
        while i < n
            invariant
                i <= n,
                n == self.registry@.len(),
                forall|j: int| 0 <= j < i ==> (#[trigger] self.registry@[j]).0@ != id@,
            decreases n - i,
        {
            if str_eq(self.registry[i].0.as_str(), id) {
                proof {
                    lemma_find_id_unique(self.registry@, id@, i as int);
                }
                return Some(i);
            }
            i = i + 1;
        }
        proof {
            lemma_find_id_unique(self.registry@, id@, n as int);
        }
        None
    }

    /// Registers a component under its declared id.  The first registration
    /// of an id wins: registering an id a second time leaves the router
    /// unchanged.  Non-collectors are given a fresh, empty inbox.
    pub fn register_component<C: ComponentApi>(&mut self, component: &C)
        requires
            old(self).wf(),
        ensures
            final(self).wf(),
            old(self).registered(component.spec_id()) ==> *final(self) == *old(self),
            !old(self).registered(component.spec_id()) ==> {
                &&& final(self).registered(component.spec_id())
                &&& final(self).kind_of(component.spec_id()) == component.spec_kind()
                &&& final(self).queue_of(component.spec_id()) == Seq::<Event>::empty()
                &&& forall|other: Seq<char>|
                    other != component.spec_id() ==> final(self).registered(other) == old(self).registered(other) && (old(self).registered(other) ==> final(self).kind_of(
                        other,
                    ) == old(self).kind_of(other) && final(self).queue_of(other) == old(self).queue_of(other))
            },
    {
        let id = component.id();
        match self.lookup(id) {
            Some(_) => {
                // the id is taken: first registration wins
            },
            None => {
                let record = match component.kind() {
                    ComponentKind::Collector => ComponentRecord::Collector,
                    ComponentKind::Transformer => ComponentRecord::Transformer {
                        inbox: inbox_new(),
                    },
                    ComponentKind::Dispatcher => ComponentRecord::Dispatcher { inbox: inbox_new() },
                };
                let ghost oldreg = self.registry@;
                let owned_id = id.to_owned();
                self.registry.push((owned_id, record));
                proof {
                    let newreg = self.registry@;
                    let cid = component.spec_id();
                    lemma_find_id(oldreg, cid);
                    assert forall|j: int| 0 <= j < oldreg.len() implies newreg[j].0@ != cid by {
                        assert(newreg[j] == oldreg[j]);
                    }
                    lemma_find_id_unique(newreg, cid, oldreg.len() as int);
                    assert(final(self).registered(cid));
                    assert(final(self).kind_of(cid) == component.spec_kind());
                    assert(final(self).queue_of(cid) =~= Seq::<Event>::empty());
                    assert forall|other: Seq<char>| other != cid implies final(self).registered(
                        other,
                    ) == old(self).registered(other) && (old(self).registered(other) ==> final(self).kind_of(other) == old(self).kind_of(other) && final(self).queue_of(other)
                        == old(self).queue_of(other)) by {
                        lemma_find_id(oldreg, other);
                        let k = find_id(oldreg, other);
                        if k < oldreg.len() {
                            assert(newreg[k] == oldreg[k]);
                            lemma_find_id_unique(newreg, other, k);
                        } else {
                            lemma_find_id_unique(newreg, other, newreg.len() as int);
                        }
                    }
                    assert(final(self).wf()) by {
                        assert forall|i: int, j: int|
                            0 <= i < j < newreg.len() implies (#[trigger] newreg[i]).0@ != (
                        #[trigger] newreg[j]).0@ by {
                            if j < oldreg.len() {
                                assert(newreg[i] == oldreg[i]);
                                assert(newreg[j] == oldreg[j]);
                            } else {
                                assert(newreg[i] == oldreg[i]);
                                assert(newreg[i].0@ != cid);
                            }
                        }
                    }
                }
            },
        }
    }

    /// Sends an event to the component registered under `component_id`.
    /// Fails with `NoSuchComponent` on an unknown id, leaving the router
    /// untouched, and with `WrongComponentKind` when the target is a
    /// collector.  Otherwise the send succeeds: the event is appended at
    /// the back of the target's inbox, and no other inbox changes.
    pub fn send_event(&mut self, event: Event, component_id: &str) -> (r: Result<(), Error>)
        requires
            old(self).wf(),
        ensures
            final(self).wf(),
            !old(self).registered(component_id@) ==> (r matches Err(e) && e matches
                Error::NoSuchComponent(s) && s@ == component_id@) && *final(self) == *old(self),
            old(self).registered(component_id@) && old(self).kind_of(component_id@)
                == ComponentKind::Collector ==> (r matches Err(e) && e is WrongComponentKind)
                && *final(self) == *old(self),
            old(self).registered(component_id@) && old(self).kind_of(component_id@)
                != ComponentKind::Collector ==> {
                &&& r is Ok
                &&& final(self).queue_of(component_id@) == old(self).queue_of(
                    component_id@,
                ).push(event)
                &&& forall|other: Seq<char>| #![auto]
                    final(self).registered(other) == old(self).registered(other)
                &&& forall|other: Seq<char>| #![auto]
                    old(self).registered(other) ==> final(self).kind_of(other) == old(self).kind_of(other)
                &&& forall|other: Seq<char>| #![auto]
                    other != component_id@ && old(self).registered(other) ==> final(self).queue_of(
                        other,
                    ) == old(self).queue_of(other)
            },
    {
        let i = match self.lookup(component_id) {
            Some(i) => i,
            None => {
                return Err(Error::NoSuchComponent(component_id.to_owned()));
            },
        };
        let ghost oldreg = self.registry@;
        proof {
            lemma_find_id(oldreg, component_id@);
        }
        if matches!(&self.registry[i].1, ComponentRecord::Collector) {
            return Err(Error::WrongComponentKind);
        }
        let pair = &mut self.registry[i];
        match &mut pair.1 {
            ComponentRecord::Collector => {
                // unreachable: a collector target returned above
                proof {
                    assert(false);
                }
                return Err(Error::WrongComponentKind);
            },
            ComponentRecord::Transformer { inbox } => {
                inbox_send(inbox, event);
            },
            ComponentRecord::Dispatcher { inbox } => {
                inbox_send(inbox, event);
            },
        }
        proof {
            let newreg = self.registry@;
            assert(newreg.len() == oldreg.len());
            assert forall|j: int| 0 <= j < newreg.len() implies newreg[j].0@ == oldreg[j].0@ by {
                if j != i as int {
                    assert(newreg[j] == oldreg[j]);
                }
            }
            assert forall|other: Seq<char>| #![auto] find_id(newreg, other) == find_id(
                oldreg,
                other,
            ) by {
                lemma_find_id_same_keys(oldreg, newreg, other);
            }
            assert forall|other: Seq<char>| #![auto]
                other != component_id@ && old(self).registered(other) implies final(self).queue_of(other) == old(self).queue_of(other) by {
                lemma_find_id(oldreg, other);
                if find_id(oldreg, other) != i as int {
                    assert(newreg[find_id(oldreg, other)] == oldreg[find_id(oldreg, other)]);
                } else {
                    assert(oldreg[i as int].0@ == component_id@);
                }
            }
            assert forall|other: Seq<char>| #![auto]
                old(self).registered(other) implies final(self).kind_of(other) == old(self).kind_of(other) by {
                lemma_find_id(oldreg, other);
                if find_id(oldreg, other) != i as int {
                    assert(newreg[find_id(oldreg, other)] == oldreg[find_id(oldreg, other)]);
                }
            }
        }
        Ok(())
    }

    /// Takes the next event for the component registered under
    /// `component_id`.  Fails with `NoSuchComponent` on an unknown id and
    /// with `WrongComponentKind` when the caller is a collector; `Internal`
    /// reports that no event is waiting.  Otherwise the front of the inbox
    /// comes out and the later events move up.
    pub fn poll_event(&mut self, component_id: &str) -> (r: Result<Event, Error>)
        requires
            old(self).wf(),
        ensures
            final(self).wf(),
            !old(self).registered(component_id@) ==> (r matches Err(e) && e matches
                Error::NoSuchComponent(s) && s@ == component_id@) && *final(self) == *old(self),
            old(self).registered(component_id@) && old(self).kind_of(component_id@)
                == ComponentKind::Collector ==> (r matches Err(e) && e is WrongComponentKind)
                && *final(self) == *old(self),
            old(self).registered(component_id@) && old(self).kind_of(component_id@)
                != ComponentKind::Collector ==> {
                &&& old(self).queue_of(component_id@).len() == 0 ==> (r matches Err(e)
                    && e is Internal) && final(self).queue_of(component_id@) == old(self).queue_of(
                    component_id@,
                )
                &&& old(self).queue_of(component_id@).len() > 0 ==> (r matches Ok(e) && e == old(self).queue_of(component_id@)[0]) && final(self).queue_of(component_id@) == old(self).queue_of(component_id@).drop_first()
                &&& forall|other: Seq<char>| #![auto]
                    final(self).registered(other) == old(self).registered(other)
                &&& forall|other: Seq<char>| #![auto]
                    old(self).registered(other) ==> final(self).kind_of(other) == old(self).kind_of(other)
                &&& forall|other: Seq<char>| #![auto]
                    other != component_id@ && old(self).registered(other) ==> final(self).queue_of(
                        other,
                    ) == old(self).queue_of(other)
            },
    {
        let i = match self.lookup(component_id) {
            Some(i) => i,
            None => {
                return Err(Error::NoSuchComponent(component_id.to_owned()));
            },
        };
        let ghost oldreg = self.registry@;
        proof {
            lemma_find_id(oldreg, component_id@);
        }
        if matches!(&self.registry[i].1, ComponentRecord::Collector) {
            return Err(Error::WrongComponentKind);
        }
        let pair = &mut self.registry[i];
        let polled: Option<Event>;
        match &mut pair.1 {
            ComponentRecord::Collector => {
                // unreachable: a collector target returned above
                proof {
                    assert(false);
                }
                return Err(Error::WrongComponentKind);
            },
            ComponentRecord::Transformer { inbox } => {
                polled = inbox_try_recv(inbox);
            },
            ComponentRecord::Dispatcher { inbox } => {
                polled = inbox_try_recv(inbox);
            },
        }
        proof {
            let newreg = self.registry@;
            assert(newreg.len() == oldreg.len());
            assert forall|j: int| 0 <= j < newreg.len() implies newreg[j].0@ == oldreg[j].0@ by {
                if j != i as int {
                    assert(newreg[j] == oldreg[j]);
                }
            }
            assert forall|other: Seq<char>| #![auto] find_id(newreg, other) == find_id(
                oldreg,
                other,
            ) by {
                lemma_find_id_same_keys(oldreg, newreg, other);
            }
            assert forall|other: Seq<char>| #![auto]
                other != component_id@ && old(self).registered(other) implies final(self).queue_of(other) == old(self).queue_of(other) by {
                lemma_find_id(oldreg, other);
                if find_id(oldreg, other) != i as int {
                    assert(newreg[find_id(oldreg, other)] == oldreg[find_id(oldreg, other)]);
                } else {
                    assert(oldreg[i as int].0@ == component_id@);
                }
            }
            assert forall|other: Seq<char>| #![auto]
                old(self).registered(other) implies final(self).kind_of(other) == old(self).kind_of(other) by {
                lemma_find_id(oldreg, other);
                if find_id(oldreg, other) != i as int {
                    assert(newreg[find_id(oldreg, other)] == oldreg[find_id(oldreg, other)]);
                }
            }
        }
        match polled {
            Some(e) => Ok(e),
            None => Err(Error::Internal("no event is waiting".to_owned())),
        }
    }
}

impl Default for EventRouter {
    fn default() -> (r: Self)
        ensures
            r.wf(),
            forall|id: Seq<char>| !r.registered(id),
    {
        EventRouter::new()
    }
}

/// The queue left after `n` polls of an inbox.
pub open spec fn polled(q: Seq<Event>, n: int) -> Seq<Event>
    decreases n,
{
    if n <= 0 {
        q
    } else {
        polled(q, n - 1).drop_first()
    }
}

/// Polling `n` times drops the first `n` events.
pub proof fn lemma_polled_skip(q: Seq<Event>, n: int)
    requires
        0 <= n <= q.len(),
    ensures
        polled(q, n) == q.skip(n),
    decreases n,
{
    if n == 0 {
        assert(q.skip(0) =~= q);
    } else {
        lemma_polled_skip(q, n - 1);
        assert(q.skip(n - 1).drop_first() =~= q.skip(n));
    }
}

/// A sent event is delivered: after `send_event` appends `e` to an inbox
/// holding the queue `q`, the polls that drain the `q.len()` earlier events
/// leave `e` at the front, so the next `poll_event` returns `e`.
pub proof fn lemma_send_then_poll_returns(q: Seq<Event>, e: Event)
    ensures
        polled(q.push(e), q.len() as int).len() > 0,
        polled(q.push(e), q.len() as int)[0] == e,
{
    lemma_polled_skip(q.push(e), q.len() as int);
    assert(q.push(e).skip(q.len() as int) =~= seq![e]);
}

/// A single sender and target observe first-in, first-out order: when `e1`
/// is sent before `e2` into an inbox holding `q`, the polls return `e1`
/// (after `q.len()` earlier events) and only then `e2`.
pub proof fn lemma_fifo_order(q: Seq<Event>, e1: Event, e2: Event)
    ensures
        polled(q.push(e1).push(e2), q.len() as int)[0] == e1,
        polled(q.push(e1).push(e2), q.len() as int + 1)[0] == e2,
{
    let q2 = q.push(e1).push(e2);
    lemma_polled_skip(q2, q.len() as int);
    lemma_polled_skip(q2, q.len() as int + 1);
    assert(q2.skip(q.len() as int)[0] == e1);
    assert(q2.skip(q.len() as int + 1)[0] == e2);
}

} // verus!
