//! The event bus: a bounded queue of normalized events. At capacity, a new
//! event replaces the oldest pending one for the same interface and kind;
//! with no such event the producer is told to wait.

use vstd::prelude::*;
use crate::ip::IpAddress;

verus! {

#[derive(Clone, Copy, Debug, PartialEq, Eq, Structural)]
pub enum EventSource {
    Netlink,
    Lease,
    Manager,
}

#[derive(Clone, Copy, Debug, PartialEq, Eq, Structural)]
pub enum EventKind {
    NewLink,
    DelLink,
    NewAddr,
    DelAddr,
    NewRoute,
    DelRoute,
    LinkState,
    LeaseUpdated,
    RouteChanged,
}

/// A normalized event.
pub struct Event {
    pub source: EventSource,
    pub ifindex: u32,
    pub ifname: String,
    pub kind: EventKind,
    pub state: Option<String>,
    pub addresses: Vec<IpAddress>,
    pub dns: Vec<IpAddress>,
    pub domains: Vec<String>,
}

pub open spec fn event_key(e: Event) -> (u32, EventKind) {
    (e.ifindex, e.kind)
}

/// The position of the oldest event with key `k`.
pub open spec fn first_with_key(q: Seq<Event>, k: (u32, EventKind)) -> Option<int>
    decreases q.len(),
{
    if q.len() == 0 {
        None
    } else if event_key(q[0]) == k {
        Some(0)
    } else {
        match first_with_key(q.drop_first(), k) {
            Some(i) => Some(i + 1),
            None => None,
        }
    }
}

proof fn lemma_first_with_key(q: Seq<Event>, k: (u32, EventKind), i: int)
    requires
        0 <= i <= q.len(),
        forall|j: int| 0 <= j < i ==> event_key(#[trigger] q[j]) != k,
    ensures
        i < q.len() && event_key(q[i]) == k ==> first_with_key(q, k) == Some(i),
        i == q.len() ==> first_with_key(q, k) is None,
    decreases i,
{
    if i > 0 {
        lemma_first_with_key(q.drop_first(), k, i - 1);
    }
}

proof fn lemma_first_with_key_bounds(q: Seq<Event>, k: (u32, EventKind))
    ensures
        first_with_key(q, k) matches Some(i) ==> 0 <= i < q.len() && event_key(q[i]) == k,
    decreases q.len(),
{
    if q.len() > 0 {
        lemma_first_with_key_bounds(q.drop_first(), k);
    }
}

/// The queue after offering `e`: appended below capacity, else put in the
/// place of the oldest event with its key; `None` when neither is possible.
pub open spec fn offer(q: Seq<Event>, capacity: nat, e: Event) -> Option<Seq<Event>> {
    if q.len() < capacity {
        Some(q.push(e))
    } else {
        match first_with_key(q, event_key(e)) {
            Some(i) => Some(q.update(i, e)),
            None => None,
        }
    }
}

pub struct EventQueue {
    pub events: Vec<Event>,
    pub capacity: usize,
}

impl EventQueue {
    pub open spec fn wf(&self) -> bool {
        self.events@.len() <= self.capacity
    }

    /// An empty queue holding at most `capacity` events.
    pub fn new(capacity: usize) -> (r: EventQueue)
        ensures
            r.wf(),
            r.events@.len() == 0,
            r.capacity == capacity,
    {
        EventQueue { events: Vec::new(), capacity }
    }

    pub fn len(&self) -> (r: usize)
        ensures
            r == self.events@.len(),
    {
        self.events.len()
    }

    /// Offers an event. It is taken when there is room or when it can
    /// replace a pending event of the same interface and kind; otherwise it
    /// comes back and the producer waits.
    pub fn push(&mut self, e: Event) -> (r: Result<(), Event>)
        requires
            old(self).wf(),
        ensures
            final(self).wf(),
            final(self).capacity == old(self).capacity,
            match offer(old(self).events@, old(self).capacity as nat, e) {
                Some(q) => r is Ok && final(self).events@ == q,
                None => r == Err::<(), Event>(e) && final(self).events@ == old(self).events@,
            },
    {
        if self.events.len() < self.capacity {
            self.events.push(e);
            return Ok(());
        }
        let ghost q = self.events@;
        let mut i: usize = 0;
        while i < self.events.len()
            invariant
                self.events@ == q,
                q == old(self).events@,
                self.capacity == old(self).capacity,
                q.len() == self.capacity,
                i <= q.len(),
                forall|j: int| 0 <= j < i ==> event_key(#[trigger] q[j]) != event_key(e),
            decreases self.events.len() - i,
        {
            if self.events[i].ifindex == e.ifindex && self.events[i].kind == e.kind {
                proof {
                    lemma_first_with_key(q, event_key(e), i as int);
                }
                self.events.set(i, e);
                return Ok(());
            }
            i = i + 1;
        }
        proof {
            lemma_first_with_key(q, event_key(e), i as int);
        }
        Err(e)
    }

    /// Takes the oldest event.
    pub fn pop(&mut self) -> (r: Option<Event>)
        requires
            old(self).wf(),
        ensures
            final(self).wf(),
            final(self).capacity == old(self).capacity,
            old(self).events@.len() == 0 ==> r is None && final(self).events@ == old(self).events@,
            old(self).events@.len() > 0 ==> r == Some(old(self).events@[0]) && final(self).events@
                == old(self).events@.drop_first(),
    {
        if self.events.len() == 0 {
            None
        } else {
            let e = self.events.remove(0);
            assert(self.events@ =~= old(self).events@.drop_first());
            Some(e)
        }
    }
}

/// At capacity, an event whose interface and kind are pending is taken in
/// the place of the oldest such event: the producer does not block, the
/// queue does not grow, and the newer event is kept.
pub proof fn full_queue_coalesces(q: Seq<Event>, capacity: nat, e: Event)
    requires
        q.len() >= capacity,
        exists|i: int| 0 <= i < q.len() && event_key(#[trigger] q[i]) == event_key(e),
    ensures
        offer(q, capacity, e) is Some,
        offer(q, capacity, e)->0.len() == q.len(),
        offer(q, capacity, e)->0.contains(e),
        first_with_key(q, event_key(e)) matches Some(i) && forall|j: int|
            0 <= j < q.len() && j != i ==> offer(q, capacity, e)->0[j] == q[j],
{
    let w = choose|i: int| 0 <= i < q.len() && event_key(#[trigger] q[i]) == event_key(e);
    lemma_first_with_key_bounds(q, event_key(e));
    if first_with_key(q, event_key(e)) is None {
        // No position before the end holds the key: contradiction with `w`.
        assert forall|j: int| 0 <= j < q.len() implies event_key(#[trigger] q[j]) != event_key(
            e,
        ) by {
            lemma_first_with_key_none(q, event_key(e), j);
        }
    }
    let i = first_with_key(q, event_key(e))->0;
    assert(offer(q, capacity, e)->0[i] == e);
}

proof fn lemma_first_with_key_none(q: Seq<Event>, k: (u32, EventKind), j: int)
    requires
        first_with_key(q, k) is None,
        0 <= j < q.len(),
    ensures
        event_key(q[j]) != k,
    decreases q.len(),
{
    if j > 0 && event_key(q[0]) != k {
        lemma_first_with_key_none(q.drop_first(), k, j - 1);
    }
}

/// An offered event that is taken is in the queue: no newer event is ever
/// dropped.
pub proof fn offer_keeps_newest(q: Seq<Event>, capacity: nat, e: Event)
    ensures
        offer(q, capacity, e) matches Some(r) ==> r.contains(e),
{
    lemma_first_with_key_bounds(q, event_key(e));
    if let Some(r) = offer(q, capacity, e) {
        if q.len() < capacity {
            assert(r[q.len() as int] == e);
        } else {
            let i = first_with_key(q, event_key(e))->0;
            assert(r[i] == e);
        }
    }
}

} // verus!
