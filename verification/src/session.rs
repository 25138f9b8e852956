use std::cmp::Ordering;

use vstd::prelude::*;

use crate::traits::Prioritize;

verus! {

/// One item to send, or several to send together.
#[derive(Debug)]
pub enum Payload<T> {
    Single(T),
    Batch(Vec<T>),
}

/// Urgency of a request; later variants are more urgent.
#[derive(Debug, Clone, Copy, PartialEq, Eq, PartialOrd, Ord, Structural)]
pub enum Priority {
    Low,
    Normal,
    High,
    Critial,
}

/// The place of a priority in the order Low < Normal < High < Critial.
pub open spec fn rank(p: Priority) -> nat {
    match p {
        Priority::Low => 0,
        Priority::Normal => 1,
        Priority::High => 2,
        Priority::Critial => 3,
    }
}

/// The more urgent of two priorities.
pub open spec fn max_priority(a: Priority, b: Priority) -> Priority {
    if rank(a) >= rank(b) {
        a
    } else {
        b
    }
}

/// The most urgent priority among `items`, `Low` when there are none.
pub open spec fn batch_priority<T: Prioritize>(items: Seq<T>) -> Priority
    decreases items.len(),
{
    if items.len() == 0 {
        Priority::Low
    } else {
        max_priority(batch_priority(items.drop_last()), items.last().spec_priority())
    }
}

/// The priority a payload is sent with.
pub open spec fn payload_priority<T: Prioritize>(payload: Payload<T>) -> Priority {
    match payload {
        Payload::Single(item) => item.spec_priority(),
        Payload::Batch(items) => batch_priority(items@),
    }
}

impl Priority {
    /// The place of this priority in the order Low < Normal < High < Critial.
    pub fn rank(&self) -> (r: u8)
        ensures
            r == rank(*self),
    {
        match self {
            Priority::Low => 0,
            Priority::Normal => 1,
            Priority::High => 2,
            Priority::Critial => 3,
        }
    }
}

/// A payload with the priority it is sent with.
#[derive(Debug)]
pub struct Request<T> {
    pub priority: Priority,
    pub payload: Payload<T>,
}

/// The request a payload makes: the payload with its priority.
pub open spec fn request_of<T: Prioritize>(payload: Payload<T>) -> Request<T> {
    Request { priority: payload_priority(payload), payload }
}

impl<T: Prioritize> From<Payload<T>> for Request<T> {
    fn from(payload: Payload<T>) -> (r: Self) {
        let priority = match &payload {
            Payload::Single(item) => item.priority(),
            Payload::Batch(items) => {
                let mut best = Priority::Low;
                let n = items.len();
                let mut i: usize = 0;
                while i < n
                    invariant
                        n == items@.len(),
                        i <= n,
                        best == batch_priority(items@.take(i as int)),
                    decreases n - i,
                {
                    let p = items[i].priority();
                    assert(items@.take(i + 1).drop_last() =~= items@.take(i as int));
                    if p.rank() > best.rank() {
                        best = p;
                    }
                    i = i + 1;
                }
                assert(items@.take(n as int) =~= items@);
                best
            },
        };
        Request { priority, payload }
    }
}

impl<T: Prioritize> vstd::std_specs::convert::FromSpecImpl<Payload<T>> for Request<T> {
    open spec fn obeys_from_spec() -> bool {
        true
    }

    open spec fn from_spec(v: Payload<T>) -> Self {
        request_of(v)
    }
}

impl<T> PartialEq for Request<T> {
    fn eq(&self, other: &Self) -> (r: bool) {
        self.priority.rank() == other.priority.rank()
    }
}

impl<T> vstd::std_specs::cmp::PartialEqSpecImpl for Request<T> {
    open spec fn obeys_eq_spec() -> bool {
        true
    }

    open spec fn eq_spec(&self, other: &Self) -> bool {
        rank(self.priority) == rank(other.priority)
    }
}

impl<T> PartialOrd for Request<T> {
    /// Requests are ordered by their priorities.
    fn partial_cmp(&self, other: &Self) -> (r: Option<Ordering>) {
        let a = self.priority.rank();
        let b = other.priority.rank();
        if a < b {
            Some(Ordering::Less)
        } else if a == b {
            Some(Ordering::Equal)
        } else {
            Some(Ordering::Greater)
        }
    }
}

impl<T> vstd::std_specs::cmp::PartialOrdSpecImpl for Request<T> {
    open spec fn obeys_partial_cmp_spec() -> bool {
        true
    }

    open spec fn partial_cmp_spec(&self, other: &Self) -> Option<Ordering> {
        if rank(self.priority) < rank(other.priority) {
            Some(Ordering::Less)
        } else if rank(self.priority) == rank(other.priority) {
            Some(Ordering::Equal)
        } else {
            Some(Ordering::Greater)
        }
    }
}

/// Requests waiting to be sent; the most urgent leaves first, and among
/// equally urgent ones the earliest.
pub struct PriorityQueue<T> {
    items: Vec<Request<T>>,
}

impl<T> View for PriorityQueue<T> {
    type V = Seq<Request<T>>;

    closed spec fn view(&self) -> Seq<Request<T>> {
        self.items@
    }
}

/// The position in `s` of the first request whose priority no other
/// request exceeds.
pub open spec fn is_first_most_urgent<T>(s: Seq<Request<T>>, i: int) -> bool {
    &&& 0 <= i < s.len()
    &&& forall|j: int| 0 <= j < s.len() ==> rank(#[trigger] s[j].priority) <= rank(s[i].priority)
    &&& forall|j: int| 0 <= j < i ==> rank(#[trigger] s[j].priority) < rank(s[i].priority)
}

impl<T> PriorityQueue<T> {
    pub fn with_capacity(capacity: usize) -> (r: Self)
        ensures
            r@ == Seq::<Request<T>>::empty(),
    {
        PriorityQueue { items: Vec::with_capacity(capacity) }
    }

    pub fn len(&self) -> (r: usize)
        ensures
            r == self@.len(),
    {
        self.items.len()
    }

    pub fn push(&mut self, request: Request<T>)
        ensures
            final(self)@ == old(self)@.push(request),
    {
        self.items.push(request);
    }

    /// Takes out the first of the most urgent requests.
    pub fn pop(&mut self) -> (r: Option<Request<T>>)
        ensures
            old(self)@.len() == 0 ==> r is None && final(self)@ == old(self)@,
            old(self)@.len() > 0 ==> exists|i: int|
                is_first_most_urgent(old(self)@, i) && r == Some(old(self)@[i]) && final(self)@
                    == old(self)@.remove(i),
    {
        let n = self.items.len();
        if n == 0 {
            return None;
        }
        let mut best: usize = 0;
        let mut i: usize = 1;
        while i < n
            invariant
                n == self.items@.len(),
                1 <= i <= n,
                best < i,
                forall|j: int| 0 <= j < i ==> rank(#[trigger] self.items@[j].priority) <= rank(
                    self.items@[best as int].priority,
                ),
                forall|j: int| 0 <= j < best ==> rank(#[trigger] self.items@[j].priority) < rank(
                    self.items@[best as int].priority,
                ),
            decreases n - i,
        {
            if self.items[i].priority.rank() > self.items[best].priority.rank() {
                best = i;
            }
            i = i + 1;
        }
        let ghost old_items = self.items@;
        let r = self.items.remove(best);
        assert(is_first_most_urgent(old_items, best as int));
        Some(r)
    }
}

/// What a websocket session learns while it runs.
pub enum SessionEvent<T> {
    /// The session was told to stop.
    Cancelled,
    /// The task that writes to the socket ended.
    WriterEnded,
    /// The task that reads from the socket ended.
    ReaderEnded,
    /// A payload arrived to be sent; `None` once no sender is left.
    Request(Option<Payload<T>>),
    /// Handing a request to the writer failed: its channel is closed.
    SendFailed,
}

/// What a websocket session does next.
pub enum SessionAction<T> {
    /// Hand this request to the writer.
    Send(Request<T>),
    /// Wait for the next event.
    Wait,
    /// Stop the writer and the reader and end the session.
    Exit,
}

/// The decisions of one websocket session: requests wait in a queue and
/// the most urgent goes out first.
pub struct Session<T> {
    pq: PriorityQueue<T>,
}

impl<T: Prioritize> Session<T> {
    /// The requests waiting to go out.
    pub closed spec fn queue(&self) -> Seq<Request<T>> {
        self.pq@
    }

    /// A session with an empty queue that holds 100 requests before it grows.
    pub fn new() -> (r: Self)
        ensures
            r.queue() == Seq::<Request<T>>::empty(),
    {
        Session { pq: PriorityQueue::with_capacity(100) }
    }

    /// Takes the most urgent waiting request out of the queue, if any.
    pub fn forward_from_queue(&mut self) -> (r: Option<Request<T>>)
        ensures
            old(self).queue().len() == 0 ==> r is None && final(self).queue() == old(self).queue(),
            old(self).queue().len() > 0 ==> exists|i: int|
                is_first_most_urgent(old(self).queue(), i) && r == Some(old(self).queue()[i])
                    && final(self).queue() == old(self).queue().remove(i),
    {
        self.pq.pop()
    }

    /// The next step after `event`: a payload is queued with its priority
    /// and the most urgent waiting request goes out; every other event,
    /// and the end of the payloads, ends the session.
    pub fn step(&mut self, event: SessionEvent<T>) -> (r: SessionAction<T>)
        ensures
            event matches SessionEvent::Request(Some(p)) ==> {
                let q = old(self).queue().push(request_of(p));
                exists|i: int|
                    is_first_most_urgent(q, i) && r == SessionAction::Send(q[i])
                        && final(self).queue() == q.remove(i)
            },
            !(event matches SessionEvent::Request(Some(_))) ==> r is Exit && final(self).queue()
                == old(self).queue(),
    {
        match event {
            SessionEvent::Request(Some(payload)) => {
                let ghost p0 = payload;
                let request = Request::from(payload);
                assert(request == request_of(p0));
                self.pq.push(request);
                let ghost q = self.queue();
                assert(q == old(self).queue().push(request_of(p0)));
                let out = self.forward_from_queue();
                proof {
                    let i = choose|i: int|
                        is_first_most_urgent(q, i) && out == Some(q[i]) && self.queue()
                            == q.remove(i);
                    assert(is_first_most_urgent(q, i));
                }
                match out {
                    Some(req) => SessionAction::Send(req),
                    None => SessionAction::Wait,
                }
            },
            _ => SessionAction::Exit,
        }
    }
}

/// What the session manager does once a session has ended.
#[derive(Debug, Clone, Copy, PartialEq, Eq, Structural)]
pub enum Reconnect {
    /// The manager was cancelled: stop.
    Stop,
    /// Tell the listeners that the connection died, wait this many seconds
    /// and connect again.
    After { secs: u64 },
}

/// Seconds between a lost connection and the next attempt.
pub const RETRY_INTERVAL_SECS: u64 = 1;

/// After a session ends: stop when cancelled, else reconnect after the
/// retry interval.
pub fn after_session(cancelled: bool) -> (r: Reconnect)
    ensures
        cancelled ==> r == Reconnect::Stop,
        !cancelled ==> r == (Reconnect::After { secs: RETRY_INTERVAL_SECS }),
{
    if cancelled {
        Reconnect::Stop
    } else {
        Reconnect::After { secs: RETRY_INTERVAL_SECS }
    }
}

/// The priority of a batch is that of its most urgent item: no item is
/// more urgent, and an empty batch is `Low`, any other the priority of one
/// of its items.
pub proof fn lemma_batch_priority_is_max<T: Prioritize>(items: Seq<T>)
    ensures
        forall|i: int|
            0 <= i < items.len() ==> rank(#[trigger] items[i].spec_priority()) <= rank(
                batch_priority(items),
            ),
        items.len() == 0 ==> batch_priority(items) == Priority::Low,
        items.len() > 0 ==> exists|i: int|
            0 <= i < items.len() && batch_priority(items) == #[trigger] items[i].spec_priority(),
    decreases items.len(),
{
    if items.len() > 0 {
        let init = items.drop_last();
        lemma_batch_priority_is_max(init);
        assert forall|i: int| 0 <= i < items.len() implies rank(
            #[trigger] items[i].spec_priority(),
        ) <= rank(batch_priority(items)) by {
            if i < items.len() - 1 {
                assert(items[i] == init[i]);
            }
        }
        if rank(batch_priority(init)) >= rank(items.last().spec_priority()) && init.len() > 0 {
            let w = choose|i: int|
                0 <= i < init.len() && batch_priority(init) == #[trigger] init[i].spec_priority();
            assert(items[w] == init[w]);
        } else {
            assert(items[items.len() - 1] == items.last());
        }
    }
}

/// A request that finds the queue empty is the one that leaves next, and
/// leaves the queue empty again.
pub proof fn lemma_lone_request_goes_out<T>(r: Request<T>)
    ensures
        is_first_most_urgent(seq![r], 0),
        forall|i: int| is_first_most_urgent(seq![r], i) ==> i == 0,
        seq![r].remove(0) == Seq::<Request<T>>::empty(),
{
    assert(seq![r].remove(0) =~= Seq::<Request<T>>::empty());
}

} // verus!
