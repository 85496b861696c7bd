//! Shared-memory ring transport for subscribers on the same host.
//!
//! A ring has a fixed number of slots. Every write takes the next sequence
//! number (the head) and stores the payload in slot `sequence % capacity`;
//! a subscriber reads sequence numbers in order from the head it saw when it
//! joined, and the furthest position read by any subscriber is the tail.
//! A write is refused as `RingFull` when, after taking its sequence number,
//! the head is `capacity` or more ahead of the tail.
//!
//! Waking the subscribers and backing the ring with a file are left to the
//! caller; this module decides what is stored and what is read.

use vstd::prelude::*;
use crate::segments::{bytes_eq, to_vec};
use super::{TransportError, TransportResult};

verus! {

/// Default number of slots per ring.
pub const DEFAULT_SHM_CAPACITY: usize = 1024usize;

/// Abstract state of a ring.
pub struct RingView {
    pub head: usize,
    pub tail: usize,
    pub capacity: usize,
    pub slots: Seq<Option<Seq<u8>>>,
}

/// Outcome of a write: the state after it and the result reported.
pub open spec fn write_spec(r: RingView, payload: Seq<u8>) -> (RingView, Result<u64, ()>) {
    let write_idx = r.head;
    let head = vstd::wrapping::usize_specs::wrapping_add(r.head, 1);
    if head > r.tail && head - r.tail >= r.capacity {
        (RingView { head, ..r }, Err(()))
    } else {
        (
            RingView {
                head,
                slots: r.slots.update((write_idx % r.capacity) as int, Some(payload)),
                ..r
            },
            Ok(write_idx as u64),
        )
    }
}

/// What a subscriber's poll gives.
pub enum PollOutcome {
    /// The next message.
    Ready(Vec<u8>),
    /// Nothing to read yet; the caller should wake the subscriber when the
    /// given slot is written.
    Pending(usize),
}

/// Abstract outcome of a poll.
pub enum PollView {
    Ready(Seq<u8>),
    Pending(usize),
}

/// The view of a poll outcome.
pub open spec fn poll_view(o: PollOutcome) -> PollView {
    match o {
        PollOutcome::Ready(v) => PollView::Ready(v@),
        PollOutcome::Pending(s) => PollView::Pending(s),
    }
}

/// Outcome of a poll by a subscriber at `cursor`: the ring after it, the
/// subscriber's new cursor, and what it gets.
pub open spec fn poll_spec(r: RingView, cursor: usize) -> (RingView, usize, PollView) {
    if cursor >= r.head {
        (r, cursor, PollView::Pending((cursor % r.capacity) as usize))
    } else {
        let slot = (cursor % r.capacity) as int;
        match r.slots[slot] {
            Some(msg) => {
                let c = (cursor + 1) as usize;
                (
                    RingView { tail: if c > r.tail { c } else { r.tail }, ..r },
                    c,
                    PollView::Ready(msg),
                )
            },
            None => (r, cursor, PollView::Pending(slot as usize)),
        }
    }
}

/// A ring buffer of payloads for one topic.
pub struct SHMRing {
    head: usize,
    tail: usize,
    capacity: usize,
    slots: Vec<Option<Vec<u8>>>,
    topic: Vec<u8>,
}

/// The byte view of a slot.
pub open spec fn slot_view(o: Option<Vec<u8>>) -> Option<Seq<u8>> {
    match o {
        Some(v) => Some(v@),
        None => None,
    }
}

impl SHMRing {
    pub closed spec fn view(&self) -> RingView {
        RingView {
            head: self.head,
            tail: self.tail,
            capacity: self.capacity,
            slots: self.slots@.map_values(|o: Option<Vec<u8>>| slot_view(o)),
        }
    }

    /// The topic the ring carries.
    pub closed spec fn topic_spec(&self) -> Seq<u8> {
        self.topic@
    }

    /// The ring has one slot per unit of capacity.
    pub closed spec fn wf(&self) -> bool {
        self.slots@.len() == self.capacity
    }

    /// A ring of `capacity` empty slots for `topic`, with head and tail at 0.
    pub fn new(capacity: usize, topic: &[u8]) -> (r: Self)
        ensures
            r.wf(),
            r.view().head == 0,
            r.view().tail == 0,
            r.view().capacity == capacity,
            r.view().slots == Seq::new(capacity as nat, |i: int| None::<Seq<u8>>),
            r.topic_spec() == topic@,
    {
        let mut slots: Vec<Option<Vec<u8>>> = Vec::with_capacity(capacity);
        let mut i: usize = 0;
        while i < capacity
            invariant
                i <= capacity,
                slots@.len() == i,
                forall|k: int| 0 <= k < i ==> #[trigger] slots@[k] is None,
            decreases capacity - i,
        {
            slots.push(None);
            i = i + 1;
        }
        let r = SHMRing { head: 0, tail: 0, capacity, slots, topic: to_vec(topic) };
        assert(r.view().slots =~= Seq::new(capacity as nat, |i: int| None::<Seq<u8>>));
        r
    }

    /// Writes `payload` under the next sequence number, which is returned.
    /// The sequence number is taken even when the write is refused as
    /// `RingFull`.
    pub fn try_write(&mut self, payload: Vec<u8>) -> (r: TransportResult<u64>)
        requires
            old(self).wf(),
            old(self).view().capacity > 0,
        ensures
            final(self).wf(),
            final(self).topic_spec() == old(self).topic_spec(),
            final(self).view() == write_spec(old(self).view(), payload@).0,
            match write_spec(old(self).view(), payload@).1 {
                Ok(s) => r == Ok::<u64, TransportError>(s),
                Err(_) => r matches Err(TransportError::RingFull),
            },
    {
        let ghost pv = payload@;
        let write_idx = self.head;
        self.head = self.head.wrapping_add(1);
        let slot_idx = write_idx % self.capacity;
        let tail = self.tail;
        let head = self.head;
        if head > tail && head - tail >= self.capacity {
            return Err(TransportError::RingFull);
        }
        self.slots.set(slot_idx, Some(payload));
        assert(self.view().slots =~= old(self).view().slots.update(slot_idx as int, Some(pv)));
        Ok(write_idx as u64)
    }

    /// The next sequence number to be written.
    pub fn head(&self) -> (r: usize)
        ensures
            r == self.view().head,
    {
        self.head
    }

    /// The furthest position read by a subscriber.
    pub fn tail(&self) -> (r: usize)
        ensures
            r == self.view().tail,
    {
        self.tail
    }

    /// Number of slots.
    pub fn capacity(&self) -> (r: usize)
        ensures
            r == self.view().capacity,
    {
        self.capacity
    }

    /// The slot that holds sequence number `seq`.
    pub fn slot_of(&self, seq: u64) -> (r: usize)
        requires
            self.view().capacity > 0,
        ensures
            r == seq % (self.view().capacity as u64),
    {
        (seq % (self.capacity as u64)) as usize
    }

    /// The topic the ring carries.
    pub fn topic(&self) -> (r: &Vec<u8>)
        ensures
            r@ == self.topic_spec(),
    {
        &self.topic
    }
}

/// A subscriber reading a ring in sequence order.
pub struct SHMSubscriber {
    cursor: usize,
}

impl SHMSubscriber {
    pub closed spec fn cursor_spec(&self) -> usize {
        self.cursor
    }

    /// A subscriber that starts at the ring's current head: it sees the
    /// messages written from now on.
    pub fn new(ring: &SHMRing) -> (r: Self)
        ensures
            r.cursor_spec() == ring.view().head,
    {
        SHMSubscriber { cursor: ring.head }
    }

    /// Position of the next message to read.
    pub fn cursor(&self) -> (r: usize)
        ensures
            r == self.cursor_spec(),
    {
        self.cursor
    }

    /// Reads the next message, advancing the cursor and the ring's tail, or
    /// reports which slot to wait on.
    pub fn poll_next(&mut self, ring: &mut SHMRing) -> (r: PollOutcome)
        requires
            old(ring).wf(),
            old(ring).view().capacity > 0,
        ensures
            final(ring).wf(),
            final(ring).topic_spec() == old(ring).topic_spec(),
            (final(ring).view(), final(self).cursor_spec(), poll_view(r)) == poll_spec(
                old(ring).view(),
                old(self).cursor_spec(),
            ),
    {
        let head = ring.head;
        if self.cursor >= head {
            return PollOutcome::Pending(self.cursor % ring.capacity);
        }
        let slot_idx = self.cursor % ring.capacity;
        assert(ring.view().slots[slot_idx as int] == slot_view(ring.slots@[slot_idx as int]));
        match &ring.slots[slot_idx] {
            Some(msg) => {
                let msg = to_vec(msg.as_slice());
                self.cursor = self.cursor + 1;
                let current_tail = ring.tail;
                if self.cursor > current_tail {
                    ring.tail = self.cursor;
                }
                PollOutcome::Ready(msg)
            },
            None => PollOutcome::Pending(slot_idx),
        }
    }
}

/// Write-read law: a payload written under sequence number `s` is what a
/// subscriber positioned at `s` reads next.
pub proof fn lemma_read_after_write(r: RingView, payload: Seq<u8>, cursor: usize)
    requires
        r.capacity > 0,
        r.slots.len() == r.capacity,
        r.head < usize::MAX,
        write_spec(r, payload).1 is Ok,
        cursor == r.head,
    ensures
        poll_spec(write_spec(r, payload).0, cursor).2 == PollView::Ready(payload),
        poll_spec(write_spec(r, payload).0, cursor).1 == cursor + 1,
{
    let w = write_spec(r, payload).0;
    assert(w.head == r.head + 1);
    assert(0 <= cursor % r.capacity < r.capacity);
}

/// Tail law: a poll never moves the ring's tail backwards and changes
/// nothing else of the ring; after a read the tail is the larger of the old
/// tail and the reader's new position, so it is the furthest position read
/// by any subscriber.
pub proof fn lemma_poll_keeps_tail_monotone(r: RingView, cursor: usize)
    requires
        r.capacity > 0,
        r.slots.len() == r.capacity,
    ensures
        poll_spec(r, cursor).0.tail >= r.tail,
        poll_spec(r, cursor).0.head == r.head,
        poll_spec(r, cursor).0.capacity == r.capacity,
        poll_spec(r, cursor).0.slots == r.slots,
        poll_spec(r, cursor).2 is Ready ==> poll_spec(r, cursor).1 == cursor + 1
            && poll_spec(r, cursor).0.tail >= cursor + 1
            && (poll_spec(r, cursor).0.tail == r.tail || poll_spec(r, cursor).0.tail == cursor + 1),
        poll_spec(r, cursor).2 is Pending ==> poll_spec(r, cursor).0 == r && poll_spec(r, cursor).1 == cursor,
{
}

/// Writes after reads: once subscribers have read up to the tail, a write is
/// refused only when the ring holds `capacity` unread positions; with fewer,
/// it is accepted.
pub proof fn lemma_write_accepted_below_capacity(r: RingView, payload: Seq<u8>)
    requires
        r.head < usize::MAX,
        r.tail <= r.head,
        r.head + 1 - r.tail < r.capacity,
    ensures
        write_spec(r, payload).1 == Ok::<u64, ()>(r.head as u64),
        write_spec(r, payload).0.tail == r.tail,
{
}

/// Sequence law: every write, refused or not, takes the next sequence number;
/// an accepted write reports the head it found.
pub proof fn lemma_write_sequence(r: RingView, payload: Seq<u8>)
    requires
        r.head < usize::MAX,
    ensures
        write_spec(r, payload).0.head == r.head + 1,
        write_spec(r, payload).1 matches Ok(s) ==> s == r.head,
        write_spec(r, payload).1 is Err <==> (r.head + 1 > r.tail && r.head + 1 - r.tail >= r.capacity),
{
}

/// The rings of the shared-memory transport, one per topic.
pub struct SHMTransport {
    rings: Vec<SHMRing>,
    capacity: usize,
}

impl SHMTransport {
    /// The topics that have a ring, in creation order.
    pub closed spec fn topics(&self) -> Seq<Seq<u8>> {
        self.rings@.map_values(|r: SHMRing| r.topic_spec())
    }

    /// The ring of topic number `i`.
    pub closed spec fn ring(&self, i: int) -> RingView {
        self.rings@[i].view()
    }

    /// Slots given to each new ring.
    pub closed spec fn capacity_spec(&self) -> usize {
        self.capacity
    }

    /// Ring topics are distinct and every ring is well formed with the
    /// transport's capacity.
    pub closed spec fn wf(&self) -> bool {
        &&& forall|i: int, j: int|
            0 <= i < self.rings@.len() && 0 <= j < self.rings@.len() && i != j
                ==> #[trigger] self.rings@[i].topic_spec() != #[trigger] self.rings@[j].topic_spec()
        &&& forall|i: int| 0 <= i < self.rings@.len() ==> #[trigger] self.rings@[i].wf()
        &&& forall|i: int| 0 <= i < self.rings@.len() ==> #[trigger] self.rings@[i].view().capacity == self.capacity
    }

    /// A transport with no rings whose rings get `capacity` slots.
    pub fn new(capacity: usize) -> (r: Self)
        ensures
            r.wf(),
            r.topics() == Seq::<Seq<u8>>::empty(),
            r.capacity_spec() == capacity,
    {
        let r = SHMTransport { rings: Vec::new(), capacity };
        assert(r.topics() =~= Seq::<Seq<u8>>::empty());
        r
    }

    /// The index of the ring of `topic`, if any.
    fn find_ring(&self, topic: &[u8]) -> (r: Option<usize>)
        requires
            self.wf(),
        ensures
            r matches Some(i) ==> i < self.topics().len() && self.topics()[i as int] == topic@,
            r is None <==> !self.topics().contains(topic@),
    {
        let mut i: usize = 0;
        while i < self.rings.len()
            invariant
                self.wf(),
                i <= self.rings@.len(),
                forall|k: int| 0 <= k < i ==> #[trigger] self.topics()[k] != topic@,
            decreases self.rings@.len() - i,
        {
            assert(self.topics()[i as int] == self.rings@[i as int].topic_spec());
            if bytes_eq(self.rings[i].topic().as_slice(), topic) {
                return Some(i);
            }
            i = i + 1;
        }
        None
    }

    /// Whether `topic` has a ring.
    pub fn has_topic(&self, topic: &[u8]) -> (r: bool)
        requires
            self.wf(),
        ensures
            r == self.topics().contains(topic@),
    {
        self.find_ring(topic).is_some()
    }

    /// The index of the ring of `topic`, creating an empty ring when there is
    /// none; also whether it was created (the caller then backs it with a file).
    pub fn get_or_create_ring(&mut self, topic: &[u8]) -> (r: (usize, bool))
        requires
            old(self).wf(),
        ensures
            final(self).wf(),
            final(self).capacity_spec() == old(self).capacity_spec(),
            r.1 == !old(self).topics().contains(topic@),
            final(self).topics() == if r.1 { old(self).topics().push(topic@) } else { old(self).topics() },
            r.0 < final(self).topics().len(),
            final(self).topics()[r.0 as int] == topic@,
            r.1 ==> final(self).ring(r.0 as int) == (RingView {
                head: 0,
                tail: 0,
                capacity: old(self).capacity_spec(),
                slots: Seq::new(old(self).capacity_spec() as nat, |k: int| None::<Seq<u8>>),
            }),
            forall|i: int| 0 <= i < old(self).topics().len() ==> #[trigger] final(self).ring(i) == old(self).ring(i),
    {
        match self.find_ring(topic) {
            Some(i) => (i, false),
            None => {
                let ghost old_topics = self.topics();
                let i = self.rings.len();
                let ring = SHMRing::new(self.capacity, topic);
                self.rings.push(ring);
                assert(self.topics() =~= old_topics.push(topic@));
                assert forall|a: int, b: int|
                    0 <= a < self.rings@.len() && 0 <= b < self.rings@.len() && a != b
                    implies #[trigger] self.rings@[a].topic_spec() != #[trigger] self.rings@[b].topic_spec() by {
                    assert(self.topics()[a] == self.rings@[a].topic_spec());
                    assert(self.topics()[b] == self.rings@[b].topic_spec());
                    if a == i as int {
                        assert(!old_topics.contains(topic@));
                        assert(old_topics[b] != topic@);
                    } else if b == i as int {
                        assert(old_topics[a] != topic@);
                    } else {
                        assert(old(self).rings@[a].topic_spec() != old(self).rings@[b].topic_spec());
                    }
                }
                (i, true)
            },
        }
    }

    /// Publishes `payload` on the ring of `topic`, creating the ring when
    /// missing. Returns the sequence number taken, or `RingFull`.
    pub fn publish(&mut self, topic: &[u8], payload: Vec<u8>) -> (r: TransportResult<u64>)
        requires
            old(self).wf(),
            old(self).capacity_spec() > 0,
        ensures
            final(self).wf(),
            final(self).capacity_spec() == old(self).capacity_spec(),
            final(self).topics() == if old(self).topics().contains(topic@) { old(self).topics() } else { old(self).topics().push(topic@) },
            forall|k: int| 0 <= k < old(self).topics().len() && old(self).topics()[k] != topic@ ==> #[trigger] final(self).ring(k) == old(self).ring(k),
            ({
                let i = choose|i: int| 0 <= i < final(self).topics().len() && final(self).topics()[i] == topic@;
                let before = if old(self).topics().contains(topic@) { old(self).ring(i) } else {
                    RingView { head: 0, tail: 0, capacity: old(self).capacity_spec(), slots: Seq::new(old(self).capacity_spec() as nat, |k: int| None::<Seq<u8>>) }
                };
                &&& final(self).ring(i) == write_spec(before, payload@).0
                &&& match write_spec(before, payload@).1 {
                    Ok(s) => r == Ok::<u64, TransportError>(s),
                    Err(_) => r matches Err(TransportError::RingFull),
                }
            }),
    {
        let (i, created) = self.get_or_create_ring(topic);
        let ghost mid = *self;
        let ghost before = self.rings@[i as int].view();
        assert(mid.ring(i as int) == before);
        assert(!created ==> i < old(self).topics().len());
        assert(!created ==> old(self).ring(i as int) == before);
        assert(self.rings@[i as int].wf());
        let r = self.rings[i].try_write(payload);
        proof {
            assert(self.topics() =~= mid.topics()) by {
                assert forall|k: int| 0 <= k < mid.rings@.len() implies #[trigger] self.rings@[k].topic_spec() == mid.rings@[k].topic_spec() by {}
            }
            assert(self.topics()[i as int] == topic@);
            let c = choose|k: int| 0 <= k < self.topics().len() && self.topics()[k] == topic@;
            assert(self.topics()[c] == self.rings@[c].topic_spec());
            assert(self.topics()[i as int] == self.rings@[i as int].topic_spec());
            assert(c == i as int) by {
                if c != i as int {
                    assert(mid.rings@[c].topic_spec() != mid.rings@[i as int].topic_spec());
                }
            }
            assert forall|a: int, b: int|
                0 <= a < self.rings@.len() && 0 <= b < self.rings@.len() && a != b
                implies #[trigger] self.rings@[a].topic_spec() != #[trigger] self.rings@[b].topic_spec() by {
                assert(mid.rings@[a].topic_spec() != mid.rings@[b].topic_spec());
            }
            if created {
                assert(before.slots =~= Seq::new(old(self).capacity_spec() as nat, |k: int| None::<Seq<u8>>));
            }
            assert forall|k: int| 0 <= k < old(self).topics().len() && old(self).topics()[k] != topic@
                implies #[trigger] self.ring(k) == old(self).ring(k) by {
                assert(mid.topics()[k] == old(self).topics()[k]);
                assert(k != i as int);
                assert(self.rings@[k] == mid.rings@[k]);
                assert(mid.ring(k) == old(self).ring(k));
            }
        }
        r
    }

    /// Subscribes to `topic`, creating its ring when missing. The subscriber
    /// starts at the ring's current head. Returns the ring's index with it.
    pub fn subscribe(&mut self, topic: &[u8]) -> (r: (usize, SHMSubscriber))
        requires
            old(self).wf(),
        ensures
            final(self).wf(),
            final(self).topics() == if old(self).topics().contains(topic@) { old(self).topics() } else { old(self).topics().push(topic@) },
            r.0 < final(self).topics().len(),
            final(self).topics()[r.0 as int] == topic@,
            r.1.cursor_spec() == final(self).ring(r.0 as int).head,
            final(self).capacity_spec() == old(self).capacity_spec(),
            !old(self).topics().contains(topic@) ==> final(self).ring(r.0 as int) == (RingView {
                head: 0,
                tail: 0,
                capacity: old(self).capacity_spec(),
                slots: Seq::new(old(self).capacity_spec() as nat, |k: int| None::<Seq<u8>>),
            }),
            forall|i: int| 0 <= i < old(self).topics().len() ==> #[trigger] final(self).ring(i) == old(self).ring(i),
    {
        let (i, _created) = self.get_or_create_ring(topic);
        let sub = SHMSubscriber::new(&self.rings[i]);
        (i, sub)
    }

    /// Polls subscriber `sub` of ring number `ring`.
    pub fn poll(&mut self, ring: usize, sub: &mut SHMSubscriber) -> (r: PollOutcome)
        requires
            old(self).wf(),
            ring < old(self).topics().len(),
            old(self).capacity_spec() > 0,
        ensures
            final(self).wf(),
            final(self).capacity_spec() == old(self).capacity_spec(),
            final(self).topics() == old(self).topics(),
            (final(self).ring(ring as int), final(sub).cursor_spec(), poll_view(r)) == poll_spec(
                old(self).ring(ring as int),
                old(sub).cursor_spec(),
            ),
            forall|i: int| 0 <= i < old(self).topics().len() && i != ring ==> #[trigger] final(self).ring(i) == old(self).ring(i),
    {
        let ghost before = *self;
        assert(self.rings@[ring as int].wf());
        let r = sub.poll_next(&mut self.rings[ring]);
        proof {
            assert(self.topics() =~= before.topics()) by {
                assert forall|k: int| 0 <= k < before.rings@.len() implies #[trigger] self.rings@[k].topic_spec() == before.rings@[k].topic_spec() by {}
            }
            assert forall|a: int, b: int|
                0 <= a < self.rings@.len() && 0 <= b < self.rings@.len() && a != b
                implies #[trigger] self.rings@[a].topic_spec() != #[trigger] self.rings@[b].topic_spec() by {
                assert(before.rings@[a].topic_spec() != before.rings@[b].topic_spec());
            }
        }
        r
    }
}

} // verus!
