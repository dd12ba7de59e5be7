//! The single-producer/single-consumer ring over a shared region.
//!
//! The producer owns the head cursor for mutation, the consumer the tail
//! cursor; each only reads the other's. One slot is always kept empty, so the
//! ring is empty exactly when the cursors meet and full exactly when the head
//! is one step behind the tail. The slot array is logically partitioned by
//! this protocol: the unread window `[tail, head)` belongs to the consumer,
//! everything else to the producer, and the laws below show that the write
//! slot never aliases an unread slot and that only published slots are read.

use crate::transport::{MappingFailure, SharedRegion};
use vstd::prelude::*;

verus! {

/// Transient condition: no free slot; resolved by waiting, never surfaced as
/// a hard error unless a stop was observed.
#[derive(Copy, Clone, Debug, PartialEq, Eq, Structural)]
pub struct Full;

/// Transient condition: no unread message; resolved by waiting.
#[derive(Copy, Clone, Debug, PartialEq, Eq, Structural)]
pub struct Empty;

/// How a side waits for the opposing cursor to move.
#[derive(Copy, Clone, Debug, PartialEq, Eq, Structural)]
pub enum SyncStrategy {
    /// Spin on atomic cursor loads; lowest latency, highest CPU cost.
    BusyWaitAtomic,
    /// Sleep under a mutex/condition-variable pair; cheaper on CPU.
    BlockingMutexCondvar,
    /// Plain loads and stores with no ordering guarantee. A reference mode
    /// kept only to demonstrate the failure that motivates the other two;
    /// never a deployment-safe choice.
    Unsynchronized,
}

impl SyncStrategy {
    /// True of the strategies whose memory ordering makes the published
    /// payload visible before the cursor that advertises it.
    pub open spec fn spec_deployment_safe(self) -> bool {
        self != SyncStrategy::Unsynchronized
    }

    /// True of the strategies whose memory ordering makes the published
    /// payload visible before the cursor that advertises it.
    pub fn deployment_safe(self) -> (r: bool)
        ensures
            r == self.spec_deployment_safe(),
    {
        match self {
            SyncStrategy::Unsynchronized => false,
            _ => true,
        }
    }
}

/// The slot after `i` in a ring of `n` slots.
pub open spec fn next_slot(i: int, n: int) -> int
    recommends
        0 <= i < n,
{
    if i + 1 == n {
        0
    } else {
        i + 1
    }
}

/// `x` reduced into `[0, n)`, for `x` in `[0, 2n)`.
pub open spec fn wrap_slot(x: int, n: int) -> int
    recommends
        0 <= x < 2 * n,
{
    if x < n {
        x
    } else {
        x - n
    }
}

/// Number of unread messages in a ring of `n` slots with the given cursors.
pub open spec fn ring_used(head: int, tail: int, n: int) -> int {
    if head >= tail {
        head - tail
    } else {
        head + n - tail
    }
}

/// One end of the ring protocol's outcome space for a producer step.
#[derive(Copy, Clone, Debug, PartialEq, Eq, Structural)]
pub enum WriteOutcome {
    /// The payload was copied into the write slot and the head published.
    Written,
    /// The ring was full and a stop had been observed: the wait loop exits
    /// without writing and without touching any slot.
    Stopped,
    /// The ring was full and no stop was observed: the caller retries after
    /// waiting per its strategy.
    WouldBlock,
}

/// Fixed-capacity circular slot array with head/tail cursors in the header
/// of a shared region.
pub struct RingBuffer {
    region: SharedRegion,
    stopped: bool,
    strategy: SyncStrategy,
}

impl RingBuffer {
    /// Fixed byte length of every message.
    pub closed spec fn spec_slot_size(&self) -> int {
        self.region.spec_slot_size()
    }

    /// Number of slots; capacity for unread messages is one less.
    pub closed spec fn spec_slot_count(&self) -> int {
        self.region.spec_slot_count()
    }

    /// Next slot the producer will write.
    pub closed spec fn spec_head(&self) -> int {
        self.region.spec_head() as int
    }

    /// Next slot the consumer will read.
    pub closed spec fn spec_tail(&self) -> int {
        self.region.spec_tail() as int
    }

    /// Whether a stop signal has been raised.
    pub closed spec fn spec_stopped(&self) -> bool {
        self.stopped
    }

    /// The wait policy this ring was configured with.
    pub closed spec fn spec_strategy(&self) -> SyncStrategy {
        self.strategy
    }

    /// Well-formed ring: a well-formed region and both cursors in range.
    pub closed spec fn wf(&self) -> bool {
        &&& self.region.wf()
        &&& 0 <= self.spec_head() < self.spec_slot_count()
        &&& 0 <= self.spec_tail() < self.spec_slot_count()
    }

    /// Empty iff the cursors meet.
    pub open spec fn spec_is_empty(&self) -> bool {
        self.spec_head() == self.spec_tail()
    }

    /// Full iff the head is one step behind the tail.
    pub open spec fn spec_is_full(&self) -> bool {
        next_slot(self.spec_head(), self.spec_slot_count()) == self.spec_tail()
    }

    /// The unread messages, oldest first: slot `tail`, then the slots up to
    /// but excluding slot `head`, in ring order.
    pub closed spec fn contents(&self) -> Seq<Seq<u8>> {
        Seq::new(
            ring_used(self.spec_head(), self.spec_tail(), self.spec_slot_count()) as nat,
            |k: int|
                self.region.spec_slot(
                    wrap_slot(self.spec_tail() + k, self.spec_slot_count()),
                ),
        )
    }

    /// How the contents relate to the cursors: the unread count decides
    /// emptiness and fullness, and never reaches the slot count — one slot
    /// is always kept empty.
    pub proof fn lemma_contents_cursors(&self)
        requires
            self.wf(),
        ensures
            self.contents().len() == ring_used(
                self.spec_head(),
                self.spec_tail(),
                self.spec_slot_count(),
            ),
            self.spec_is_empty() <==> self.contents().len() == 0,
            self.spec_is_full() <==> self.contents().len() == self.spec_slot_count() - 1,
            self.contents().len() <= self.spec_slot_count() - 1,
    {
    }

    /// Same geometry, policy and stop flag as `other`.
    pub open spec fn config_unchanged(&self, other: &RingBuffer) -> bool {
        &&& self.spec_slot_size() == other.spec_slot_size()
        &&& self.spec_slot_count() == other.spec_slot_count()
        &&& self.spec_strategy() == other.spec_strategy()
        &&& self.spec_stopped() == other.spec_stopped()
    }

    /// A ring over a freshly created contiguous region. Fails with
    /// `MappingFailure` exactly when the region would not fit the machine.
    pub fn new(
        slot_size: usize,
        slot_count: usize,
        header_bytes: usize,
        strategy: SyncStrategy,
    ) -> (r: Result<RingBuffer, MappingFailure>)
        requires
            slot_size >= 1,
            slot_count >= 2,
            header_bytes >= 16,
        ensures
            r is Ok <==> header_bytes + slot_size * slot_count <= usize::MAX,
            r matches Ok(ring) ==> {
                &&& ring.wf()
                &&& ring.spec_slot_size() == slot_size
                &&& ring.spec_slot_count() == slot_count
                &&& ring.spec_head() == 0
                &&& ring.spec_tail() == 0
                &&& ring.contents() == Seq::<Seq<u8>>::empty()
                &&& !ring.spec_stopped()
                &&& ring.spec_strategy() == strategy
            },
    {
        let region = match SharedRegion::create(slot_size, slot_count, header_bytes) {
            Ok(region) => region,
            Err(e) => {
                return Err(e);
            },
        };
        let ring = RingBuffer { region, stopped: false, strategy };
        proof {
            assert(ring.contents() =~= Seq::<Seq<u8>>::empty());
        }
        Ok(ring)
    }

    /// A ring over a region built elsewhere (either backend), taking the
    /// region's cursors as they stand.
    pub fn from_region(region: SharedRegion, strategy: SyncStrategy) -> (ring: RingBuffer)
        requires
            region.wf(),
            region.spec_head() < region.spec_slot_count(),
            region.spec_tail() < region.spec_slot_count(),
        ensures
            ring.wf(),
            ring.spec_slot_size() == region.spec_slot_size(),
            ring.spec_slot_count() == region.spec_slot_count(),
            ring.spec_head() == region.spec_head(),
            ring.spec_tail() == region.spec_tail(),
            !ring.spec_stopped(),
            ring.spec_strategy() == strategy,
    {
        RingBuffer { region, stopped: false, strategy }
    }

    /// Fixed byte length of every message.
    pub fn slot_size(&self) -> (n: usize)
        ensures
            n == self.spec_slot_size(),
    {
        self.region.slot_size()
    }

    /// Number of slots; capacity for unread messages is one less.
    pub fn slot_count(&self) -> (n: usize)
        ensures
            n == self.spec_slot_count(),
    {
        self.region.slot_count()
    }

    /// The wait policy this ring was configured with.
    pub fn strategy(&self) -> (s: SyncStrategy)
        ensures
            s == self.spec_strategy(),
    {
        self.strategy
    }

    /// Whether a stop signal has been raised.
    pub fn is_stopped(&self) -> (r: bool)
        ensures
            r == self.spec_stopped(),
    {
        self.stopped
    }

    /// The head cursor, as the consumer would observe it.
    pub fn head(&self) -> (h: usize)
        requires
            self.wf(),
        ensures
            h == self.spec_head(),
    {
        let n = self.region.slot_count();
        let h = self.region.load_head();
        h as usize
    }

    /// The tail cursor, as the producer would observe it.
    pub fn tail(&self) -> (t: usize)
        requires
            self.wf(),
        ensures
            t == self.spec_tail(),
    {
        let n = self.region.slot_count();
        let t = self.region.load_tail();
        t as usize
    }

    /// Empty iff the cursors meet.
    pub fn is_empty(&self) -> (r: bool)
        requires
            self.wf(),
        ensures
            r == self.spec_is_empty(),
    {
        self.head() == self.tail()
    }

    /// Full iff the head is one step behind the tail.
    pub fn is_full(&self) -> (r: bool)
        requires
            self.wf(),
        ensures
            r == self.spec_is_full(),
    {
        let head = self.head();
        let n = self.slot_count();
        let next_head = if head + 1 == n {
            0
        } else {
            head + 1
        };
        next_head == self.tail()
    }

    /// Number of unread messages.
    pub fn readable(&self) -> (r: usize)
        requires
            self.wf(),
        ensures
            r == self.contents().len(),
    {
        let head = self.head();
        let tail = self.tail();
        let n = self.slot_count();
        if head >= tail {
            head - tail
        } else {
            (n - tail) + head
        }
    }

    /// Raises the stop signal the producer's wait loop observes; idempotent.
    /// Nothing else changes: no cursor moves and no slot is touched.
    pub fn stop(&mut self)
        requires
            old(self).wf(),
        ensures
            final(self).wf(),
            final(self).spec_stopped(),
            final(self).spec_head() == old(self).spec_head(),
            final(self).spec_tail() == old(self).spec_tail(),
            final(self).contents() == old(self).contents(),
            final(self).spec_slot_size() == old(self).spec_slot_size(),
            final(self).spec_slot_count() == old(self).spec_slot_count(),
            final(self).spec_strategy() == old(self).spec_strategy(),
    {
        self.stopped = true;
        proof {
            assert(self.contents() =~= old(self).contents());
        }
    }

    /// Rewinds both cursors and clears the stop signal, making the ring
    /// empty for a new session.
    pub fn reset(&mut self)
        requires
            old(self).wf(),
        ensures
            final(self).wf(),
            final(self).spec_head() == 0,
            final(self).spec_tail() == 0,
            !final(self).spec_stopped(),
            final(self).contents() == Seq::<Seq<u8>>::empty(),
            final(self).spec_slot_size() == old(self).spec_slot_size(),
            final(self).spec_slot_count() == old(self).spec_slot_count(),
            final(self).spec_strategy() == old(self).spec_strategy(),
    {
        self.region.store_head(0);
        self.region.store_tail(0);
        self.stopped = false;
        proof {
            assert(self.contents() =~= Seq::<Seq<u8>>::empty());
        }
    }

    /// One non-blocking write attempt by the producer.
    ///
    /// If the ring is full nothing changes and `Full` is returned — the
    /// producer never advances its head to meet the tail, so no unread slot
    /// is ever overwritten. Otherwise the payload is copied into the write
    /// slot and then published by advancing the head, appending it to the
    /// unread messages.
    pub fn try_write(&mut self, payload: &[u8]) -> (r: Result<(), Full>)
        requires
            old(self).wf(),
            payload@.len() == old(self).spec_slot_size(),
        ensures
            final(self).wf(),
            final(self).config_unchanged(old(self)),
            r is Err <==> old(self).spec_is_full(),
            r is Err ==> {
                &&& final(self).spec_head() == old(self).spec_head()
                &&& final(self).spec_tail() == old(self).spec_tail()
                &&& final(self).contents() == old(self).contents()
            },
            r is Ok ==> {
                &&& final(self).spec_head() == next_slot(
                    old(self).spec_head(),
                    old(self).spec_slot_count(),
                )
                &&& final(self).spec_tail() == old(self).spec_tail()
                &&& final(self).contents() == old(self).contents().push(payload@)
            },
    {
        let head = self.head();
        let tail = self.tail();
        let n = self.slot_count();
        let next_head = if head + 1 == n {
            0
        } else {
            head + 1
        };
        if next_head == tail {
            return Err(Full);
        }
        self.region.write_slot(head, payload);
        self.region.store_head(next_head as u64);
        proof {
            let pre = old(self);
            let n_ = pre.spec_slot_count();
            let h = pre.spec_head();
            let t = pre.spec_tail();
            let used = ring_used(h, t, n_);
            assert(ring_used(next_slot(h, n_), t, n_) == used + 1);
            assert forall|k: int| 0 <= k < used + 1 implies self.contents()[k] == pre.contents().push(
                payload@,
            )[k] by {
                if k < used {
                    lemma_write_slot_free(h, t, n_, k);
                } else {
                    assert(wrap_slot(t + used, n_) == h);
                }
            }
            assert(self.contents() =~= pre.contents().push(payload@));
        }
        Ok(())
    }

    /// One non-blocking read attempt by the consumer.
    ///
    /// If the cursors meet, no head has been published for the read slot and
    /// nothing is read: `Empty` comes back and `out` is untouched. Otherwise
    /// the oldest unread message is copied into `out`, the tail advances
    /// past it, and its byte length is returned.
    pub fn try_read(&mut self, out: &mut Vec<u8>) -> (r: Result<usize, Empty>)
        requires
            old(self).wf(),
        ensures
            final(self).wf(),
            final(self).config_unchanged(old(self)),
            r is Err <==> old(self).spec_is_empty(),
            r is Err ==> *final(self) == *old(self) && *final(out) == *old(out),
            r is Ok ==> {
                &&& r->Ok_0 == old(self).spec_slot_size()
                &&& final(out)@ == old(self).contents()[0]
                &&& final(self).spec_head() == old(self).spec_head()
                &&& final(self).spec_tail() == next_slot(
                    old(self).spec_tail(),
                    old(self).spec_slot_count(),
                )
                &&& final(self).contents() == old(self).contents().drop_first()
            },
    {
        let head = self.head();
        let tail = self.tail();
        let n = self.slot_count();
        if head == tail {
            return Err(Empty);
        }
        let next_tail = if tail + 1 == n {
            0
        } else {
            tail + 1
        };
        let msg = self.region.read_slot(tail);
        out.clear();
        let mut i: usize = 0;
        let msg_len = msg.len();
        while i < msg_len
            invariant
                i <= msg@.len(),
                msg_len == msg@.len(),
                out@ =~= msg@.take(i as int),
            decreases msg_len - i,
        {
            out.push(msg[i]);
            proof {
                assert(out@ =~= msg@.take(i + 1));
            }
            i += 1;
        }
        proof {
            assert(out@ =~= msg@);
        }
        self.region.store_tail(next_tail as u64);
        proof {
            let pre = old(self);
            let n_ = pre.spec_slot_count();
            let h = pre.spec_head();
            let t = pre.spec_tail();
            let used = ring_used(h, t, n_);
            assert(ring_used(h, next_slot(t, n_), n_) == used - 1);
            assert(wrap_slot(t + 0, n_) == t);
            assert(out@ == pre.contents()[0]);
            assert forall|k: int| 0 <= k < used - 1 implies self.contents()[k] == pre.contents()[k
                + 1] by {
                assert(wrap_slot(next_slot(t, n_) + k, n_) == wrap_slot(t + (k + 1), n_));
            }
            assert(self.contents() =~= pre.contents().drop_first());
        }
        let slot_size = self.region.slot_size();
        Ok(slot_size)
    }

    /// One iteration of the producer's wait loop, stop signal included: the
    /// state machine that `try_write`'s blocking variants run until it stops
    /// retrying.
    ///
    /// With a free slot the payload is written and published, whether or not
    /// a stop is pending — the stop signal is only consulted while waiting.
    /// On a full ring with a stop observed, the loop exits without writing
    /// and without corrupting the slot it was about to write; on a full ring
    /// otherwise, the caller waits (spins or sleeps, per strategy) and
    /// retries.
    pub fn write_step(&mut self, payload: &[u8]) -> (outcome: WriteOutcome)
        requires
            old(self).wf(),
            payload@.len() == old(self).spec_slot_size(),
        ensures
            final(self).wf(),
            final(self).config_unchanged(old(self)),
            !old(self).spec_is_full() ==> {
                &&& outcome == WriteOutcome::Written
                &&& final(self).spec_head() == next_slot(
                    old(self).spec_head(),
                    old(self).spec_slot_count(),
                )
                &&& final(self).spec_tail() == old(self).spec_tail()
                &&& final(self).contents() == old(self).contents().push(payload@)
            },
            old(self).spec_is_full() && old(self).spec_stopped() ==> outcome
                == WriteOutcome::Stopped,
            old(self).spec_is_full() && !old(self).spec_stopped() ==> outcome
                == WriteOutcome::WouldBlock,
            old(self).spec_is_full() ==> *final(self) == *old(self),
    {
        if self.is_full() {
            if self.stopped {
                WriteOutcome::Stopped
            } else {
                WriteOutcome::WouldBlock
            }
        } else {
            let _published = self.try_write(payload);
            WriteOutcome::Written
        }
    }
}

/// The write slot is free: in a well-formed ring the producer's write slot
/// (`head`) is never one of the slots holding an unread message, so for all
/// interleavings of the two domains' steps a slot is never overwritten
/// before the consumer has advanced its cursor past it.
pub proof fn lemma_write_slot_free(head: int, tail: int, n: int, k: int)
    requires
        n >= 2,
        0 <= head < n,
        0 <= tail < n,
        0 <= k < ring_used(head, tail, n),
    ensures
        wrap_slot(tail + k, n) != head,
{
}

/// The producer never advances its head to meet the tail: a write happens
/// only when the ring is not full, and then still leaves the new head short
/// of the tail, keeping every previously unread slot (`k` ranging over the
/// unread window) intact.
pub proof fn lemma_no_overwrite_before_read(head: int, tail: int, n: int, k: int)
    requires
        n >= 2,
        0 <= head < n,
        0 <= tail < n,
        next_slot(head, n) != tail,
        0 <= k < ring_used(head, tail, n),
    ensures
        ring_used(next_slot(head, n), tail, n) == ring_used(head, tail, n) + 1,
        ring_used(next_slot(head, n), tail, n) <= n - 1,
        wrap_slot(tail + k, n) != head,
{
    lemma_write_slot_free(head, tail, n, k);
}

/// The running balance the blocking variant reports at release: how often
/// the producer found the ring full minus how often the consumer found it
/// empty — a rough sign of which side outpaces the other.
pub struct BalanceMeter {
    balance: i64,
}

impl BalanceMeter {
    /// The balance so far.
    pub closed spec fn spec_balance(&self) -> int {
        self.balance as int
    }

    /// A meter at zero.
    pub fn new() -> (meter: BalanceMeter)
        ensures
            meter.spec_balance() == 0,
    {
        BalanceMeter { balance: 0 }
    }

    /// The producer checked for room: a full ring counts one against the
    /// consumer.
    pub fn note_full(&mut self, full: bool)
        requires
            old(self).spec_balance() < i64::MAX,
        ensures
            final(self).spec_balance() == old(self).spec_balance() + (if full {
                1int
            } else {
                0int
            }),
    {
        if full {
            self.balance = self.balance + 1;
        }
    }

    /// The consumer checked for data: an empty ring counts one against the
    /// producer.
    pub fn note_empty(&mut self, empty: bool)
        requires
            old(self).spec_balance() > i64::MIN,
        ensures
            final(self).spec_balance() == old(self).spec_balance() - (if empty {
                1int
            } else {
                0int
            }),
    {
        if empty {
            self.balance = self.balance - 1;
        }
    }

    /// The balance so far.
    pub fn value(&self) -> (v: i64)
        ensures
            v == self.spec_balance(),
    {
        self.balance
    }
}

/// The queue model of the ring: writing a batch of payloads is a fold of
/// single-payload pushes, as in `try_write`'s postcondition.
pub open spec fn enqueue_all(q: Seq<Seq<u8>>, msgs: Seq<Seq<u8>>) -> Seq<Seq<u8>>
    decreases msgs.len(),
{
    if msgs.len() == 0 {
        q
    } else {
        enqueue_all(q.push(msgs[0]), msgs.drop_first())
    }
}

/// Enqueueing a batch appends it.
pub proof fn lemma_enqueue_all_appends(q: Seq<Seq<u8>>, msgs: Seq<Seq<u8>>)
    ensures
        enqueue_all(q, msgs) == q + msgs,
    decreases msgs.len(),
{
    if msgs.len() == 0 {
        assert(q + msgs =~= q);
    } else {
        lemma_enqueue_all_appends(q.push(msgs[0]), msgs.drop_first());
        assert(q.push(msgs[0]) + msgs.drop_first() =~= q + msgs);
    }
}

/// FIFO order. `try_write` appends to the unread queue and `try_read`
/// removes its front, so after any sequence of `N` writes into an empty
/// ring the queue holds exactly the written payloads in write order, and
/// the `k`-th of `N` subsequent reads observes the `k`-th written payload:
/// sequence numbers strictly increasing by one, no duplicates, no gaps.
pub proof fn lemma_fifo_order(msgs: Seq<Seq<u8>>, k: int)
    requires
        0 <= k < msgs.len(),
    ensures
        enqueue_all(Seq::<Seq<u8>>::empty(), msgs) == msgs,
        msgs.skip(k)[0] == msgs[k],
        msgs.skip(k).drop_first() == msgs.skip(k + 1),
{
    lemma_enqueue_all_appends(Seq::<Seq<u8>>::empty(), msgs);
    assert(Seq::<Seq<u8>>::empty() + msgs =~= msgs);
    assert(msgs.skip(k).drop_first() =~= msgs.skip(k + 1));
}

/// The consumer reads only published slots: when the cursors meet nothing is
/// read at all, and otherwise the read slot (`tail`) lies inside the window
/// `[tail, head)` that the producer has already published by storing `head`
/// past it — the consumer never reads a slot before the corresponding head
/// advance is observed.
pub proof fn lemma_no_read_before_write(head: int, tail: int, n: int)
    requires
        n >= 2,
        0 <= head < n,
        0 <= tail < n,
    ensures
        head == tail ==> ring_used(head, tail, n) == 0,
        head != tail ==> ring_used(head, tail, n) >= 1 && wrap_slot(tail + 0, n) == tail,
{
}

} // verus!
