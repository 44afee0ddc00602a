//! The status event bus: a single bounded ring buffer shared by all
//! subscribers, with a read cursor per subscription.
//!
//! Producers are never blocked: emitting overwrites the oldest entry once
//! the buffer is full. A subscriber that falls behind the buffer's window
//! is not disconnected and sees no stale or duplicated event; instead it
//! receives an explicit lag indicator naming how many events it missed,
//! and resumes at the oldest event still buffered. Late subscribers see
//! only events emitted after they attached — there is no replay of
//! history. Dropping a subscription releases only its own cursor.

use vstd::prelude::*;

verus! {

use vstd::arithmetic::div_mod::lemma_small_mod;
use vstd::arithmetic::div_mod::lemma_mod_bound;
use vstd::arithmetic::div_mod::lemma_mod_equivalence;
use crate::status::StatusEvent;

/// What one receive attempt yields: the next event, a lag indicator
/// counting skipped events, or nothing new yet.
pub enum RecvOutcome {
    Event(StatusEvent),
    Lagged(usize),
    Empty,
}

/// A subscriber's read cursor: the index into the emission history of the
/// next event it is owed.
pub struct Subscription {
    next: usize,
}

impl Subscription {
    /// The history index of the next event this subscription will receive.
    pub closed spec fn pos(&self) -> int {
        self.next as int
    }
}

/// The bus: a fixed-capacity ring buffer over the full emission history.
pub struct EventBus {
    buf: Vec<StatusEvent>,
    cap: usize,
    total: usize,
    hist: Ghost<Seq<StatusEvent>>,
}

impl EventBus {
    /// Every event ever emitted, in emission order.
    pub closed spec fn history(&self) -> Seq<StatusEvent> {
        self.hist@
    }

    /// The buffer's fixed capacity.
    pub closed spec fn capacity(&self) -> int {
        self.cap as int
    }

    /// The index of the oldest event still buffered: everything earlier
    /// has been overwritten.
    pub open spec fn window_start(&self) -> int {
        if self.history().len() >= self.capacity() {
            self.history().len() - self.capacity()
        } else {
            0
        }
    }

    /// The ring buffer's internal consistency: slot `k % capacity` holds
    /// history entry `k` for every `k` still inside the window.
    pub closed spec fn wf(&self) -> bool {
        &&& self.cap > 0
        &&& self.total == self.hist@.len()
        &&& self.buf.len() == if self.total >= self.cap {
            self.cap as int
        } else {
            self.total as int
        }
        &&& forall|k: int|
            self.total - self.buf.len() <= k < self.total ==> self.buf[k % self.cap as int]
                == self.hist@[k]
    }

    /// What a receive attempt at cursor `pos` yields.
    pub open spec fn recv_result(&self, pos: int) -> RecvOutcome {
        if pos >= self.history().len() {
            RecvOutcome::Empty
        } else if pos < self.window_start() {
            RecvOutcome::Lagged((self.window_start() - pos) as usize)
        } else {
            RecvOutcome::Event(self.history()[pos])
        }
    }

    /// Where a receive attempt at cursor `pos` leaves the cursor.
    pub open spec fn recv_cursor(&self, pos: int) -> int {
        if pos >= self.history().len() {
            pos
        } else if pos < self.window_start() {
            self.window_start()
        } else {
            pos + 1
        }
    }

    /// An empty bus with the given buffer capacity.
    pub fn new(capacity: usize) -> (b: Self)
        requires
            capacity > 0,
        ensures
            b.wf(),
            b.history() == Seq::<StatusEvent>::empty(),
            b.capacity() == capacity,
    {
        EventBus { buf: Vec::new(), cap: capacity, total: 0, hist: Ghost(Seq::empty()) }
    }

    /// Emits an event: appends it to the history, overwriting the oldest
    /// buffered entry once the buffer is full. Never blocks and never
    /// waits for any subscriber.
    pub fn emit(&mut self, e: StatusEvent)
        requires
            old(self).wf(),
            old(self).history().len() < usize::MAX,
        ensures
            final(self).wf(),
            final(self).history() == old(self).history().push(e),
            final(self).capacity() == old(self).capacity(),
    {
        proof {
            self.hist@ = self.hist@.push(e);
        }
        if self.buf.len() < self.cap {
            self.buf.push(e);
            self.total = self.total + 1;
            proof {
                let cap = self.cap as int;
                let total = self.total as int;
                assert forall|k: int|
                    total - self.buf.len() <= k < total implies self.buf[k % cap]
                    == self.hist@[k] by {
                    lemma_small_mod(k as nat, cap as nat);
                }
            }
        } else {
            let slot = self.total % self.cap;
            self.buf.set(slot, e);
            self.total = self.total + 1;
            proof {
                let cap = self.cap as int;
                let total = self.total as int;
                lemma_mod_bound(total - 1, cap);
                assert forall|k: int|
                    total - self.buf.len() <= k < total implies self.buf[k % cap]
                    == self.hist@[k] by {
                    lemma_mod_bound(k, cap);
                    if k == total - 1 {
                    } else {
                        assert(k % cap != (total - 1) % cap) by {
                            if k % cap == (total - 1) % cap {
                                lemma_mod_equivalence(total - 1, k, cap);
                                lemma_small_mod((total - 1 - k) as nat, cap as nat);
                            }
                        }
                    }
                }
            }
        }
    }

    /// A new subscription: it will receive every event emitted after this
    /// point, in emission order, and nothing earlier.
    pub fn subscribe(&self) -> (s: Subscription)
        requires
            self.wf(),
        ensures
            s.pos() == self.history().len(),
    {
        Subscription { next: self.total }
    }

    /// One receive attempt: the next event if it is still buffered, a lag
    /// indicator counting the events that were overwritten past this
    /// cursor, or nothing when the subscriber has seen everything.
    pub fn recv(&self, s: &mut Subscription) -> (r: RecvOutcome)
        requires
            self.wf(),
        ensures
            r == self.recv_result(old(s).pos()),
            final(s).pos() == self.recv_cursor(old(s).pos()),
    {
        let ws = self.total - self.buf.len();
        if s.next >= self.total {
            RecvOutcome::Empty
        } else if s.next < ws {
            let missed = ws - s.next;
            s.next = ws;
            RecvOutcome::Lagged(missed)
        } else {
            let slot = s.next % self.cap;
            proof {
                let cap = self.cap as int;
                lemma_mod_bound(s.next as int, cap);
                if self.total < self.cap {
                    lemma_small_mod(s.next as nat, cap as nat);
                }
            }
            let e = self.buf[slot].duplicate();
            s.next = s.next + 1;
            RecvOutcome::Event(e)
        }
    }
}

/// What a subscriber can rely on, for any cursor at or after the point
/// `n` where it attached: the cursor never moves backward (no event is
/// replayed), a delivered event is exactly the history entry at the
/// cursor — hence emitted after attachment — and a cursor that has fallen
/// out of the buffer's window receives a lag indicator naming precisely
/// how many events were skipped, rather than stale data.
pub proof fn law_subscriber_no_replay(bus: EventBus, n: int, pos: int)
    requires
        bus.wf(),
        0 <= n <= pos,
    ensures
        bus.recv_cursor(pos) >= pos,
        bus.recv_result(pos) matches RecvOutcome::Event(e) ==> e == bus.history()[pos] && pos
            >= n,
        pos < bus.window_start() ==> (bus.recv_result(pos) matches RecvOutcome::Lagged(k) && k
            == bus.window_start() - pos),
{
    if pos < bus.window_start() {
        assert(pos < bus.history().len());
    }
}

} // verus!
