//! Deferred event processing: interrupt handlers queue events in a
//! fixed-size ring and kernel code drains them later, oldest first.
use vstd::prelude::*;

verus! {

/// Event types.
#[derive(Clone, Copy, PartialEq, Eq, Debug, Structural)]
pub enum EventType {
    Keyboard,
    Timer,
    Disk,
    Network,
    Power,
    Custom(u8),
}

/// A queued event.
#[derive(Clone, Copy, PartialEq, Eq, Debug, Structural)]
pub struct Event {
    pub event_type: EventType,
    pub data0: usize,
    pub data1: usize,
}

/// Capacity of the ring.
pub const EVENT_QUEUE_SIZE: usize = 128;

/// A ring of at most EVENT_QUEUE_SIZE pending events.
pub struct EventQueue {
    slots: [Option<Event>; 128],
    /// Next write position.
    head: usize,
    /// Next read position.
    tail: usize,
    count: usize,
}

impl EventQueue {
    /// The pending events, oldest first.
    pub closed spec fn pending(&self) -> Seq<Event> {
        Seq::new(
            self.count as nat,
            |k: int| self.slots@[(self.tail + k) % (EVENT_QUEUE_SIZE as int)]->Some_0,
        )
    }

    pub closed spec fn wf(&self) -> bool {
        &&& self.count <= EVENT_QUEUE_SIZE
        &&& self.tail < EVENT_QUEUE_SIZE
        &&& self.head == (self.tail + self.count) % (EVENT_QUEUE_SIZE as int)
        &&& forall|k: int| 0 <= k < self.count ==> #[trigger] self.slots@[(self.tail + k) % (EVENT_QUEUE_SIZE as int)] is Some
    }

    /// An empty queue.
    pub fn new() -> (q: Self)
        ensures
            q.wf(),
            q.pending() == Seq::<Event>::empty(),
    {
        let q = EventQueue { slots: [None; 128], head: 0, tail: 0, count: 0 };
        assert(q.pending() =~= Seq::<Event>::empty());
        q
    }

    /// Queue `event` after the pending ones; Err(()) when the ring is full.
    pub fn push_event(&mut self, event: Event) -> (r: Result<(), ()>)
        requires
            old(self).wf(),
        ensures
            final(self).wf(),
            old(self).pending().len() < EVENT_QUEUE_SIZE ==> r is Ok && final(self).pending() == old(self).pending().push(event),
            old(self).pending().len() >= EVENT_QUEUE_SIZE ==> r is Err && final(self).pending() == old(self).pending(),
    {
        if self.count >= EVENT_QUEUE_SIZE {
            return Err(());
        }
        let ghost before = self.pending();
        let ghost old_slots = self.slots@;
        self.slots[self.head] = Some(event);
        self.head = (self.head + 1) % EVENT_QUEUE_SIZE;
        self.count = self.count + 1;
        proof {
            let n = EVENT_QUEUE_SIZE as int;
            let t = self.tail as int;
            let h = (t + self.count - 1) % n;
            assert forall|k: int| 0 <= k < self.count implies #[trigger] self.slots@[(t + k) % n] is Some by {
                if k < self.count - 1 {
                    lemma_mod_distinct(t, k, self.count - 1, n);
                    assert(self.slots@[(t + k) % n] == old_slots[(t + k) % n]);
                }
            }
            assert(self.head == (t + self.count) % n) by {
                lemma_mod_succ(t + self.count - 1, n);
            }
            assert(self.pending() =~= before.push(event)) by {
                assert forall|k: int| 0 <= k < self.count implies #[trigger] self.pending()[k] == before.push(event)[k] by {
                    if k < self.count - 1 {
                        lemma_mod_distinct(t, k, self.count - 1, n);
                        assert(self.slots@[(t + k) % n] == old_slots[(t + k) % n]);
                    }
                }
            }
        }
        Ok(())
    }

    /// Take the oldest pending event; None when there is none.
    pub fn pop_event(&mut self) -> (r: Option<Event>)
        requires
            old(self).wf(),
        ensures
            final(self).wf(),
            old(self).pending().len() == 0 ==> r is None && final(self).pending() == old(self).pending(),
            old(self).pending().len() > 0 ==> r == Some(old(self).pending()[0]) && final(self).pending() == old(self).pending().drop_first(),
    {
        if self.count == 0 {
            return None;
        }
        let ghost before = self.pending();
        let ghost old_slots = self.slots@;
        let ghost t = self.tail as int;
        let n: usize = EVENT_QUEUE_SIZE;
        let event = self.slots[self.tail];
        assert(event == old_slots[(t + 0) % (n as int)]);
        self.slots[self.tail] = None;
        self.tail = (self.tail + 1) % EVENT_QUEUE_SIZE;
        self.count = self.count - 1;
        proof {
            let n = n as int;
            assert forall|k: int| 0 <= k < self.count implies #[trigger] self.slots@[(self.tail + k) % n] == old_slots[(t + 1 + k) % n] by {
                lemma_mod_shift(t, k, n);
                lemma_mod_distinct(t, 0, k + 1, n);
                assert(t % n == t);
            }
            assert forall|k: int| 0 <= k < self.count implies #[trigger] self.slots@[(self.tail + k) % n] is Some by {
                assert(self.slots@[(self.tail + k) % n] == old_slots[(t + 1 + k) % n]);
                assert(old_slots[(t + (k + 1)) % n] is Some);
            }
            assert(self.head == (self.tail + self.count) % n) by {
                lemma_mod_shift(t, self.count as int, n);
            }
            assert(self.pending() =~= before.drop_first()) by {
                assert forall|k: int| 0 <= k < self.count implies #[trigger] self.pending()[k] == before.drop_first()[k] by {
                    assert(self.slots@[(self.tail + k) % n] == old_slots[(t + 1 + k) % n]);
                    assert(before[k + 1] == old_slots[(t + (k + 1)) % n]->Some_0);
                }
            }
        }
        event
    }

    /// Number of pending events.
    pub fn pending_count(&self) -> (r: usize)
        requires
            self.wf(),
        ensures
            r == self.pending().len(),
    {
        self.count
    }
}

/// The slot after `a % n` is `(a + 1) % n`.
proof fn lemma_mod_succ(a: int, n: int)
    requires
        0 <= a,
        n > 1,
    ensures
        (a % n + 1) % n == (a + 1) % n,
{
    vstd::arithmetic::div_mod::lemma_add_mod_noop(a, 1, n);
    vstd::arithmetic::div_mod::lemma_small_mod(1, n as nat);
}

/// Positions `t + k` and `t + j` with `0 <= k < j < n` land in different
/// slots of a ring of `n`.
proof fn lemma_mod_distinct(t: int, k: int, j: int, n: int)
    requires
        0 <= t < n,
        0 <= k < j,
        j < n + k,
        n > 0,
    ensures
        (t + k) % n != (t + j) % n,
{
    vstd::arithmetic::div_mod::lemma_fundamental_div_mod(t + k, n);
    vstd::arithmetic::div_mod::lemma_fundamental_div_mod(t + j, n);
    vstd::arithmetic::div_mod::lemma_mod_bound(t + k, n);
    vstd::arithmetic::div_mod::lemma_mod_bound(t + j, n);
    if (t + k) % n == (t + j) % n {
        let q1 = (t + k) / n;
        let q2 = (t + j) / n;
        assert(n * q2 - n * q1 == j - k);
        assert(n * (q2 - q1) == j - k) by (nonlinear_arith)
            requires
                n * q2 - n * q1 == j - k,
        ;
        assert(false) by (nonlinear_arith)
            requires
                n * (q2 - q1) == j - k,
                0 < j - k < n,
        ;
    }
}

/// Starting one slot later: `((t + 1) % n + k) % n == (t + 1 + k) % n`.
proof fn lemma_mod_shift(t: int, k: int, n: int)
    requires
        0 <= t,
        0 <= k,
        n > 0,
    ensures
        ((t + 1) % n + k) % n == (t + 1 + k) % n,
{
    vstd::arithmetic::div_mod::lemma_add_mod_noop(t + 1, k, n);
    vstd::arithmetic::div_mod::lemma_mod_twice(t + 1, n);
    vstd::arithmetic::div_mod::lemma_small_mod((k % n) as nat, n as nat);
    vstd::arithmetic::div_mod::lemma_mod_bound(k, n);
    vstd::arithmetic::div_mod::lemma_add_mod_noop((t + 1) % n, k, n);
}

/// Drain the queue: every pending event, oldest first, leaving it empty.
/// Reporting them is left to the caller.
pub fn process_events(q: &mut EventQueue) -> (r: Vec<Event>)
    requires
        old(q).wf(),
    ensures
        final(q).wf(),
        r@ == old(q).pending(),
        final(q).pending().len() == 0,
{
    let mut out: Vec<Event> = Vec::new();
    loop
        invariant
            q.wf(),
            out@ + q.pending() == old(q).pending(),
        decreases q.pending().len(),
    {
        let ghost before = q.pending();
        match q.pop_event() {
            Some(e) => {
                out.push(e);
                assert(before =~= seq![e] + before.drop_first());
                assert(out@ + q.pending() =~= old(q).pending());
            },
            None => {
                assert(out@ + q.pending() =~= out@);
                return out;
            },
        }
    }
}

} // verus!
