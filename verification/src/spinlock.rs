//! Ticket spinlock bookkeeping: a caller takes the next ticket and may
//! enter when the "now serving" counter reaches it; leaving advances the
//! counter. Tickets are served strictly in the order they were taken.
//! Spinning until one's turn is left to the caller.
use vstd::prelude::*;

verus! {

/// `n + 1` wrapping at u32::MAX.
pub open spec fn next_ticket(n: u32) -> u32 {
    if n == u32::MAX { 0 } else { (n + 1) as u32 }
}

/// A ticket lock around `data`.
pub struct SpinLock<T> {
    ticket: u32,
    next: u32,
    data: T,
}

/// Proof of holding the lock: the ticket that was served.
pub struct SpinLockGuard {
    pub ticket: u32,
}

impl<T> SpinLock<T> {
    /// Next ticket to hand out.
    pub closed spec fn ticket_view(&self) -> u32 {
        self.ticket
    }

    /// The protected value.
    pub closed spec fn data_view(&self) -> T {
        self.data
    }

    /// Ticket now being served.
    pub closed spec fn next_view(&self) -> u32 {
        self.next
    }

    /// An unlocked lock.
    pub fn new(data: T) -> (l: Self)
        ensures
            l.ticket_view() == 0,
            l.next_view() == 0,
            l.data_view() == data,
    {
        SpinLock { ticket: 0, next: 0, data }
    }

    /// Take a ticket; the caller holds the lock once `may_enter` says so.
    pub fn lock(&mut self) -> (g: SpinLockGuard)
        ensures
            g.ticket == old(self).ticket_view(),
            final(self).ticket_view() == next_ticket(old(self).ticket_view()),
            final(self).next_view() == old(self).next_view(),
            final(self).data_view() == old(self).data_view(),
    {
        let t = self.ticket;
        self.ticket = self.ticket.wrapping_add(1);
        SpinLockGuard { ticket: t }
    }

    /// The protected value (for the holder of the lock).
    pub fn data(&self) -> (r: &T)
        ensures
            *r == self.data_view(),
    {
        &self.data
    }

    /// Replace the protected value (for the holder of the lock).
    pub fn set_data(&mut self, v: T)
        ensures
            final(self).data_view() == v,
            final(self).ticket_view() == old(self).ticket_view(),
            final(self).next_view() == old(self).next_view(),
    {
        self.data = v;
    }

    /// Whether ticket `t` is being served.
    pub fn may_enter(&self, t: u32) -> (r: bool)
        ensures
            r == (self.next_view() == t),
    {
        self.next == t
    }

    /// Take the lock only when nobody holds or waits for it.
    pub fn try_lock(&mut self) -> (r: Option<SpinLockGuard>)
        ensures
            final(self).data_view() == old(self).data_view(),
            final(self).next_view() == old(self).next_view(),
            old(self).ticket_view() == old(self).next_view() ==> r == Some(SpinLockGuard { ticket: old(self).ticket_view() })
                && final(self).ticket_view() == next_ticket(old(self).ticket_view()),
            old(self).ticket_view() != old(self).next_view() ==> r is None && final(self).ticket_view() == old(self).ticket_view(),
    {
        let current = self.ticket;
        let next = self.next;
        if current == next {
            self.ticket = current.wrapping_add(1);
            return Some(SpinLockGuard { ticket: current });
        }
        None
    }

    /// Release the lock held with `_g`: serve the next ticket.
    pub fn unlock(&mut self, _g: SpinLockGuard)
        ensures
            final(self).next_view() == next_ticket(old(self).next_view()),
            final(self).ticket_view() == old(self).ticket_view(),
            final(self).data_view() == old(self).data_view(),
    {
        self.next = self.next.wrapping_add(1);
    }
}

/// Tickets taken one after another are served one after another: the
/// second is served exactly when the first releases.
pub proof fn law_fifo(t1: u32, next_before: u32)
    requires
        next_before == t1,
    ensures
        next_ticket(next_before) == next_ticket(t1),
{
}

} // verus!
