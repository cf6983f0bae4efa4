//! The kernel log ring: every byte printed is also kept here, and the most
//! recent DMESG_BUF_SIZE bytes can be dumped later.
use vstd::prelude::*;

verus! {

/// Ring capacity in bytes.
pub const DMESG_BUF_SIZE: usize = 16384;

/// The bytes of `s` other than 0, in order.
pub open spec fn drop_zeros(s: Seq<u8>) -> Seq<u8>
    decreases s.len(),
{
    if s.len() == 0 {
        s
    } else {
        let r = drop_zeros(s.drop_last());
        if s.last() != 0 { r.push(s.last()) } else { r }
    }
}

/// The last DMESG_BUF_SIZE bytes of `log` (all of it when shorter).
pub open spec fn recent(log: Seq<u8>) -> Seq<u8> {
    if log.len() <= DMESG_BUF_SIZE {
        log
    } else {
        log.subrange(log.len() - DMESG_BUF_SIZE, log.len() as int)
    }
}

/// The ring, with the whole history of bytes written to it as a ghost.
pub struct DmesgBuffer {
    buf: Vec<u8>,
    write_pos: usize,
    wrapped: bool,
    history: Ghost<Seq<u8>>,
}

impl DmesgBuffer {
    /// Every byte ever written, oldest first.
    pub closed spec fn log(&self) -> Seq<u8> {
        self.history@
    }

    pub closed spec fn wf(&self) -> bool {
        let n = DMESG_BUF_SIZE as int;
        let l = self.history@.len() as int;
        &&& self.buf@.len() == n
        &&& self.write_pos < n
        &&& self.write_pos == l % n
        &&& self.wrapped <==> l >= n
        &&& forall|p: int| l - n <= p < l && 0 <= p ==> #[trigger] self.buf@[p % n] == self.history@[p]
    }

    /// An empty log.
    pub fn new() -> (d: Self)
        ensures
            d.wf(),
            d.log() == Seq::<u8>::empty(),
    {
        let mut buf: Vec<u8> = Vec::new();
        let mut i: usize = 0;
        while i < DMESG_BUF_SIZE
            invariant
                0 <= i <= DMESG_BUF_SIZE,
                buf@.len() == i,
            decreases DMESG_BUF_SIZE - i,
        {
            buf.push(0);
            i = i + 1;
        }
        DmesgBuffer { buf, write_pos: 0, wrapped: false, history: Ghost(Seq::empty()) }
    }

    /// Number of bytes a dump covers: the whole ring once it has wrapped,
    /// else what was written.
    pub fn len(&self) -> (r: usize)
        requires
            self.wf(),
        ensures
            r == recent(self.log()).len(),
    {
        if self.wrapped { DMESG_BUF_SIZE } else { self.write_pos }
    }

    /// The bytes a dump prints: the most recent DMESG_BUF_SIZE bytes
    /// written, oldest first, without the zero bytes.
    pub fn contents(&self) -> (r: Vec<u8>)
        requires
            self.wf(),
        ensures
            r@ == drop_zeros(recent(self.log())),
    {
        let n = DMESG_BUF_SIZE;
        let total = if self.wrapped { n } else { self.write_pos };
        let start = if self.wrapped { self.write_pos } else { 0 };
        let ghost l = self.log().len() as int;
        let ghost w = recent(self.log());
        assert(w.len() == total);
        let mut out: Vec<u8> = Vec::new();
        let mut i: usize = 0;
        while i < total
            invariant
                self.wf(),
                l == self.log().len(),
                w == recent(self.log()),
                w.len() == total,
                total <= n,
                n == DMESG_BUF_SIZE,
                start < n,
                start == (if self.wrapped { self.write_pos } else { 0 }),
                total == (if self.wrapped { n } else { self.write_pos }),
                0 <= i <= total,
                out@ == drop_zeros(w.subrange(0, i as int)),
            decreases total - i,
        {
            let idx = (start + i) % n;
            proof {
                let p = l - total + i;
                assert(w[i as int] == self.log()[p]);
                if self.wrapped {
                    lemma_ring_index(l, i as int, n as int);
                }
                assert(self.buf@[idx as int] == w[i as int]);
                assert(w.subrange(0, i + 1).drop_last() =~= w.subrange(0, i as int));
            }
            let b = self.buf[idx];
            if b != 0 {
                out.push(b);
            }
            i = i + 1;
        }
        assert(w.subrange(0, total as int) =~= w);
        out
    }
}

/// In a full ring, the i-th oldest byte sits at `(l % n + i) % n`.
proof fn lemma_ring_index(l: int, i: int, n: int)
    requires
        n > 0,
        l >= n,
        0 <= i < n,
    ensures
        (l % n + i) % n == (l - n + i) % n,
{
    vstd::arithmetic::div_mod::lemma_add_mod_noop(l, i, n);
    vstd::arithmetic::div_mod::lemma_mod_bound(i, n);
    vstd::arithmetic::div_mod::lemma_small_mod(i as nat, n as nat);
    vstd::arithmetic::div_mod::lemma_mod_sub_multiples_vanish(l + i, n);
}

/// Append one byte to the log.
pub fn push_byte(d: &mut DmesgBuffer, b: u8)
    requires
        old(d).wf(),
    ensures
        final(d).wf(),
        final(d).log() == old(d).log().push(b),
{
    let ghost l = d.history@.len() as int;
    let ghost old_buf = d.buf@;
    let n = DMESG_BUF_SIZE;
    let pos = d.write_pos;
    d.buf.set(pos, b);
    if pos + 1 >= n {
        d.write_pos = 0;
        d.wrapped = true;
    } else {
        d.write_pos = pos + 1;
    }
    d.history = Ghost(d.history@.push(b));
    proof {
        let n = n as int;
        vstd::arithmetic::div_mod::lemma_fundamental_div_mod(l, n);
        vstd::arithmetic::div_mod::lemma_mod_bound(l, n);
        lemma_next_pos(l, n);
        assert forall|p: int| l + 1 - n <= p < l + 1 && 0 <= p implies #[trigger] d.buf@[p % n] == d.history@[p] by {
            if p < l {
                lemma_ring_distinct(p, l, n);
                assert(d.buf@[p % n] == old_buf[p % n]);
            }
        }
    }
}

/// The write position after one more byte.
proof fn lemma_next_pos(l: int, n: int)
    requires
        l >= 0,
        n > 1,
    ensures
        l % n + 1 >= n ==> (l + 1) % n == 0 && l + 1 >= n,
        l % n + 1 < n ==> (l + 1) % n == l % n + 1 && (l + 1 >= n <==> l >= n),
{
    vstd::arithmetic::div_mod::lemma_fundamental_div_mod(l, n);
    vstd::arithmetic::div_mod::lemma_fundamental_div_mod(l + 1, n);
    vstd::arithmetic::div_mod::lemma_mod_bound(l, n);
    vstd::arithmetic::div_mod::lemma_add_mod_noop(l, 1, n);
    vstd::arithmetic::div_mod::lemma_small_mod(1, n as nat);
    vstd::arithmetic::div_mod::lemma_mod_self_0(n);
    if l % n + 1 >= n {
        assert(l % n + 1 == n);
        if l < n {
            vstd::arithmetic::div_mod::lemma_small_mod(l as nat, n as nat);
        }
    } else {
        vstd::arithmetic::div_mod::lemma_small_mod((l % n + 1) as nat, n as nat);
        if l + 1 >= n && l < n {
            assert(l + 1 == n);
            vstd::arithmetic::div_mod::lemma_small_mod(l as nat, n as nat);
        }
    }
}

/// Positions less than a full ring apart occupy different slots.
proof fn lemma_ring_distinct(p: int, l: int, n: int)
    requires
        0 <= p < l,
        l - p < n,
        n > 0,
    ensures
        p % n != l % n,
{
    vstd::arithmetic::div_mod::lemma_fundamental_div_mod(p, n);
    vstd::arithmetic::div_mod::lemma_fundamental_div_mod(l, n);
    vstd::arithmetic::div_mod::lemma_mod_bound(p, n);
    vstd::arithmetic::div_mod::lemma_mod_bound(l, n);
    if p % n == l % n {
        let q1 = p / n;
        let q2 = l / n;
        assert(n * q2 - n * q1 == l - p);
        assert(n * (q2 - q1) == l - p) by (nonlinear_arith)
            requires
                n * q2 - n * q1 == l - p,
        ;
        assert(false) by (nonlinear_arith)
            requires
                n * (q2 - q1) == l - p,
                0 < l - p < n,
        ;
    }
}

/// Append a byte slice to the log.
pub fn push_bytes(d: &mut DmesgBuffer, data: &[u8])
    requires
        old(d).wf(),
    ensures
        final(d).wf(),
        final(d).log() == old(d).log() + data@,
{
    let mut i: usize = 0;
    while i < data.len()
        invariant
            d.wf(),
            0 <= i <= data@.len(),
            d.log() == old(d).log() + data@.subrange(0, i as int),
        decreases data.len() - i,
    {
        push_byte(d, data[i]);
        assert(data@.subrange(0, i + 1) =~= data@.subrange(0, i as int).push(data@[i as int]));
        i = i + 1;
    }
    assert(data@.subrange(0, data@.len() as int) =~= data@);
}

} // verus!
