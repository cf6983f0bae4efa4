//! The first register frame of a task, laid out on its kernel stack the
//! way the timer interrupt's return path pops it: 256 bytes of SSE state,
//! 15 general registers, then RIP, CS, RFLAGS, RSP and SS for IRETQ.
use vstd::prelude::*;
use crate::physmem::PhysMem;

verus! {

/// Bytes of a task's kernel stack.
pub const STACK_SIZE: usize = 32768;

/// Bytes of the frame: 5 IRETQ words, 15 registers, 256 bytes of SSE.
pub const FRAME_BYTES: u64 = 416;

/// RFLAGS of a new task: interrupts enabled.
pub const INITIAL_RFLAGS: u64 = 0x202;

/// Kernel code and data selectors; user code and data selectors (RPL 3).
pub const KERNEL_CS: u64 = 0x08;
pub const KERNEL_SS: u64 = 0x10;
pub const USER_CS: u64 = 0x1B;
pub const USER_SS: u64 = 0x23;

/// `m` with the words `ws` stored from byte address `base` on (what lies
/// past the end of memory is dropped).
pub open spec fn words_at(m: Seq<u64>, base: u64, ws: Seq<u64>) -> Seq<u64> {
    Seq::new(m.len(), |k: int| if base / 8 <= k < base / 8 + ws.len() { ws[k - base / 8] } else { m[k] })
}

/// The frame's words from its lowest address up: SSE area and registers
/// zero, then RIP, CS, RFLAGS, RSP, SS.
pub open spec fn iret_frame(rip: u64, cs: u64, rsp: u64, ss: u64) -> Seq<u64> {
    Seq::new(47, |i: int| 0u64) + seq![rip, cs, INITIAL_RFLAGS, rsp, ss]
}

/// Store the words `ws` from byte address `base` on.
fn write_words(mem: &mut PhysMem, base: u64, ws: &[u64])
    requires
        base % 8 == 0,
        base + 8 * ws.len() <= u64::MAX,
    ensures
        final(mem)@ == words_at(old(mem)@, base, ws@),
{
    let ghost m0 = mem@;
    let mut i: usize = 0;
    while i < ws.len()
        invariant
            0 <= i <= ws.len(),
            base % 8 == 0,
            base + 8 * ws.len() <= u64::MAX,
            mem@ == words_at(m0, base, ws@.subrange(0, i as int)),
        decreases ws.len() - i,
    {
        mem.store(base + 8 * (i as u64), ws[i]);
        proof {
            assert(mem@ =~= words_at(m0, base, ws@.subrange(0, i + 1)));
        }
        i = i + 1;
    }
    assert(ws@.subrange(0, ws.len() as int) =~= ws@);
}

/// Lay out a frame below `stack_top` and give its lowest address.
fn push_frame(mem: &mut PhysMem, stack_top: u64, rip: u64, cs: u64, rsp: u64, ss: u64) -> (sp: u64)
    requires
        stack_top % 8 == 0,
        stack_top >= FRAME_BYTES,
    ensures
        sp == stack_top - FRAME_BYTES,
        final(mem)@ == words_at(old(mem)@, sp, iret_frame(rip, cs, rsp, ss)),
{
    let sp = stack_top - FRAME_BYTES;
    let mut ws: Vec<u64> = Vec::new();
    let mut i: usize = 0;
    while i < 47
        invariant
            0 <= i <= 47,
            ws@ == Seq::new(i as nat, |k: int| 0u64),
        decreases 47 - i,
    {
        ws.push(0);
        proof {
            assert(ws@ =~= Seq::new((i + 1) as nat, |k: int| 0u64));
        }
        i = i + 1;
    }
    ws.push(rip);
    ws.push(cs);
    ws.push(INITIAL_RFLAGS);
    ws.push(rsp);
    ws.push(ss);
    assert(ws@ =~= iret_frame(rip, cs, rsp, ss));
    write_words(mem, sp, ws.as_slice());
    sp
}

/// The first frame of a kernel task on the kernel stack ending at
/// `stack_top`: it resumes at `func` in ring 0 with its stack pointer at
/// `stack_top`. Gives the saved stack pointer.
pub fn build_kernel_frame(mem: &mut PhysMem, stack_top: u64, func: u64) -> (sp: u64)
    requires
        stack_top % 8 == 0,
        stack_top >= FRAME_BYTES,
    ensures
        sp == stack_top - FRAME_BYTES,
        final(mem)@ == words_at(old(mem)@, sp, iret_frame(func, KERNEL_CS, stack_top, KERNEL_SS)),
{
    push_frame(mem, stack_top, func, KERNEL_CS, stack_top, KERNEL_SS)
}

/// The first frame of a user task on the kernel stack ending at
/// `stack_top`: it drops to ring 3 at `user_entry` with the user stack
/// pointer `user_sp`. Gives the saved stack pointer.
pub fn build_userspace_frame(mem: &mut PhysMem, stack_top: u64, user_entry: u64, user_sp: u64) -> (sp: u64)
    requires
        stack_top % 8 == 0,
        stack_top >= FRAME_BYTES,
    ensures
        sp == stack_top - FRAME_BYTES,
        final(mem)@ == words_at(old(mem)@, sp, iret_frame(user_entry, USER_CS, user_sp, USER_SS)),
{
    push_frame(mem, stack_top, user_entry, USER_CS, user_sp, USER_SS)
}

/// The frame a task gets when it starts a new program: as for a new user
/// task, at `entry` with the user stack pointer `user_sp`.
pub fn rebuild_userspace_frame(mem: &mut PhysMem, stack_top: u64, entry: u64, user_sp: u64) -> (sp: u64)
    requires
        stack_top % 8 == 0,
        stack_top >= FRAME_BYTES,
    ensures
        sp == stack_top - FRAME_BYTES,
        final(mem)@ == words_at(old(mem)@, sp, iret_frame(entry, USER_CS, user_sp, USER_SS)),
{
    push_frame(mem, stack_top, entry, USER_CS, user_sp, USER_SS)
}

} // verus!
