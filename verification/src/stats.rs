//! Kernel statistics: plain event counters. Every counter wraps around
//! after usize::MAX, like an atomic fetch_add.
use vstd::prelude::*;

verus! {

/// Number of system call numbers counted one by one.
pub const SYSCALL_SLOTS: usize = 64;

/// `n + 1`, wrapping to 0 after usize::MAX.
pub open spec fn bump(n: usize) -> usize {
    if n == usize::MAX { 0 } else { (n + 1) as usize }
}

/// The kernel's counters.
#[derive(Clone, Copy)]
pub struct KernelStats {
    pub context_switches: usize,
    pub timer_ticks: usize,
    pub syscalls_total: usize,
    pub syscalls_by_num: [usize; 64],
    pub page_faults_user: usize,
    pub page_faults_kernel: usize,
    pub interrupts_total: usize,
    pub frame_allocs: usize,
    pub frame_frees: usize,
    pub tasks_spawned: usize,
    pub tasks_exited: usize,
    pub panics: usize,
}

fn inc(n: usize) -> (r: usize)
    ensures
        r == bump(n),
{
    n.wrapping_add(1)
}

impl KernelStats {
    /// Every counter at zero.
    pub fn new() -> (s: Self)
        ensures
            s.context_switches == 0 && s.timer_ticks == 0 && s.syscalls_total == 0,
            forall|i: int| 0 <= i < SYSCALL_SLOTS ==> #[trigger] s.syscalls_by_num@[i] == 0,
            s.page_faults_user == 0 && s.page_faults_kernel == 0 && s.interrupts_total == 0,
            s.frame_allocs == 0 && s.frame_frees == 0,
            s.tasks_spawned == 0 && s.tasks_exited == 0 && s.panics == 0,
    {
        KernelStats {
            context_switches: 0,
            timer_ticks: 0,
            syscalls_total: 0,
            syscalls_by_num: [0; 64],
            page_faults_user: 0,
            page_faults_kernel: 0,
            interrupts_total: 0,
            frame_allocs: 0,
            frame_frees: 0,
            tasks_spawned: 0,
            tasks_exited: 0,
            panics: 0,
        }
    }
}

/// Count a context switch.
pub fn count_context_switch(s: &mut KernelStats)
    ensures
        *final(s) == (KernelStats { context_switches: bump(old(s).context_switches), ..*old(s) }),
{
    s.context_switches = inc(s.context_switches);
}

/// Count a timer tick.
pub fn count_tick(s: &mut KernelStats)
    ensures
        *final(s) == (KernelStats { timer_ticks: bump(old(s).timer_ticks), ..*old(s) }),
{
    s.timer_ticks = inc(s.timer_ticks);
}

/// Count a system call; numbers below 64 are also counted one by one.
pub fn count_syscall(s: &mut KernelStats, num: usize)
    ensures
        final(s).syscalls_total == bump(old(s).syscalls_total),
        num < SYSCALL_SLOTS ==> final(s).syscalls_by_num@ == old(s).syscalls_by_num@.update(
            num as int,
            bump(old(s).syscalls_by_num@[num as int]),
        ),
        num >= SYSCALL_SLOTS ==> final(s).syscalls_by_num == old(s).syscalls_by_num,
        *final(s) == (KernelStats {
            syscalls_total: final(s).syscalls_total,
            syscalls_by_num: final(s).syscalls_by_num,
            ..*old(s)
        }),
{
    s.syscalls_total = inc(s.syscalls_total);
    if num < SYSCALL_SLOTS {
        s.syscalls_by_num[num] = inc(s.syscalls_by_num[num]);
    }
}

/// Count a page fault taken in user mode.
pub fn count_page_fault_user(s: &mut KernelStats)
    ensures
        *final(s) == (KernelStats { page_faults_user: bump(old(s).page_faults_user), ..*old(s) }),
{
    s.page_faults_user = inc(s.page_faults_user);
}

/// Count a page fault taken in kernel mode.
pub fn count_page_fault_kernel(s: &mut KernelStats)
    ensures
        *final(s) == (KernelStats { page_faults_kernel: bump(old(s).page_faults_kernel), ..*old(s) }),
{
    s.page_faults_kernel = inc(s.page_faults_kernel);
}

/// Count an interrupt.
pub fn count_interrupt(s: &mut KernelStats)
    ensures
        *final(s) == (KernelStats { interrupts_total: bump(old(s).interrupts_total), ..*old(s) }),
{
    s.interrupts_total = inc(s.interrupts_total);
}

/// Count a frame allocation.
pub fn count_frame_alloc(s: &mut KernelStats)
    ensures
        *final(s) == (KernelStats { frame_allocs: bump(old(s).frame_allocs), ..*old(s) }),
{
    s.frame_allocs = inc(s.frame_allocs);
}

/// Count a frame release.
pub fn count_frame_free(s: &mut KernelStats)
    ensures
        *final(s) == (KernelStats { frame_frees: bump(old(s).frame_frees), ..*old(s) }),
{
    s.frame_frees = inc(s.frame_frees);
}

/// Count a spawned task.
pub fn count_task_spawn(s: &mut KernelStats)
    ensures
        *final(s) == (KernelStats { tasks_spawned: bump(old(s).tasks_spawned), ..*old(s) }),
{
    s.tasks_spawned = inc(s.tasks_spawned);
}

/// Count an exited task.
pub fn count_task_exit(s: &mut KernelStats)
    ensures
        *final(s) == (KernelStats { tasks_exited: bump(old(s).tasks_exited), ..*old(s) }),
{
    s.tasks_exited = inc(s.tasks_exited);
}

/// Count a panic.
pub fn count_panic(s: &mut KernelStats)
    ensures
        *final(s) == (KernelStats { panics: bump(old(s).panics), ..*old(s) }),
{
    s.panics = inc(s.panics);
}

} // verus!
