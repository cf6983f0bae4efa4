//! Timer and clock: the monotonic tick count, time conversions, and the
//! bookkeeping of sleeping tasks. The PIT fires at about 100 Hz
//! (1,193,182 / 11932).
use vstd::prelude::*;
use crate::task::{Scheduler, Task, TaskState, woken, MAX_TASKS};

verus! {

/// PIT channel 0 frequency divisor (1,193,182 / 11932 ≈ 100 Hz).
pub const PIT_DIVISOR: u16 = 11932;

/// Timer frequency in Hz (approximate).
pub const PIT_HZ: usize = 100;

/// Milliseconds per timer tick.
pub const MS_PER_TICK: usize = 10;

/// Ticks needed to cover `ms` milliseconds: the ceiling of `ms / 10`.
pub open spec fn ticks_for_ms(ms: int) -> int {
    (ms + MS_PER_TICK - 1) / (MS_PER_TICK as int)
}

/// The tick at which a sleep of `ms` milliseconds started at tick `now`
/// ends, wrapping around like the counter itself.
pub open spec fn wake_tick_after(now: usize, ms: usize) -> usize {
    let t = now + ticks_for_ms(ms as int);
    if t > usize::MAX {
        (t - (usize::MAX as int + 1)) as usize
    } else {
        t as usize
    }
}

/// The raw tick count since boot.
pub fn ticks(sched: &Scheduler) -> (r: usize)
    ensures
        r == sched.ticks_view(),
{
    sched.ticks()
}

/// Milliseconds since boot: ticks times 10, wrapping on overflow.
pub fn uptime_ms(sched: &Scheduler) -> (r: usize)
    ensures
        r == (sched.ticks_view() * MS_PER_TICK) % (usize::MAX as int + 1),
{
    ticks(sched).wrapping_mul(MS_PER_TICK)
}

/// Convert milliseconds to ticks, rounding up: 0 → 0, 1 → 1, 10 → 1,
/// 11 → 2.
pub fn ms_to_ticks(ms: usize) -> (r: usize)
    ensures
        r == ticks_for_ms(ms as int),
        r * MS_PER_TICK >= ms,
        r == 0 || (r - 1) * MS_PER_TICK < ms,
{
    let whole = ms / MS_PER_TICK;
    if ms % MS_PER_TICK != 0 {
        whole + 1
    } else {
        whole
    }
}

/// Count one timer interrupt (the counter wraps after usize::MAX).
pub fn tick(sched: &mut Scheduler)
    ensures
        final(sched).ticks_view() == (if old(sched).ticks_view() == usize::MAX { 0 } else { old(sched).ticks_view() + 1 }),
        final(sched).tasks_view() == old(sched).tasks_view(),
        final(sched).current_view() == old(sched).current_view(),
{
    sched.advance_tick();
}

/// Wake every task that sleeps and whose wake tick the counter has
/// reached; nothing else changes.
pub fn wake_sleeping(sched: &mut Scheduler)
    requires
        old(sched).wf(),
    ensures
        final(sched).wf(),
        final(sched).tasks_view() == Seq::new(
            MAX_TASKS as nat,
            |i: int| woken(old(sched).tasks_view()[i], old(sched).ticks_view()),
        ),
        final(sched).current_view() == old(sched).current_view(),
        final(sched).ticks_view() == old(sched).ticks_view(),
{
    let now = sched.ticks();
    sched.wake_all(now);
    assert(sched.tasks_view() =~= Seq::new(
        MAX_TASKS as nat,
        |i: int| woken(old(sched).tasks_view()[i], now),
    ));
}

/// Put the running task to sleep until tick `wake_tick`: record the tick
/// and mark it Sleeping. The caller idles until a tick wakes it.
pub fn sleep_until(sched: &mut Scheduler, wake_tick: usize)
    requires
        old(sched).wf(),
    ensures
        final(sched).wf(),
        final(sched).tasks_view() == old(sched).tasks_view().update(
            old(sched).current_view() as int,
            Task {
                state: TaskState::Sleeping,
                wake_tick,
                ..old(sched).tasks_view()[old(sched).current_view() as int]
            },
        ),
        final(sched).current_view() == old(sched).current_view(),
        final(sched).ticks_view() == old(sched).ticks_view(),
{
    let cur = sched.current_task();
    sched.set_task_wake_tick(cur, wake_tick);
    sched.set_state(TaskState::Sleeping);
}

/// Put the running task to sleep for `duration_ms` milliseconds.
pub fn sleep_ms(sched: &mut Scheduler, duration_ms: usize)
    requires
        old(sched).wf(),
    ensures
        final(sched).wf(),
        final(sched).tasks_view() == old(sched).tasks_view().update(
            old(sched).current_view() as int,
            Task {
                state: TaskState::Sleeping,
                wake_tick: wake_tick_after(old(sched).ticks_view(), duration_ms),
                ..old(sched).tasks_view()[old(sched).current_view() as int]
            },
        ),
        final(sched).current_view() == old(sched).current_view(),
        final(sched).ticks_view() == old(sched).ticks_view(),
{
    let wake = ticks(sched).wrapping_add(ms_to_ticks(duration_ms));
    sleep_until(sched, wake);
}

} // verus!
