use zohara::task::{Scheduler, TaskState, SWITCH_INTERVAL, sleep};
use zohara::timer::{ms_to_ticks, ticks, uptime_ms, MS_PER_TICK};

#[test]
fn new_scheduler_is_empty() {
    let s = Scheduler::new();
    assert_eq!(s.ticks(), 0);
    assert_eq!(s.current_task(), 0);
    assert_eq!(s.active_task_count(), 0);
    assert!(s.has_free_slot());
    assert_eq!(s.get_task_state(5), TaskState::Unused);
    assert_eq!(s.get_task_uid(5), 1000);
}

#[test]
fn init_makes_task_zero_the_kernel() {
    let mut s = Scheduler::new();
    s.init_scheduler(0x1000);
    assert_eq!(s.current_state(), TaskState::Running);
    assert_eq!(s.current_user_id(), 0);
    assert_eq!(s.current_page_table_root(), 0x1000);
}

#[test]
fn spawn_takes_first_free_slot() {
    let mut s = Scheduler::new();
    s.init_scheduler(0x1000);
    let a = s.spawn_userspace(0x2000, &[0x5000, 0x6000]).unwrap();
    let b = s.spawn_userspace(0x3000, &[]).unwrap();
    assert_eq!(a, 1);
    assert_eq!(b, 2);
    assert_eq!(s.get_task_state(1), TaskState::Ready);
    assert_eq!(s.task_page_table_root(2), 0x3000);
    assert_eq!(s.active_task_count(), 2);
}

#[test]
fn timer_switches_every_interval() {
    let mut s = Scheduler::new();
    s.init_scheduler(0x1000);
    let t = s.spawn_userspace(0x2000, &[]).unwrap();
    s.set_saved_sp(t, 0xAAAA);
    for _ in 0..SWITCH_INTERVAL - 1 {
        let d = s.timer_handler(0x1111);
        assert_eq!(d.resume_sp, 0x1111);
        assert_eq!(d.switched_to, None);
    }
    let d = s.timer_handler(0x1111);
    assert_eq!(d.switched_to, Some(t));
    assert_eq!(d.resume_sp, 0xAAAA);
    assert_eq!(s.current_task(), t);
    assert_eq!(s.ticks(), SWITCH_INTERVAL);
}

#[test]
fn exit_hands_back_frames_and_table() {
    let mut s = Scheduler::new();
    s.init_scheduler(0x1000);
    let t = s.spawn_userspace(0x2000, &[0x5000, 0, 0x7000]).unwrap();
    for _ in 0..SWITCH_INTERVAL {
        s.timer_handler(0);
    }
    assert_eq!(s.current_task(), t);
    let plan = s.exit_current_task().unwrap();
    assert_eq!(plan.frames, vec![0x5000, 0x7000]);
    assert_eq!(plan.page_table_root, Some(0x2000));
    assert_eq!(s.get_task_state(t), TaskState::Unused);
}

#[test]
fn kernel_task_cannot_exit() {
    let mut s = Scheduler::new();
    s.init_scheduler(0x1000);
    assert!(s.exit_current_task().is_none());
}

#[test]
fn sleeping_task_wakes_at_its_tick() {
    let mut s = Scheduler::new();
    s.init_scheduler(0x1000);
    let t = s.spawn_userspace(0x2000, &[]).unwrap();
    for _ in 0..SWITCH_INTERVAL {
        s.timer_handler(0);
    }
    assert_eq!(s.current_task(), t);
    sleep(&mut s, 30);
    assert_eq!(s.current_state(), TaskState::Sleeping);
    s.timer_handler(0);
    s.timer_handler(0);
    assert_eq!(s.get_task_state(t), TaskState::Sleeping);
    s.timer_handler(0);
    assert_eq!(s.get_task_state(t), TaskState::Ready);
}

#[test]
fn timer_conversions() {
    assert_eq!(ms_to_ticks(0), 0);
    assert_eq!(ms_to_ticks(10), 1);
    assert_eq!(ms_to_ticks(15), 2);
    assert_eq!(ms_to_ticks(11), 2);
    assert_eq!(ms_to_ticks(1000), 100);
    let mut s = Scheduler::new();
    for _ in 0..7 {
        s.timer_handler(0);
    }
    assert_eq!(ticks(&s), 7);
    assert_eq!(uptime_ms(&s), 7 * MS_PER_TICK);
}

#[test]
fn kernel_task_sleeps_until_its_tick() {
    let mut s = Scheduler::new();
    s.init_scheduler(0x1000);
    // The kernel task sleeps 100 ms (10 ticks) with nothing else to run.
    sleep(&mut s, 100);
    assert_eq!(s.current_state(), TaskState::Sleeping);
    for _ in 0..SWITCH_INTERVAL - 1 {
        s.timer_handler(0);
        assert_eq!(s.get_task_state(0), TaskState::Sleeping);
    }
    // At tick 10 it is due: woken, then picked again.
    let d = s.timer_handler(0);
    assert_eq!(d.switched_to, None);
    assert_eq!(s.get_task_state(0), TaskState::Running);
}

#[test]
fn fallback_to_sleeping_kernel_task_keeps_it_asleep() {
    let mut s = Scheduler::new();
    s.init_scheduler(0x1000);
    sleep(&mut s, 500);
    for _ in 0..SWITCH_INTERVAL {
        s.timer_handler(0);
    }
    assert_eq!(s.current_task(), 0);
    assert_eq!(s.get_task_state(0), TaskState::Sleeping);
}

#[test]
fn ms_to_ticks_rounds_up_for_every_value() {
    assert_eq!(ms_to_ticks(1), 1);
    assert_eq!(ms_to_ticks(usize::MAX), usize::MAX / 10 + 1);
    assert_eq!(ms_to_ticks(usize::MAX - 9), usize::MAX / 10);
    assert_eq!(ms_to_ticks(usize::MAX - 5), usize::MAX / 10);
}
