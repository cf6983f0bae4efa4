use zohara::fd_table::GlobalFdTable;
use zohara::fs::{self as vfs, Vfs};
use zohara::linux_compat::{
    sys_brk, sys_capget, sys_clock_gettime, sys_close, sys_dup, sys_dup2, sys_exit, sys_getcwd, sys_getpid, sys_lseek,
    sys_mkdir, sys_nanosleep, sys_openat, sys_read, sys_write, ReadOutcome, Timespec, EBADF, EFAULT, EINVAL, ENOENT,
};
use zohara::stats::KernelStats;
use zohara::syscall::{memory_info, write_len, MAX_WRITE_LEN};
use zohara::frame::FrameAllocator;
use zohara::task::{Scheduler, TaskState};

fn done(r: ReadOutcome) -> (isize, Vec<u8>) {
    match r {
        ReadOutcome::Done(v, d) => (v, d),
        ReadOutcome::Console => panic!("console"),
    }
}

fn setup() -> (Vfs, GlobalFdTable) {
    let mut v = Vfs::new();
    vfs::create_file(&mut v, "/data").unwrap();
    vfs::write_file(&mut v, "/data", 0, b"0123456789").unwrap();
    (v, GlobalFdTable::new())
}

#[test]
fn open_read_moves_the_offset() {
    let (v, mut fds) = setup();
    let fd = sys_openat(&mut fds, &v, 3, Ok("/data"));
    assert_eq!(fd, 0);
    assert_eq!(done(sys_read(&mut fds, &v, 3, 0, 4)), (4, b"0123".to_vec()));
    assert_eq!(done(sys_read(&mut fds, &v, 3, 0, 100)), (6, b"456789".to_vec()));
    assert_eq!(done(sys_read(&mut fds, &v, 3, 0, 100)), (0, vec![]));
}

#[test]
fn console_descriptors() {
    let (mut v, mut fds) = setup();
    assert!(matches!(sys_read(&mut fds, &v, 3, 1, 10), ReadOutcome::Console));
    assert_eq!(sys_write(&mut fds, &mut v, 3, 2, 1, Ok(b"x")), 1);
    assert_eq!(sys_write(&mut fds, &mut v, 3, 1, 300, Ok(b"x")), -1);
    assert_eq!(sys_write(&mut fds, &mut v, 3, 1, 5, Err(EFAULT)), EFAULT);
}

#[test]
fn bad_descriptors() {
    let (mut v, mut fds) = setup();
    assert_eq!(done(sys_read(&mut fds, &v, 3, 7, 10)), (EBADF, vec![]));
    assert_eq!(sys_write(&mut fds, &mut v, 3, 7, 1, Err(EFAULT)), EBADF);
    assert_eq!(sys_close(&mut fds, 3, 7), EBADF);
    assert_eq!(sys_dup(&mut fds, 3, 7), -1);
    assert_eq!(sys_lseek(&mut fds, &v, 3, 7, 0, 0), -1);
}

#[test]
fn write_then_reread() {
    let (mut v, mut fds) = setup();
    let fd = sys_openat(&mut fds, &v, 5, Ok("/data")) as usize;
    assert_eq!(sys_write(&mut fds, &mut v, 5, fd, 2, Ok(b"ab")), 2);
    assert_eq!(sys_write(&mut fds, &mut v, 5, fd, 2, Err(EFAULT)), EFAULT);
    assert_eq!(sys_lseek(&mut fds, &v, 5, fd, 0, 0), 0);
    assert_eq!(done(sys_read(&mut fds, &v, 5, fd, 5)), (5, b"ab234".to_vec()));
    assert_eq!(sys_close(&mut fds, 5, fd), 0);
    assert_eq!(sys_close(&mut fds, 5, fd), EBADF);
}

#[test]
fn dup_shares_the_file() {
    let (v, mut fds) = setup();
    let fd = sys_openat(&mut fds, &v, 2, Ok("/data")) as usize;
    assert_eq!(sys_dup(&mut fds, 2, fd), 1);
    assert_eq!(sys_dup2(&mut fds, 2, fd, 5), 5);
    assert_eq!(sys_dup2(&mut fds, 2, fd, 99), -1);
    assert_eq!(done(sys_read(&mut fds, &v, 2, 5, 3)), (3, b"012".to_vec()));
}

#[test]
fn open_and_mkdir_paths() {
    let (mut v, mut fds) = setup();
    assert_eq!(sys_openat(&mut fds, &v, 1, Ok("/missing")), ENOENT);
    assert_eq!(sys_openat(&mut fds, &v, 1, Err(EFAULT)), EFAULT);
    assert_eq!(sys_mkdir(&mut v, Ok("/etc")), 0);
    assert!(vfs::resolve_path_idx(&v, "/etc").is_some());
    assert_eq!(sys_mkdir(&mut v, Ok("/nowhere/x")), -1);
    assert_eq!(sys_mkdir(&mut v, Err(EFAULT)), EFAULT);
}

#[test]
fn small_calls() {
    assert_eq!(sys_getcwd(0x1000, 16), (1, true));
    assert_eq!(sys_getcwd(0, 16), (1, false));
    assert_eq!(sys_getcwd(0x1000, 1), (1, false));
    assert_eq!(sys_brk(0), 0x1000_0000);
    let (r, w) = sys_capget(0x100, 0x200);
    assert_eq!(r, 0);
    assert_eq!(w.header, Some((0x2008_0522, 0)));
    assert!(w.data);
    assert_eq!(sys_capget(0, 0x200).1.header, None);
}

#[test]
fn clock_and_sleep() {
    let mut s = Scheduler::new();
    for _ in 0..250 {
        s.timer_handler(0);
    }
    assert_eq!(sys_clock_gettime(&s, 0), (EINVAL, None));
    assert_eq!(sys_clock_gettime(&s, 0x100), (0, Some(Timespec { tv_sec: 2, tv_nsec: 500_000_000 })));
    assert_eq!(sys_nanosleep(&mut s, None), 0);
    assert_eq!(sys_getpid(&s), 0);
}

#[test]
fn exit_of_the_kernel_task_is_refused() {
    let mut s = Scheduler::new();
    let mut st = KernelStats::new();
    let (code, plan) = sys_exit(&mut s, &mut st, 3);
    assert_eq!(code, 3);
    assert!(plan.is_none());
    assert_eq!(st.tasks_exited, 1);
    assert_eq!(s.get_task_state(0), TaskState::Unused);
}

#[test]
fn memory_info_and_write_lengths() {
    let s = Scheduler::new();
    let mut frames = FrameAllocator::new();
    frames.set_total_ram(0x100_0000);
    frames.init(0x20_0000);
    let info = memory_info(&s, &frames).unwrap();
    assert_eq!(info[0], 4096);
    assert_eq!(info[0], info[1] + info[2]);
    assert_eq!(info[2], 512);
    assert_eq!(write_len(10, MAX_WRITE_LEN, -1), Ok(10));
    assert_eq!(write_len(5000, MAX_WRITE_LEN, -1), Err(-1));
}

#[test]
fn fstat_and_mmap_are_enosys_stubs() {
    assert_eq!(zohara::linux_compat::sys_fstat(3, 0x1000), -38);
    assert_eq!(zohara::linux_compat::sys_mmap(), -38);
}
