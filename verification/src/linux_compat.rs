//! Linux x86_64 system calls: which numbers are served, which fail
//! honestly, what each error code is, and the served calls themselves on
//! the descriptor table, the VFS and the scheduler. Copying to and from
//! user memory, and console output, are the caller's.
use vstd::prelude::*;
use vstd::string::StringSliceAdditionalSpecFns;
use crate::fd_table::{GlobalFdTable, MAX_FDS, slot, FdEntry, empty_entry, size_of_node, seek_target};
use crate::fs::{Vfs, read_spec, write_spec, read_outcome, resolve_spec, read_file_by_node, write_file_by_node, resolve_path_idx};
use crate::task::{Scheduler, MAX_TASKS};
use crate::bytes::zeroed_vec;

verus! {

pub const ENOENT: isize = -2;
pub const EBADF: isize = -9;
pub const ENOMEM: isize = -12;
pub const EACCES: isize = -13;
pub const EFAULT: isize = -14;
pub const EIO: isize = -5;
pub const EINVAL: isize = -22;
pub const ENOSYS: isize = -38;

/// `struct timespec`.
#[derive(Clone, Copy, PartialEq, Eq, Debug, Structural)]
pub struct Timespec {
    pub tv_sec: i64,
    pub tv_nsec: i64,
}

/// What a Linux system call number maps to.
#[derive(Clone, Copy, PartialEq, Eq, Debug, Structural)]
pub enum LinuxCall {
    Brk,
    Capget,
    ClockGettime,
    ClockNanosleep,
    Close,
    Dup,
    Dup2,
    Execve,
    Exit,
    Fstat,
    GetCwd,
    GetPid,
    GetUid,
    Lseek,
    Mkdir,
    Mmap,
    Nanosleep,
    Openat,
    Read,
    Write,
    /// A known call that is not supported: this error code is returned.
    Fail(isize),
    /// An unknown number (ENOSYS, reported as unimplemented).
    Unimplemented,
}

/// The call for number `num`.
pub open spec fn linux_call(num: usize) -> LinuxCall {
    if num == 0 { LinuxCall::Read }
    else if num == 1 { LinuxCall::Write }
    else if num == 3 { LinuxCall::Close }
    else if num == 5 { LinuxCall::Fstat }
    else if num == 8 { LinuxCall::Lseek }
    else if num == 9 { LinuxCall::Mmap }
    else if num == 10 { LinuxCall::Fail(ENOSYS) }
    else if num == 11 { LinuxCall::Fail(ENOSYS) }
    else if num == 12 { LinuxCall::Brk }
    else if num == 13 { LinuxCall::Fail(ENOSYS) }
    else if num == 14 { LinuxCall::Fail(ENOSYS) }
    else if num == 32 { LinuxCall::Dup }
    else if num == 33 { LinuxCall::Dup2 }
    else if num == 39 { LinuxCall::GetPid }
    else if num == 56 { LinuxCall::Fail(ENOSYS) }
    else if num == 57 { LinuxCall::Fail(ENOSYS) }
    else if num == 59 { LinuxCall::Execve }
    else if num == 60 { LinuxCall::Exit }
    else if num == 61 { LinuxCall::Fail(ENOSYS) }
    else if num == 72 { LinuxCall::Fail(ENOSYS) }
    else if num == 78 { LinuxCall::Fail(ENOSYS) }
    else if num == 79 { LinuxCall::GetCwd }
    else if num == 80 { LinuxCall::Fail(ENOSYS) }
    else if num == 82 { LinuxCall::Fail(ENOSYS) }
    else if num == 83 { LinuxCall::Mkdir }
    else if num == 84 { LinuxCall::Fail(ENOSYS) }
    else if num == 87 { LinuxCall::Fail(ENOSYS) }
    else if num == 89 { LinuxCall::Fail(ENOSYS) }
    else if num == 96 { LinuxCall::Fail(ENOSYS) }
    else if num == 102 { LinuxCall::GetUid }
    else if num == 104 { LinuxCall::GetUid }
    else if num == 105 { LinuxCall::Fail(ENOSYS) }
    else if num == 106 { LinuxCall::Fail(ENOSYS) }
    else if num == 107 { LinuxCall::GetUid }
    else if num == 108 { LinuxCall::GetUid }
    else if num == 115 { LinuxCall::Fail(ENOSYS) }
    else if num == 116 { LinuxCall::Fail(ENOSYS) }
    else if num == 125 { LinuxCall::Capget }
    else if num == 126 { LinuxCall::Fail(ENOSYS) }
    else if num == 157 { LinuxCall::Fail(ENOSYS) }
    else if num == 201 { LinuxCall::Fail(ENOSYS) }
    else if num == 202 { LinuxCall::Fail(ENOSYS) }
    else if num == 228 { LinuxCall::ClockGettime }
    else if num == 230 { LinuxCall::ClockNanosleep }
    else if num == 231 { LinuxCall::Nanosleep }
    else if num == 234 { LinuxCall::Fail(ENOSYS) }
    else if num == 257 { LinuxCall::Openat }
    else if num == 262 { LinuxCall::Fail(ENOENT) }
    else if num == 302 { LinuxCall::Fail(ENOSYS) }
    else if num == 318 { LinuxCall::GetUid }
    else if num == 319 { LinuxCall::GetUid }
    else if num == 323 { LinuxCall::Capget }
    else { LinuxCall::Unimplemented }
}

/// Map a Linux system call number to what serves it.
pub fn dispatch(num: usize) -> (r: LinuxCall)
    ensures
        r == linux_call(num),
{
    match num {
        0 => LinuxCall::Read,
        1 => LinuxCall::Write,
        3 => LinuxCall::Close,
        5 => LinuxCall::Fstat,
        8 => LinuxCall::Lseek,
        9 => LinuxCall::Mmap,
        10 => LinuxCall::Fail(ENOSYS),
        11 => LinuxCall::Fail(ENOSYS),
        12 => LinuxCall::Brk,
        13 => LinuxCall::Fail(ENOSYS),
        14 => LinuxCall::Fail(ENOSYS),
        32 => LinuxCall::Dup,
        33 => LinuxCall::Dup2,
        39 => LinuxCall::GetPid,
        56 => LinuxCall::Fail(ENOSYS),
        57 => LinuxCall::Fail(ENOSYS),
        59 => LinuxCall::Execve,
        60 => LinuxCall::Exit,
        61 => LinuxCall::Fail(ENOSYS),
        72 => LinuxCall::Fail(ENOSYS),
        78 => LinuxCall::Fail(ENOSYS),
        79 => LinuxCall::GetCwd,
        80 => LinuxCall::Fail(ENOSYS),
        82 => LinuxCall::Fail(ENOSYS),
        83 => LinuxCall::Mkdir,
        84 => LinuxCall::Fail(ENOSYS),
        87 => LinuxCall::Fail(ENOSYS),
        89 => LinuxCall::Fail(ENOSYS),
        96 => LinuxCall::Fail(ENOSYS),
        102 => LinuxCall::GetUid,
        104 => LinuxCall::GetUid,
        105 => LinuxCall::Fail(ENOSYS),
        106 => LinuxCall::Fail(ENOSYS),
        107 => LinuxCall::GetUid,
        108 => LinuxCall::GetUid,
        115 => LinuxCall::Fail(ENOSYS),
        116 => LinuxCall::Fail(ENOSYS),
        125 => LinuxCall::Capget,
        126 => LinuxCall::Fail(ENOSYS),
        157 => LinuxCall::Fail(ENOSYS),
        201 => LinuxCall::Fail(ENOSYS),
        202 => LinuxCall::Fail(ENOSYS),
        228 => LinuxCall::ClockGettime,
        230 => LinuxCall::ClockNanosleep,
        231 => LinuxCall::Nanosleep,
        234 => LinuxCall::Fail(ENOSYS),
        257 => LinuxCall::Openat,
        262 => LinuxCall::Fail(ENOENT),
        302 => LinuxCall::Fail(ENOSYS),
        318 => LinuxCall::GetUid,
        319 => LinuxCall::GetUid,
        323 => LinuxCall::Capget,
        _ => LinuxCall::Unimplemented,
    }
}

/// The error code a call gives back without being served, if any.
pub fn immediate_result(c: LinuxCall) -> (r: Option<isize>)
    ensures
        r == match c {
            LinuxCall::Fail(e) => Some(e),
            LinuxCall::Unimplemented => Some(ENOSYS),
            _ => None::<isize>,
        },
{
    match c {
        LinuxCall::Fail(e) => Some(e),
        LinuxCall::Unimplemented => Some(ENOSYS),
        _ => None,
    }
}

/// Largest transfer of one read or write call.
pub const IO_CHUNK: usize = 512;

/// What a read call does: write to the console (standard output and
/// error), or give back a value and the bytes to put in the user buffer.
pub enum ReadOutcome {
    Console,
    Done(isize, Vec<u8>),
}

/// `read(fd, buf, len)` for task `task_id`: standard output and error go
/// to the console; a file descriptor reads at most 512 bytes from its
/// offset, which moves past them. Gives 0 at the end of the file, EBADF
/// for a descriptor not open, EIO when its node is not a readable file.
pub fn sys_read(fds: &mut GlobalFdTable, vfs: &Vfs, task_id: usize, fd: usize, len: usize) -> (r: ReadOutcome)
    requires
        old(fds).wf(),
        task_id < MAX_TASKS,
    ensures
        final(fds).wf(),
        fd == 1 || fd == 2 ==> r is Console && *final(fds) == *old(fds),
        !(fd == 1 || fd == 2) && !old(fds).is_open(task_id as int, fd as int)
            ==> (r matches ReadOutcome::Done(v, d) && v == EBADF && d@.len() == 0) && *final(fds) == *old(fds),
        !(fd == 1 || fd == 2) && old(fds).is_open(task_id as int, fd as int) ==> {
            let e = old(fds).entry(task_id as int, fd as int);
            let want = if len < IO_CHUNK { len as int } else { IO_CHUNK as int };
            match read_outcome(vfs.nodes_view(), e.node_idx as usize as int) {
                Err(_) => (r matches ReadOutcome::Done(v, d) && v == EIO && d@.len() == 0) && *final(fds) == *old(fds),
                Ok(_) => {
                    let got = read_spec(vfs.nodes_view()[e.node_idx as usize as int].data@, e.offset as int, want);
                    &&& (r matches ReadOutcome::Done(v, d) && v == got.len() && d@ == got)
                    &&& got.len() == 0 ==> *final(fds) == *old(fds)
                    &&& got.len() > 0 ==> final(fds).entries_view() == old(fds).entries_view().update(
                        slot(task_id as int, fd as int), FdEntry { offset: (e.offset + got.len()) as usize, ..e })
                },
            }
        },
{
    if fd == 1 || fd == 2 {
        return ReadOutcome::Console;
    }
    let node_idx = match crate::fd_table::node(fds, task_id, fd) {
        Ok(n) => n,
        Err(_) => {
            return ReadOutcome::Done(EBADF, Vec::new());
        },
    };
    let offset = crate::fd_table::offset(fds, task_id, fd);
    let to_read = if len < IO_CHUNK { len } else { IO_CHUNK };
    let mut kbuf = zeroed_vec(to_read);
    let n = match read_file_by_node(vfs, node_idx, offset, kbuf.as_mut_slice()) {
        Ok(n) => n,
        Err(_) => {
            return ReadOutcome::Done(EIO, Vec::new());
        },
    };
    if n == 0 {
        return ReadOutcome::Done(0, Vec::new());
    }
    let mut data: Vec<u8> = Vec::new();
    let mut i: usize = 0;
    while i < n
        invariant
            0 <= i <= n,
            n <= kbuf@.len(),
            data@ == kbuf@.subrange(0, i as int),
        decreases n - i,
    {
        data.push(kbuf[i]);
        proof {
            assert(data@ =~= kbuf@.subrange(0, i + 1));
        }
        i = i + 1;
    }
    proof {
        let dv = vfs.nodes_view()[node_idx as int].data;
        assert(offset + n <= dv@.len());
        assert(dv.len() == dv@.len());
    }
    crate::fd_table::set_offset(fds, task_id, fd, offset + n);
    ReadOutcome::Done(n as isize, data)
}

/// `write(fd, buf, len)` for task `task_id`, where `copied` is the first
/// min(len, 512) bytes of the user buffer or the error copying them gave.
/// Standard output and error go to the console: a write of more than
/// MAX_WRITE_LEN bytes is refused with -1 (before the copy is looked at);
/// otherwise the copied bytes are to be sent to the serial port and their
/// count is returned. A file descriptor writes the bytes at its offset,
/// which moves past them. EBADF for a descriptor not open (before the copy
/// is looked at), the copy's error, or EIO when the node is not a
/// writable file.
pub fn sys_write(fds: &mut GlobalFdTable, vfs: &mut Vfs, task_id: usize, fd: usize, len: usize, copied: Result<&[u8], isize>)
    -> (r: isize)
    requires
        old(fds).wf(),
        old(vfs).wf(),
        task_id < MAX_TASKS,
        match copied {
            Ok(d) => old(fds).is_open(task_id as int, fd as int) ==> old(fds).entry(task_id as int, fd as int).offset + d@.len()
                <= usize::MAX,
            Err(_) => true,
        },
    ensures
        final(fds).wf(),
        final(vfs).wf(),
        final(vfs).next_inode_view() == old(vfs).next_inode_view(),
        fd == 1 || fd == 2 ==> *final(fds) == *old(fds) && final(vfs).nodes_view() == old(vfs).nodes_view() && r == (
            if len > crate::syscall::MAX_WRITE_LEN {
                -1isize
            } else {
                match copied {
                    Err(c) => c,
                    Ok(d) => d@.len() as isize,
                }
            }),
        !(fd == 1 || fd == 2) ==> if !old(fds).is_open(task_id as int, fd as int) {
            r == EBADF && *final(fds) == *old(fds) && final(vfs).nodes_view() == old(vfs).nodes_view()
        } else {
            let e = old(fds).entry(task_id as int, fd as int);
            match copied {
                Err(c) => r == c && *final(fds) == *old(fds) && final(vfs).nodes_view() == old(vfs).nodes_view(),
                Ok(d) => match read_outcome(old(vfs).nodes_view(), e.node_idx as usize as int) {
                    Err(_) => r == EIO && *final(fds) == *old(fds) && final(vfs).nodes_view() == old(vfs).nodes_view(),
                    Ok(_) => {
                        let k = e.node_idx as usize as int;
                        &&& r == d@.len() as isize
                        &&& final(vfs).nodes_view()[k].data@ == write_spec(old(vfs).nodes_view()[k].data@, e.offset as int, d@)
                        &&& forall|i: int| 0 <= i < old(vfs).nodes_view().len() && i != k
                            ==> #[trigger] final(vfs).nodes_view()[i] == old(vfs).nodes_view()[i]
                        &&& final(fds).entries_view() == old(fds).entries_view().update(
                            slot(task_id as int, fd as int), FdEntry { offset: (e.offset + d@.len()) as usize, ..e })
                    },
                },
            }
        },
{
    if fd == 1 || fd == 2 {
        if len > crate::syscall::MAX_WRITE_LEN {
            return -1;
        }
        return match copied {
            Err(c) => c,
            Ok(d) => d.len() as isize,
        };
    }
    let node_idx = match crate::fd_table::node(fds, task_id, fd) {
        Ok(n) => n,
        Err(_) => {
            return EBADF;
        },
    };
    let offset = crate::fd_table::offset(fds, task_id, fd);
    let data = match copied {
        Ok(d) => d,
        Err(e) => {
            return e;
        },
    };
    match write_file_by_node(vfs, node_idx, offset, data) {
        Ok(n) => {
            crate::fd_table::set_offset(fds, task_id, fd, offset + n);
            n as isize
        },
        Err(_) => EIO,
    }
}

/// `close(fd)` for task `task_id`: 0, or EBADF for a descriptor not open.
pub fn sys_close(fds: &mut GlobalFdTable, task_id: usize, fd: usize) -> (r: isize)
    requires
        old(fds).wf(),
        task_id < MAX_TASKS,
    ensures
        final(fds).wf(),
        old(fds).is_open(task_id as int, fd as int) ==> r == 0 && final(fds).entries_view()
            == old(fds).entries_view().update(slot(task_id as int, fd as int), empty_entry()),
        !old(fds).is_open(task_id as int, fd as int) ==> r == EBADF && *final(fds) == *old(fds),
{
    match crate::fd_table::close(fds, task_id, fd) {
        Ok(()) => 0,
        Err(_) => EBADF,
    }
}

/// `openat(dirfd, path, flags)` for task `task_id`, where `path` is the
/// path copied from the user or the error copying it gave: the new
/// descriptor, ENOENT for a path that names nothing, ENOMEM when no
/// descriptor can be had.
pub fn sys_openat(fds: &mut GlobalFdTable, vfs: &Vfs, task_id: usize, path: Result<&str, isize>) -> (r: isize)
    requires
        old(fds).wf(),
        vfs.wf(),
        task_id < MAX_TASKS,
    ensures
        final(fds).wf(),
        match path {
            Err(e) => r == e && *final(fds) == *old(fds),
            Ok(p) => match resolve_spec(vfs.nodes_view(), p.spec_bytes()) {
                None => r == ENOENT && *final(fds) == *old(fds),
                Some(idx) => if task_id == 0 {
                    r == ENOMEM && *final(fds) == *old(fds)
                } else {
                    match old(fds).first_unused(task_id as int, 0) {
                        Some(fd) => r == fd as isize && final(fds).entries_view() == old(fds).entries_view().update(
                            slot(task_id as int, fd as int), FdEntry { node_idx: idx as i32, offset: 0 }),
                        None => r == ENOMEM && *final(fds) == *old(fds),
                    }
                },
            },
        },
{
    let p = match path {
        Ok(p) => p,
        Err(e) => {
            return e;
        },
    };
    let node_idx = match resolve_path_idx(vfs, p) {
        Some(i) => i,
        None => {
            return ENOENT;
        },
    };
    match crate::fd_table::open(fds, task_id, node_idx) {
        Ok(fd) => fd as isize,
        Err(_) => ENOMEM,
    }
}

/// `mkdir(path)`, where `path` is the path copied from the user or the
/// error copying it gave: 0 when the directory was made, else -1 (a
/// copying error included).
pub fn sys_mkdir(vfs: &mut Vfs, path: Result<&str, isize>) -> (r: isize)
    requires
        old(vfs).wf(),
        old(vfs).next_inode_view() < u64::MAX,
    ensures
        final(vfs).wf(),
        match path {
            Err(e) => r == e && final(vfs).nodes_view() == old(vfs).nodes_view(),
            Ok(p) => match crate::fs::parent_outcome(old(vfs).nodes_view(), p.spec_bytes()) {
                Err(_) => r == -1 && final(vfs).nodes_view() == old(vfs).nodes_view(),
                Ok(_) => r == 0 && final(vfs).nodes_view().len() == old(vfs).nodes_view().len() + 1,
            },
        },
{
    let p = match path {
        Ok(p) => p,
        Err(e) => {
            return e;
        },
    };
    match crate::fs::create_dir(vfs, p) {
        Ok(_) => 0,
        Err(_) => -1,
    }
}

/// `lseek(fd, offset, whence)` for task `task_id`: the new offset, or -1.
pub fn sys_lseek(fds: &mut GlobalFdTable, vfs: &Vfs, task_id: usize, fd: usize, offset: usize, whence: usize) -> (r: isize)
    requires
        old(fds).wf(),
        task_id < MAX_TASKS,
    ensures
        final(fds).wf(),
        !old(fds).is_open(task_id as int, fd as int) ==> r == -1 && *final(fds) == *old(fds),
        old(fds).is_open(task_id as int, fd as int) ==> {
            let e = old(fds).entry(task_id as int, fd as int);
            match seek_target(e.offset, size_of_node(vfs, e.node_idx as usize), offset as isize, whence) {
                None => r == -1 && *final(fds) == *old(fds),
                Some(t) => r == t as isize && final(fds).entries_view() == old(fds).entries_view().update(
                    slot(task_id as int, fd as int), FdEntry { offset: t, ..e }),
            }
        },
{
    crate::fd_table::lseek(fds, vfs, task_id, fd, offset as isize, whence)
}

/// `dup(fd)` for task `task_id`: the lowest unused descriptor, now a copy
/// of `old_fd`; -1 for a descriptor not open or none free.
pub fn sys_dup(fds: &mut GlobalFdTable, task_id: usize, old_fd: usize) -> (r: isize)
    requires
        old(fds).wf(),
        task_id < MAX_TASKS,
    ensures
        final(fds).wf(),
        !old(fds).is_open(task_id as int, old_fd as int) ==> r == -1 && *final(fds) == *old(fds),
        old(fds).is_open(task_id as int, old_fd as int) ==> match old(fds).first_unused(task_id as int, 0) {
            Some(fd) => r == fd as isize && final(fds).entries_view() == old(fds).entries_view().update(
                slot(task_id as int, fd as int), old(fds).entry(task_id as int, old_fd as int)),
            None => r == -1 && *final(fds) == *old(fds),
        },
{
    match crate::fd_table::dup(fds, task_id, old_fd) {
        Ok(fd) => fd as isize,
        Err(_) => -1,
    }
}

/// `dup2(old_fd, new_fd)` for task `task_id`: `new_fd`, now a copy of
/// `old_fd`; -1 for a descriptor out of range or `old_fd` not open.
pub fn sys_dup2(fds: &mut GlobalFdTable, task_id: usize, old_fd: usize, new_fd: usize) -> (r: isize)
    requires
        old(fds).wf(),
        task_id < MAX_TASKS,
    ensures
        final(fds).wf(),
        (old_fd >= MAX_FDS || new_fd >= MAX_FDS) ==> r == -1 && *final(fds) == *old(fds),
        (old_fd < MAX_FDS && new_fd < MAX_FDS && old_fd == new_fd) ==> r == new_fd as isize && *final(fds) == *old(fds),
        (old_fd < MAX_FDS && new_fd < MAX_FDS && old_fd != new_fd && !old(fds).is_open(task_id as int, old_fd as int))
            ==> r == -1 && *final(fds) == *old(fds),
        (new_fd < MAX_FDS && old_fd != new_fd && old(fds).is_open(task_id as int, old_fd as int)) ==> r == new_fd as isize
            && final(fds).entries_view() == old(fds).entries_view().update(slot(task_id as int, new_fd as int),
            old(fds).entry(task_id as int, old_fd as int)),
{
    match crate::fd_table::dup2(fds, task_id, old_fd, new_fd) {
        Ok(fd) => fd as isize,
        Err(_) => -1,
    }
}

/// `getcwd(buf, size)`: always 1; when `buf` is not null and `size` at
/// least 2, the caller clears `size` bytes of it and puts "/" first
/// (true).
pub fn sys_getcwd(buf: usize, size: usize) -> (r: (isize, bool))
    ensures
        r == (1isize, buf != 0 && size >= 2),
{
    (1, buf != 0 && size >= 2)
}

/// `clock_gettime(clock, tp)`: EINVAL for a null `tp`, else 0 and the
/// time since boot for the caller to store at `tp`.
pub fn sys_clock_gettime(sched: &Scheduler, tp: usize) -> (r: (isize, Option<Timespec>))
    ensures
        tp == 0 ==> r == (EINVAL, None::<Timespec>),
        tp != 0 ==> {
            let ms = (sched.ticks_view() * crate::timer::MS_PER_TICK) % (usize::MAX as int + 1);
            r == (0isize, Some(Timespec { tv_sec: (ms / 1000) as i64, tv_nsec: ((ms % 1000) * 1_000_000) as i64 }))
        },
{
    if tp == 0 {
        return (EINVAL, None);
    }
    let ms = crate::timer::uptime_ms(sched);
    (0, Some(Timespec { tv_sec: (ms / 1000) as i64, tv_nsec: ((ms % 1000) * 1_000_000) as i64 }))
}

/// The milliseconds a `timespec` asks to sleep.
pub open spec fn timespec_ms(ts: Timespec) -> int {
    (ts.tv_sec as usize) * 1000 + (ts.tv_nsec as usize) / 1_000_000
}

/// `nanosleep(req, rem)` and `clock_nanosleep(clock, flags, req, rem)`,
/// where `req` is the `timespec` read from the user (None for a null
/// pointer): the running task sleeps that long; always 0.
pub fn sys_nanosleep(sched: &mut Scheduler, req: Option<Timespec>) -> (r: isize)
    requires
        old(sched).wf(),
        req matches Some(ts) ==> timespec_ms(ts) <= usize::MAX,
    ensures
        r == 0,
        final(sched).wf(),
        req is None ==> *final(sched) == *old(sched),
        req matches Some(ts) ==> final(sched).tasks_view() == old(sched).tasks_view().update(
            old(sched).current_view() as int,
            crate::task::Task {
                state: crate::task::TaskState::Sleeping,
                wake_tick: crate::timer::wake_tick_after(old(sched).ticks_view(), timespec_ms(ts) as usize),
                ..old(sched).tasks_view()[old(sched).current_view() as int]
            },
        ) && final(sched).current_view() == old(sched).current_view() && final(sched).ticks_view() == old(sched).ticks_view(),
{
    if let Some(ts) = req {
        let ms = (ts.tv_sec as usize) * 1000 + (ts.tv_nsec as usize) / 1_000_000;
        crate::timer::sleep_ms(sched, ms);
    }
    0
}

/// What `capget(hdrp, datap)` stores: the capability version and pid 0 at
/// a non-null `hdrp` (then zeroed capability sets at a non-null `datap`);
/// always 0.
pub struct CapgetWrites {
    pub header: Option<(u32, u32)>,
    pub data: bool,
}

/// `capget(hdrp, datap)`: the stores to make; always 0.
pub fn sys_capget(hdrp: usize, datap: usize) -> (r: (isize, CapgetWrites))
    ensures
        r.0 == 0,
        r.1.header == (if hdrp != 0 { Some((0x2008_0522u32, 0u32)) } else { None::<(u32, u32)> }),
        r.1.data == (hdrp != 0 && datap != 0),
{
    if hdrp != 0 {
        (0, CapgetWrites { header: Some((0x2008_0522, 0)), data: datap != 0 })
    } else {
        (0, CapgetWrites { header: None, data: false })
    }
}

/// `getpid()`: the running task's index.
pub fn sys_getpid(sched: &Scheduler) -> (r: isize)
    requires
        sched.wf(),
    ensures
        r == sched.current_view() as isize,
{
    sched.current_task() as isize
}

/// `getuid()` and its kin: the running task's user id.
pub fn sys_getuid(sched: &Scheduler) -> (r: isize)
    requires
        sched.wf(),
    ensures
        r == sched.tasks_view()[sched.current_view() as int].user_id as isize,
{
    sched.current_user_id() as isize
}

/// `brk(addr)`: the fixed break.
pub fn sys_brk(addr: usize) -> (r: isize)
    ensures
        r == 0x1000_0000,
{
    0x1000_0000
}

/// `fstat(fd, buf)`: a stub, which fails with ENOSYS.
pub fn sys_fstat(fd: usize, stat_buf: usize) -> (r: isize)
    ensures
        r == ENOSYS,
{
    ENOSYS
}

/// `mmap(..)`: a stub, which fails with ENOSYS.
pub fn sys_mmap() -> (r: isize)
    ensures
        r == ENOSYS,
{
    ENOSYS
}

/// `exit(code)`: the exit is counted and the running task ends (the
/// kernel task stays); gives `code` and what the caller must free.
pub fn sys_exit(sched: &mut Scheduler, stats: &mut crate::stats::KernelStats, code: i32) -> (r: (isize, Option<crate::task::ExitPlan>))
    requires
        old(sched).wf(),
    ensures
        r.0 == code as isize,
        *final(stats) == (crate::stats::KernelStats { tasks_exited: crate::stats::bump(old(stats).tasks_exited), ..*old(stats) }),
        final(sched).wf(),
        final(sched).current_view() == old(sched).current_view(),
        old(sched).current_view() == 0 ==> r.1 is None && final(sched).tasks_view() == old(sched).tasks_view(),
        old(sched).current_view() != 0 ==> {
            let cur = old(sched).current_view();
            let t = old(sched).tasks_view()[cur as int];
            &&& r.1 matches Some(plan) && plan.frames@ == crate::task::nonzero(t.user_data_frames@.subrange(0, t.user_data_frame_count as int))
            &&& final(sched).tasks_view() == old(sched).tasks_view().update(cur as int,
                crate::task::Task { state: crate::task::TaskState::Unused, ..t })
        },
{
    crate::stats::count_task_exit(stats);
    let plan = sched.exit_current_task();
    (code as isize, plan)
}

} // verus!
