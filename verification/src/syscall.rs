//! The system call table and dispatch decision: which calls exist, who
//! may make them, and what happens on an unknown or forbidden number.
//! Running the chosen handler is left to the caller.
use vstd::prelude::*;
use crate::stats::{KernelStats, bump, SYSCALL_SLOTS};
use crate::task::Scheduler;
use crate::fs::fat32::Fat32Fs;
use crate::fs::fat32_dir::{EntryView, dir_list, listing_view};
use crate::fs::fat32::DirEntry32;
use crate::fs::fat32_file::file_read;
use crate::drivers::ide::IdeDisk;
use crate::elf::{ElfImage, parse_elf, parse_elf_spec};
use crate::address_space::{replace_address_space, program_replaced, image_fits, owns_tables};
use crate::physmem::{PhysMem, covers};
use crate::frame::FrameAllocator;
use crate::text::str_from_utf8;
use vstd::utf8::{valid_utf8, decode_utf8};
use vstd::string::StringSliceAdditionalSpecFns;

verus! {

pub const ENOSYS: isize = -38;
pub const EPERM: isize = -13;
pub const EINVAL: isize = -22;
pub const EFAULT: isize = -14;

pub const FLAG_ROOT_ONLY: u16 = 0x0001;
pub const FLAG_BLOCKING: u16 = 0x0002;
pub const FLAG_FASTPATH: u16 = 0x0004;
pub const FLAG_MAY_SLEEP: u16 = 0x0008;
pub const FLAG_CAN_PAGEFAULT: u16 = 0x0010;

/// Size of the dispatch table.
pub const TABLE_SIZE: usize = 256;

/// The system calls, numbered 0 to 13 in this order.
#[derive(Clone, Copy, PartialEq, Eq, Debug, Structural)]
pub enum Syscall {
    Write,
    Exit,
    Sleep,
    Read,
    GetPid,
    Yield,
    GetTime,
    GetUptime,
    Version,
    KernelInfo,
    MemoryInfo,
    TaskInfo,
    DebugLog,
    Execve,
}

pub open spec fn syscall_number(s: Syscall) -> usize {
    match s {
        Syscall::Write => 0,
        Syscall::Exit => 1,
        Syscall::Sleep => 2,
        Syscall::Read => 3,
        Syscall::GetPid => 4,
        Syscall::Yield => 5,
        Syscall::GetTime => 6,
        Syscall::GetUptime => 7,
        Syscall::Version => 8,
        Syscall::KernelInfo => 9,
        Syscall::MemoryInfo => 10,
        Syscall::TaskInfo => 11,
        Syscall::DebugLog => 12,
        Syscall::Execve => 13,
    }
}

impl Syscall {
    /// The call's number.
    pub fn number(self) -> (r: usize)
        ensures
            r == syscall_number(self),
    {
        match self {
            Syscall::Write => 0,
            Syscall::Exit => 1,
            Syscall::Sleep => 2,
            Syscall::Read => 3,
            Syscall::GetPid => 4,
            Syscall::Yield => 5,
            Syscall::GetTime => 6,
            Syscall::GetUptime => 7,
            Syscall::Version => 8,
            Syscall::KernelInfo => 9,
            Syscall::MemoryInfo => 10,
            Syscall::TaskInfo => 11,
            Syscall::DebugLog => 12,
            Syscall::Execve => 13,
        }
    }
}

/// A table entry: name, handler, the only user id allowed (if any),
/// argument count and flags.
#[derive(Clone, Copy)]
pub struct SyscallEntry {
    pub name: &'static str,
    pub handler: Option<Syscall>,
    pub required_uid: Option<u32>,
    pub arg_count: u8,
    pub flags: u16,
}

/// The handler at slot `num`, the user id it requires, its argument count
/// and flags; None for an empty slot.
pub open spec fn entry_spec(num: int) -> Option<(Syscall, Option<u32>, u8, u16)> {
    if num == 0 { Some((Syscall::Write, None, 3u8, FLAG_CAN_PAGEFAULT)) }
    else if num == 1 { Some((Syscall::Exit, None, 0u8, 0u16)) }
    else if num == 2 { Some((Syscall::Sleep, None, 1u8, FLAG_MAY_SLEEP)) }
    else if num == 3 { Some((Syscall::Read, None, 3u8, FLAG_CAN_PAGEFAULT)) }
    else if num == 4 { Some((Syscall::GetPid, None, 0u8, FLAG_FASTPATH)) }
    else if num == 5 { Some((Syscall::Yield, None, 0u8, 0u16)) }
    else if num == 6 { Some((Syscall::GetTime, None, 0u8, FLAG_FASTPATH)) }
    else if num == 7 { Some((Syscall::GetUptime, None, 0u8, FLAG_FASTPATH)) }
    else if num == 8 { Some((Syscall::Version, None, 0u8, FLAG_FASTPATH)) }
    else if num == 9 { Some((Syscall::KernelInfo, None, 0u8, FLAG_FASTPATH)) }
    else if num == 10 { Some((Syscall::MemoryInfo, None, 1u8, FLAG_CAN_PAGEFAULT)) }
    else if num == 11 { Some((Syscall::TaskInfo, None, 2u8, FLAG_CAN_PAGEFAULT)) }
    else if num == 12 { Some((Syscall::DebugLog, Some(0u32), 2u8, FLAG_CAN_PAGEFAULT)) }
    else if num == 13 { Some((Syscall::Execve, None, 3u8, FLAG_CAN_PAGEFAULT)) }
    else { None }
}

/// The entry at slot `num` of the dispatch table.
pub fn table_entry(num: usize) -> (r: Option<SyscallEntry>)
    ensures
        match entry_spec(num as int) {
            Some((h, uid, n, f)) => r matches Some(e) && e.handler == Some(h) && e.required_uid == uid && e.arg_count == n
                && e.flags == f,
            None => r is None,
        },
{
    let e = |name: &'static str, h: Syscall, uid: Option<u32>, n: u8, f: u16| -> (r: SyscallEntry)
        ensures
            r.handler == Some(h) && r.required_uid == uid && r.arg_count == n && r.flags == f,
        { SyscallEntry { name, handler: Some(h), required_uid: uid, arg_count: n, flags: f } };
    if num == 0 { Some(e("Write", Syscall::Write, None, 3, FLAG_CAN_PAGEFAULT)) }
    else if num == 1 { Some(e("Exit", Syscall::Exit, None, 0, 0)) }
    else if num == 2 { Some(e("Sleep", Syscall::Sleep, None, 1, FLAG_MAY_SLEEP)) }
    else if num == 3 { Some(e("Read", Syscall::Read, None, 3, FLAG_CAN_PAGEFAULT)) }
    else if num == 4 { Some(e("GetPid", Syscall::GetPid, None, 0, FLAG_FASTPATH)) }
    else if num == 5 { Some(e("Yield", Syscall::Yield, None, 0, 0)) }
    else if num == 6 { Some(e("GetTime", Syscall::GetTime, None, 0, FLAG_FASTPATH)) }
    else if num == 7 { Some(e("GetUptime", Syscall::GetUptime, None, 0, FLAG_FASTPATH)) }
    else if num == 8 { Some(e("Version", Syscall::Version, None, 0, FLAG_FASTPATH)) }
    else if num == 9 { Some(e("KernelInfo", Syscall::KernelInfo, None, 0, FLAG_FASTPATH)) }
    else if num == 10 { Some(e("MemoryInfo", Syscall::MemoryInfo, None, 1, FLAG_CAN_PAGEFAULT)) }
    else if num == 11 { Some(e("TaskInfo", Syscall::TaskInfo, None, 2, FLAG_CAN_PAGEFAULT)) }
    else if num == 12 { Some(e("DebugLog", Syscall::DebugLog, Some(0), 2, FLAG_CAN_PAGEFAULT)) }
    else if num == 13 { Some(e("Execve", Syscall::Execve, None, 3, FLAG_CAN_PAGEFAULT)) }
    else { None }
}

/// What dispatching call `num` for a caller with user id `uid` does:
/// the handler to run, or the error returned.
pub open spec fn dispatch_spec(num: usize, uid: u32) -> Result<Syscall, isize> {
    if num >= TABLE_SIZE {
        Err(ENOSYS)
    } else {
        match entry_spec(num as int) {
            None => Err(ENOSYS),
            Some((h, req, _, _)) => match req {
                Some(r) => if uid != r { Err(EPERM) } else { Ok(h) },
                None => Ok(h),
            },
        }
    }
}

/// Count call `num` in `stats` and decide it for the running task of
/// `sched` (its user id is checked against the entry's).
pub fn dispatch(stats: &mut KernelStats, sched: &Scheduler, num: usize) -> (r: Result<Syscall, isize>)
    requires
        sched.wf(),
    ensures
        r == dispatch_spec(num, sched.tasks_view()[sched.current_view() as int].user_id),
        final(stats).syscalls_total == bump(old(stats).syscalls_total),
        num < SYSCALL_SLOTS ==> final(stats).syscalls_by_num@ == old(stats).syscalls_by_num@.update(
            num as int,
            bump(old(stats).syscalls_by_num@[num as int]),
        ),
        num >= SYSCALL_SLOTS ==> final(stats).syscalls_by_num == old(stats).syscalls_by_num,
{
    crate::stats::count_syscall(stats, num);
    if num >= TABLE_SIZE {
        return Err(ENOSYS);
    }
    let entry = match table_entry(num) {
        Some(e) => e,
        None => {
            return Err(ENOSYS);
        },
    };
    match entry.required_uid {
        Some(required) => {
            let caller = sched.current_user_id();
            if caller != required {
                return Err(EPERM);
            }
        },
        None => {},
    }
    match entry.handler {
        Some(h) => Ok(h),
        None => Err(ENOSYS),
    }
}

/// A call that only a given user may make is refused to everyone else.
pub proof fn law_root_only_refused(num: usize, uid: u32)
    requires
        num < TABLE_SIZE,
        entry_spec(num as int) matches Some((_, Some(r), _, _)) && uid != r,
    ensures
        dispatch_spec(num, uid) == Err::<Syscall, isize>(EPERM),
{
}

/// The packed kernel info word: version 0.1, x86_64, features 0x07.
pub fn kernel_info() -> (r: isize)
    ensures
        r == 0x1_0000_0007u64 as isize,
{
    0x1_0000_0007u64 as isize
}

/// Status code of a task state as reported by the task-info call.
pub fn task_state_code(s: crate::task::TaskState) -> (r: u64)
    ensures
        r == match s {
            crate::task::TaskState::Unused => 0u64,
            crate::task::TaskState::Ready => 1u64,
            crate::task::TaskState::Running => 2u64,
            crate::task::TaskState::Sleeping => 3u64,
        },
{
    match s {
        crate::task::TaskState::Unused => 0,
        crate::task::TaskState::Ready => 1,
        crate::task::TaskState::Running => 2,
        crate::task::TaskState::Sleeping => 3,
    }
}

/// What the task-info call reports on task `pid`: its number, state code
/// and user id; EINVAL for a pid out of range.
pub fn task_info(sched: &Scheduler, pid: usize) -> (r: Result<[u64; 3], isize>)
    requires
        sched.wf(),
    ensures
        pid >= crate::task::MAX_TASKS ==> r == Err::<[u64; 3], isize>(EINVAL),
        pid < crate::task::MAX_TASKS ==> (r matches Ok(a) && a@ == seq![
            pid as u64,
            match sched.tasks_view()[pid as int].state {
                crate::task::TaskState::Unused => 0u64,
                crate::task::TaskState::Ready => 1u64,
                crate::task::TaskState::Running => 2u64,
                crate::task::TaskState::Sleeping => 3u64,
            },
            sched.tasks_view()[pid as int].user_id as u64,
        ]),
{
    if pid >= crate::task::MAX_TASKS {
        return Err(EINVAL);
    }
    let st = task_state_code(sched.get_task_state(pid));
    let uid = sched.get_task_uid(pid) as u64;
    let a: [u64; 3] = [pid as u64, st, uid];
    assert(a@ =~= seq![pid as u64, st, uid]);
    Ok(a)
}

/// Largest write the console-write call takes.
pub const MAX_WRITE_LEN: usize = 256;

/// Largest write the debug-log call takes.
pub const MAX_DEBUGLOG_LEN: usize = 256;

/// What the memory-info call reports to the kernel task: frames in all,
/// free, and in use. A user task gets EFAULT.
pub fn memory_info(sched: &Scheduler, frames: &crate::frame::FrameAllocator) -> (r: Result<[u64; 3], isize>)
    requires
        sched.wf(),
        frames.wf(),
    ensures
        sched.current_view() != 0 ==> r == Err::<[u64; 3], isize>(EFAULT),
        sched.current_view() == 0 ==> {
            let total = frames.total_ram_view() / 4096;
            let free = crate::frame::count_free(frames.bitmap_view(), frames.frame_count() as int);
            r matches Ok(a) && a@ == seq![total as u64, free as u64, (total - free) as u64]
        },
{
    if sched.current_task() != 0 {
        return Err(EFAULT);
    }
    let total = frames.total_ram() / crate::frame::FRAME_SIZE;
    let free = frames.free_frame_count();
    proof {
        frames.lemma_wf();
        crate::frame::lemma_count_free_bound(frames.bitmap_view(), frames.frame_count() as int);
    }
    let a: [u64; 3] = [total as u64, free as u64, (total - free) as u64];
    assert(a@ =~= seq![total as u64, free as u64, (total - free) as u64]);
    Ok(a)
}

/// How many bytes a console write of `len` bytes (at most `max`) takes,
/// or -1/EINVAL when it asks for more: the console-write call refuses
/// with -1, the debug-log call with EINVAL.
pub fn write_len(len: usize, max: usize, refusal: isize) -> (r: Result<usize, isize>)
    ensures
        len > max ==> r == Err::<usize, isize>(refusal),
        len <= max ==> r == Ok::<usize, isize>(len),
{
    if len > max {
        Err(refusal)
    } else {
        Ok(len)
    }
}

/// What a system call comes to, as far as the kernel's own state decides
/// it: a value to return at once; `len` bytes at the caller's buffer to
/// send to the serial port (a call from the kernel task, which then
/// returns `len`); or a handler that must run outside (user memory, the
/// CPU, the disk).
#[derive(Clone, Copy, PartialEq, Eq, Debug, Structural)]
pub enum CallOutcome {
    Return(isize),
    EmitKernel(usize),
    Run(Syscall),
}

/// The outcome of call `num` with arguments `a0`, `a1` for the running
/// task `cur` of user id `uid`, at tick `ticks`.
pub open spec fn call_outcome_spec(num: usize, a0: usize, a1: usize, cur: usize, uid: u32, ticks: usize) -> CallOutcome {
    match dispatch_spec(num, uid) {
        Err(e) => CallOutcome::Return(e),
        Ok(h) => match h {
            Syscall::Read => CallOutcome::Return(0),
            Syscall::GetPid => CallOutcome::Return(cur as isize),
            Syscall::GetTime => CallOutcome::Return(((ticks * crate::timer::MS_PER_TICK) % (usize::MAX as int + 1)) as isize),
            Syscall::GetUptime => CallOutcome::Return(ticks as isize),
            Syscall::KernelInfo => CallOutcome::Return(0x1_0000_0007u64 as isize),
            Syscall::Write => if a1 > MAX_WRITE_LEN {
                CallOutcome::Return(-1isize)
            } else if cur == 0 {
                CallOutcome::EmitKernel(a1)
            } else {
                CallOutcome::Run(h)
            },
            Syscall::DebugLog => if a1 > MAX_DEBUGLOG_LEN {
                CallOutcome::Return(EINVAL)
            } else if cur == 0 {
                CallOutcome::EmitKernel(a1)
            } else {
                CallOutcome::Run(h)
            },
            _ => CallOutcome::Run(h),
        },
    }
}

/// The read call: no input source exists for user tasks, so it reads
/// nothing.
pub fn syscall_read(_buf: usize, _len: usize, _arg2: usize) -> (r: isize)
    ensures
        r == 0,
{
    0
}

/// Count call `num` (arguments `a0`, `a1`, `a2`) and decide it for the
/// running task: the calls that need only the kernel's state are answered
/// here.
pub fn call_outcome(stats: &mut KernelStats, sched: &Scheduler, num: usize, a0: usize, a1: usize, a2: usize) -> (r: CallOutcome)
    requires
        sched.wf(),
    ensures
        r == call_outcome_spec(num, a0, a1, sched.current_view(), sched.tasks_view()[sched.current_view() as int].user_id, sched.ticks_view()),
        final(stats).syscalls_total == bump(old(stats).syscalls_total),
        num < SYSCALL_SLOTS ==> final(stats).syscalls_by_num@ == old(stats).syscalls_by_num@.update(
            num as int,
            bump(old(stats).syscalls_by_num@[num as int]),
        ),
        num >= SYSCALL_SLOTS ==> final(stats).syscalls_by_num == old(stats).syscalls_by_num,
{
    let h = match dispatch(stats, sched, num) {
        Err(e) => {
            return CallOutcome::Return(e);
        },
        Ok(h) => h,
    };
    let cur = sched.current_task();
    match h {
        Syscall::Read => CallOutcome::Return(syscall_read(a0, a1, a2)),
        Syscall::GetPid => CallOutcome::Return(cur as isize),
        Syscall::GetTime => CallOutcome::Return(crate::timer::uptime_ms(sched) as isize),
        Syscall::GetUptime => CallOutcome::Return(crate::timer::ticks(sched) as isize),
        Syscall::KernelInfo => CallOutcome::Return(kernel_info()),
        Syscall::Write => match write_len(a1, MAX_WRITE_LEN, -1) {
            Err(e) => CallOutcome::Return(e),
            Ok(n) => if cur == 0 {
                CallOutcome::EmitKernel(n)
            } else {
                CallOutcome::Run(h)
            },
        },
        Syscall::DebugLog => match write_len(a1, MAX_DEBUGLOG_LEN, EINVAL) {
            Err(e) => CallOutcome::Return(e),
            Ok(n) => if cur == 0 {
                CallOutcome::EmitKernel(n)
            } else {
                CallOutcome::Run(h)
            },
        },
        _ => CallOutcome::Run(h),
    }
}

/// Largest program file that execve loads (1 MiB).
pub const MAX_EXEC_SIZE: u32 = 0x10_0000;

/// ENOENT and ENOEXEC, as execve returns them.
pub const ENOENT: isize = -2;
pub const ENOEXEC: isize = -8;

/// ENOMEM: execve could not set up the new address space.
pub const ENOMEM: isize = -12;

/// `c` with an ASCII capital letter turned into its small letter.
pub open spec fn ascii_fold(c: char) -> u32 {
    if 'A' <= c <= 'Z' { (c as u32 + 32) as u32 } else { c as u32 }
}

/// Whether `a` and `b` are the same text when ASCII letters are compared
/// without regard to case.
pub open spec fn same_ignoring_ascii_case(a: Seq<char>, b: Seq<char>) -> bool {
    &&& a.len() == b.len()
    &&& forall|i: int| 0 <= i < a.len() ==> #[trigger] ascii_fold(a[i]) == ascii_fold(b[i])
}

/// The first entry from `i` on of the listing `v` named `name` (ASCII
/// letters compared without case).
pub open spec fn first_named(v: Seq<EntryView>, name: Seq<char>, i: int) -> Option<EntryView>
    decreases v.len() - i,
{
    if i < 0 || i >= v.len() {
        None
    } else if same_ignoring_ascii_case(v[i].0, name) {
        Some(v[i])
    } else {
        first_named(v, name, i + 1)
    }
}

/// The program file execve finds for the path bytes `path`: its contents,
/// or the error returned (ENOEXEC for a path that is not UTF-8; ENOENT
/// when nothing is mounted, the root cannot be listed, or no file of
/// that name with a data cluster is in the root directory; ENOEXEC for an
/// empty file, one over 1 MiB, or one that cannot be read whole).
pub open spec fn exec_file(fs: Fat32Fs, img: Seq<u8>, total: int, mounted: bool, path: Seq<u8>) -> Result<Seq<u8>, isize> {
    if !valid_utf8(path) {
        Err(ENOEXEC)
    } else if !mounted {
        Err(ENOENT)
    } else {
        match dir_list(fs, img, total, fs.root_cluster as int, 0).unwrap() {
            Err(_) => Err(ENOENT),
            Ok(v) => match first_named(v, decode_utf8(path), 0) {
                None => Err(ENOENT),
                Some(e) => if e.3 || e.1 < 2 {
                    Err(ENOENT)
                } else if e.2 == 0 || e.2 > MAX_EXEC_SIZE {
                    Err(ENOEXEC)
                } else {
                    let o = file_read(fs, img, total, e.1 as int, e.2 as int).unwrap();
                    if o.1 is Some || o.0.len() != e.2 { Err(ENOEXEC) } else { Ok(o.0) }
                },
            },
        }
    }
}

/// What execve needs to be computed without overflow: the root listing
/// and the file's clusters lie within 32-bit sector numbers, and the
/// segments of a program that parses leave room below the end of the
/// address space.
pub open spec fn exec_computable(fs: Fat32Fs, img: Seq<u8>, total: int, mounted: bool, path: Seq<u8>) -> bool {
    valid_utf8(path) && mounted ==> {
        &&& dir_list(fs, img, total, fs.root_cluster as int, 0) is Some
        &&& match dir_list(fs, img, total, fs.root_cluster as int, 0).unwrap() {
            Ok(v) => match first_named(v, decode_utf8(path), 0) {
                Some(e) => !e.3 && e.1 >= 2 && 0 < e.2 <= MAX_EXEC_SIZE ==> file_read(fs, img, total, e.1 as int, e.2 as int) is Some,
                None => true,
            },
            Err(_) => true,
        }
        &&& match exec_file(fs, img, total, mounted, path) {
            Ok(bytes) => match parse_elf_spec(bytes) {
                Ok((entry, segs)) => segs.len() <= 8 && forall|i: int| 0 <= i < segs.len() ==> #[trigger] segs[i].vaddr
                    + segs[i].memsz + 4096 <= usize::MAX && segs[i].data_offset + segs[i].memsz + 4096 <= usize::MAX
                    && segs[i].data_offset + segs[i].filesz <= usize::MAX,
                Err(_) => true,
            },
            Err(_) => true,
        }
    }
}

/// Are `a` and `b` the same when ASCII letters are compared without case?
fn eq_ignore_ascii_case(a: &str, b: &str) -> (r: bool)
    ensures
        r == same_ignoring_ascii_case(a@, b@),
{
    let n = a.unicode_len();
    if n != b.unicode_len() {
        return false;
    }
    let mut i: usize = 0;
    while i < n
        invariant
            n == a@.len(),
            a@.len() == b@.len(),
            0 <= i <= n,
            forall|k: int| 0 <= k < i ==> #[trigger] ascii_fold(a@[k]) == ascii_fold(b@[k]),
        decreases n - i,
    {
        let x = a.get_char(i);
        let y = b.get_char(i);
        let fx: u32 = if 'A' <= x && x <= 'Z' { x as u32 + 32 } else { x as u32 };
        let fy: u32 = if 'A' <= y && y <= 'Z' { y as u32 + 32 } else { y as u32 };
        assert(fx == ascii_fold(a@[i as int]) && fy == ascii_fold(b@[i as int]));
        if fx != fy {
            return false;
        }
        i = i + 1;
    }
    true
}

/// The first entry of `entries` named `name`, ASCII letters compared
/// without case.
pub fn find_named(entries: &Vec<DirEntry32>, name: &str) -> (r: Option<usize>)
    ensures
        match r {
            None => first_named(listing_view(entries@), name@, 0) is None,
            Some(k) => k < entries@.len() && first_named(listing_view(entries@), name@, 0) == Some(listing_view(entries@)[k as int]),
        },
{
    let ghost v = listing_view(entries@);
    let mut i: usize = 0;
    while i < entries.len()
        invariant
            0 <= i <= entries.len(),
            v == listing_view(entries@),
            first_named(v, name@, 0) == first_named(v, name@, i as int),
        decreases entries.len() - i,
    {
        if eq_ignore_ascii_case(entries[i].name.as_str(), name) {
            return Some(i);
        }
        i = i + 1;
    }
    None
}

/// execve for the running task: load the program named by the path bytes
/// `path` (up to its NUL) from the root directory of the FAT32 volume
/// `fs` on `disk` (`mounted` tells whether one is), parse it, and give the
/// task the new program (its kernel stack ends at `kstack_top`). Gives 0,
/// or ENOENT, ENOEXEC or ENOMEM.
pub fn syscall_execve(fs: &Fat32Fs, disk: &IdeDisk, mounted: bool, path: &[u8], sched: &mut Scheduler, mem: &mut PhysMem,
    frames: &mut FrameAllocator, stats: &mut KernelStats, kernel_pml4: usize, kstack_top: u64) -> (r: isize)
    requires
        fs.wf(),
        disk.wf(),
        old(sched).wf(),
        old(frames).wf(),
        covers(old(mem)@, *old(frames)),
        kernel_pml4 % 4096 == 0,
        kstack_top % 8 == 0,
        crate::task_frames::FRAME_BYTES <= kstack_top,
        owns_tables(old(sched).tasks_view()[old(sched).current_view() as int], old(sched).tasks_view()[0].page_table_root)
            ==> old(sched).tasks_view()[old(sched).current_view() as int].page_table_root % 4096 == 0,
        exec_computable(*fs, disk.contents(), disk.total_view() as int, mounted, path@),
    ensures
        final(sched).current_view() == old(sched).current_view(),
        match exec_file(*fs, disk.contents(), disk.total_view() as int, mounted, path@) {
            Err(e) => r == e && *final(sched) == *old(sched) && final(mem)@ == old(mem)@ && *final(frames) == *old(frames),
            Ok(bytes) => match parse_elf_spec(bytes) {
                Err(_) => r == ENOEXEC && *final(sched) == *old(sched) && final(mem)@ == old(mem)@ && *final(frames) == *old(frames),
                Ok((entry, segs)) => {
                    &&& r == 0 || r == ENOMEM
                    &&& r == 0 ==> exists|image: ElfImage| image.entry_point == entry && image.loaded() == segs
                        && #[trigger] program_replaced(old(sched).tasks_view(), old(mem)@, *old(frames), final(sched).tasks_view(),
                            final(mem)@, *final(frames), kernel_pml4 as u64, kstack_top, old(sched).current_view() as int,
                            image, bytes)
                    &&& r == ENOMEM && old(sched).current_view() == 0 ==> *final(sched) == *old(sched)
                        && final(mem)@ == old(mem)@ && *final(frames) == *old(frames)
                    &&& r == ENOMEM && old(sched).current_view() != 0 ==> forall|g: int|
                        0 <= g < final(frames).frame_count() ==> #[trigger] final(frames).used(g)
                },
            },
        },
{
    let name = match str_from_utf8(path) {
        Some(s) => s,
        None => {
            return ENOEXEC;
        },
    };
    proof {
        vstd::utf8::encode_utf8_decode_utf8(name@);
        assert(decode_utf8(path@) == name@);
    }
    if !mounted {
        return ENOENT;
    }
    let entries = match fs.readdir(disk, fs.root_cluster()) {
        Ok(v) => v,
        Err(_) => {
            return ENOENT;
        },
    };
    let ghost v = crate::fs::fat32_dir::listing_view(entries@);
    let found = find_named(&entries, name);
    let k = match found {
        Some(k) => k,
        None => {
            return ENOENT;
        },
    };
    let is_dir = entries[k].is_dir;
    let cluster = entries[k].cluster;
    let size = entries[k].size;
    if is_dir || cluster < 2 {
        return ENOENT;
    }
    if size == 0 || size > MAX_EXEC_SIZE {
        return ENOEXEC;
    }
    let mut elf_buf = crate::bytes::zeroed_vec(size as usize);
    match fs.read_file_data(disk, cluster, size, elf_buf.as_mut_slice()) {
        Ok(n) => {
            if n != size as usize {
                return ENOEXEC;
            }
        },
        Err(_) => {
            return ENOEXEC;
        },
    }
    proof {
        assert(elf_buf@ =~= file_read(*fs, disk.contents(), disk.total_view() as int, cluster as int, size as int).unwrap().0);
        assert(exec_file(*fs, disk.contents(), disk.total_view() as int, mounted, path@) == Ok::<Seq<u8>, isize>(elf_buf@));
    }
    let image = match parse_elf(elf_buf.as_slice()) {
        Ok(img) => img,
        Err(_) => {
            return ENOEXEC;
        },
    };
    proof {
        assert forall|i: int| 0 <= i < image.segment_count implies #[trigger] image.segments@[i].vaddr
            + image.segments@[i].memsz + 4096 <= usize::MAX && image.segments@[i].data_offset + image.segments@[i].memsz + 4096
            <= usize::MAX && image.segments@[i].data_offset + image.segments@[i].filesz <= usize::MAX by {
            assert(image.segments@[i] == image.loaded()[i]);
        }
        assert(image_fits(image));
    }
    let task_idx = sched.current_task();
    match replace_address_space(sched, mem, frames, stats, kernel_pml4, kstack_top, task_idx, &image, elf_buf.as_slice()) {
        Ok(_) => 0,
        Err(_) => ENOMEM,
    }
}

/// Nothing to set up beyond the architecture's entry vector.
pub fn init() {
}

} // verus!
