//! The system-wide descriptor table: maps (task id, fd) to a VFS node
//! index and an offset. Slot `task_id * MAX_FDS + fd` holds descriptor
//! `fd` of task `task_id`.
use vstd::prelude::*;
use crate::fs::Vfs;
use crate::task::MAX_TASKS;

verus! {

/// Maximum file descriptors per task.
pub const MAX_FDS: usize = 32;

/// A descriptor: VFS node index (-1 = unused) and current offset.
#[derive(Clone, Copy, PartialEq, Eq, Structural)]
pub struct FdEntry {
    pub node_idx: i32,
    pub offset: usize,
}

pub open spec fn empty_entry() -> FdEntry {
    FdEntry { node_idx: -1i32, offset: 0 }
}

impl FdEntry {
    /// An unused descriptor.
    pub fn empty() -> (e: Self)
        ensures
            e == empty_entry(),
    {
        FdEntry { node_idx: -1, offset: 0 }
    }
}

/// Slot of descriptor `fd` of task `task_id`.
pub open spec fn slot(task_id: int, fd: int) -> int {
    task_id * MAX_FDS + fd
}

/// `a + b` wrapping around at usize::MAX.
pub open spec fn wrap_add(a: usize, b: usize) -> usize {
    if a + b > usize::MAX {
        (a + b - (usize::MAX as int + 1)) as usize
    } else {
        (a + b) as usize
    }
}

/// Descriptors of every task, MAX_TASKS × MAX_FDS slots.
pub struct GlobalFdTable {
    entries: Vec<FdEntry>,
}

impl GlobalFdTable {
    pub closed spec fn entries_view(&self) -> Seq<FdEntry> {
        self.entries@
    }

    pub open spec fn wf(&self) -> bool {
        self.entries_view().len() == MAX_TASKS * MAX_FDS
    }

    /// The entry of descriptor `fd` of task `task_id`.
    pub open spec fn entry(&self, task_id: int, fd: int) -> FdEntry {
        self.entries_view()[slot(task_id, fd)]
    }

    /// Whether descriptor `fd` of task `task_id` is open.
    pub open spec fn is_open(&self, task_id: int, fd: int) -> bool {
        0 <= fd < MAX_FDS && self.entry(task_id, fd).node_idx != -1
    }

    /// The lowest descriptor of `task_id` at or after `fd` that is unused.
    pub open spec fn first_unused(&self, task_id: int, fd: int) -> Option<usize>
        decreases MAX_FDS - fd,
    {
        if fd >= MAX_FDS || fd < 0 {
            None
        } else if self.entry(task_id, fd).node_idx == -1 {
            Some(fd as usize)
        } else {
            self.first_unused(task_id, fd + 1)
        }
    }

    /// Number of open descriptors of `task_id` among the first `n`.
    pub open spec fn count_open(&self, task_id: int, n: int) -> nat
        decreases n,
    {
        if n <= 0 {
            0
        } else {
            self.count_open(task_id, n - 1) + if self.entry(task_id, n - 1).node_idx != -1 { 1nat } else { 0nat }
        }
    }

    /// Every descriptor of every task unused.
    pub fn new() -> (t: Self)
        ensures
            t.wf(),
            forall|i: int| 0 <= i < MAX_TASKS * MAX_FDS ==> #[trigger] t.entries_view()[i] == empty_entry(),
    {
        let mut entries: Vec<FdEntry> = Vec::new();
        let mut i: usize = 0;
        while i < MAX_TASKS * MAX_FDS
            invariant
                0 <= i <= MAX_TASKS * MAX_FDS,
                entries@.len() == i,
                forall|k: int| 0 <= k < i ==> #[trigger] entries@[k] == empty_entry(),
            decreases MAX_TASKS * MAX_FDS - i,
        {
            entries.push(FdEntry::empty());
            i = i + 1;
        }
        GlobalFdTable { entries }
    }
}

proof fn lemma_slot_bounds(task_id: int, fd: int)
    requires
        0 <= task_id < MAX_TASKS,
        0 <= fd < MAX_FDS,
    ensures
        0 <= slot(task_id, fd) < MAX_TASKS * MAX_FDS,
{
    assert(task_id * MAX_FDS <= (MAX_TASKS - 1) * MAX_FDS) by (nonlinear_arith)
        requires
            0 <= task_id < MAX_TASKS,
    ;
}

/// Flat index of (task_id, fd).
fn fd_index(task_id: usize, fd: usize) -> (r: usize)
    requires
        task_id < MAX_TASKS,
        fd < MAX_FDS,
    ensures
        r == slot(task_id as int, fd as int),
        r < MAX_TASKS * MAX_FDS,
{
    proof {
        lemma_slot_bounds(task_id as int, fd as int);
    }
    task_id * MAX_FDS + fd
}

/// Open the lowest unused descriptor of `task_id` on `vfs_node_idx`
/// (stored as an i32, truncating) at offset 0. The kernel task 0 cannot
/// open descriptors.
pub fn open(table: &mut GlobalFdTable, task_id: usize, vfs_node_idx: usize) -> (r: Result<usize, &'static str>)
    requires
        old(table).wf(),
        task_id < MAX_TASKS,
    ensures
        final(table).wf(),
        task_id == 0 ==> r == Err::<usize, &'static str>("kernel task cannot open fds") && *final(table) == *old(table),
        task_id != 0 ==> match old(table).first_unused(task_id as int, 0) {
            Some(fd) => r == Ok::<usize, &'static str>(fd) && final(table).entries_view() == old(table).entries_view().update(
                slot(task_id as int, fd as int),
                FdEntry { node_idx: vfs_node_idx as i32, offset: 0 },
            ),
            None => r == Err::<usize, &'static str>("too many open files") && *final(table) == *old(table),
        },
{
    if task_id == 0 {
        return Err("kernel task cannot open fds");
    }
    let mut fd: usize = 0;
    while fd < MAX_FDS
        invariant
            table.wf(),
            *table == *old(table),
            0 < task_id < MAX_TASKS,
            0 <= fd <= MAX_FDS,
            old(table).first_unused(task_id as int, 0) == old(table).first_unused(task_id as int, fd as int),
        decreases MAX_FDS - fd,
    {
        let idx = fd_index(task_id, fd);
        if table.entries[idx].node_idx == -1 {
            table.entries.set(idx, FdEntry { node_idx: vfs_node_idx as i32, offset: 0 });
            return Ok(fd);
        }
        fd = fd + 1;
    }
    Err("too many open files")
}

/// Close descriptor `fd` of `task_id`; "bad file descriptor" when it is
/// not open.
pub fn close(table: &mut GlobalFdTable, task_id: usize, fd: usize) -> (r: Result<(), &'static str>)
    requires
        old(table).wf(),
        task_id < MAX_TASKS,
    ensures
        final(table).wf(),
        old(table).is_open(task_id as int, fd as int) ==> r is Ok && final(table).entries_view()
            == old(table).entries_view().update(slot(task_id as int, fd as int), empty_entry()),
        !old(table).is_open(task_id as int, fd as int) ==> r == Err::<(), &'static str>("bad file descriptor")
            && *final(table) == *old(table),
{
    if fd >= MAX_FDS {
        return Err("bad file descriptor");
    }
    let idx = fd_index(task_id, fd);
    if table.entries[idx].node_idx == -1 {
        return Err("bad file descriptor");
    }
    table.entries.set(idx, FdEntry::empty());
    Ok(())
}

/// The VFS node of descriptor `fd` of `task_id`.
pub fn node(table: &GlobalFdTable, task_id: usize, fd: usize) -> (r: Result<usize, &'static str>)
    requires
        table.wf(),
        task_id < MAX_TASKS,
    ensures
        table.is_open(task_id as int, fd as int) ==> r == Ok::<usize, &'static str>(
            table.entry(task_id as int, fd as int).node_idx as usize,
        ),
        !table.is_open(task_id as int, fd as int) ==> r == Err::<usize, &'static str>("bad file descriptor"),
{
    if fd >= MAX_FDS {
        return Err("bad file descriptor");
    }
    let idx = fd_index(task_id, fd);
    if table.entries[idx].node_idx == -1 {
        return Err("bad file descriptor");
    }
    Ok(table.entries[idx].node_idx as usize)
}

/// The offset of descriptor `fd` of `task_id` (0 for an fd out of range).
pub fn offset(table: &GlobalFdTable, task_id: usize, fd: usize) -> (r: usize)
    requires
        table.wf(),
        task_id < MAX_TASKS,
    ensures
        fd < MAX_FDS ==> r == table.entry(task_id as int, fd as int).offset,
        fd >= MAX_FDS ==> r == 0,
{
    if fd >= MAX_FDS {
        return 0;
    }
    table.entries[fd_index(task_id, fd)].offset
}

/// Set the offset of descriptor `fd` of `task_id` (nothing for an fd out
/// of range).
pub fn set_offset(table: &mut GlobalFdTable, task_id: usize, fd: usize, new_offset: usize)
    requires
        old(table).wf(),
        task_id < MAX_TASKS,
    ensures
        final(table).wf(),
        fd < MAX_FDS ==> final(table).entries_view() == old(table).entries_view().update(
            slot(task_id as int, fd as int),
            FdEntry { offset: new_offset, ..old(table).entry(task_id as int, fd as int) },
        ),
        fd >= MAX_FDS ==> *final(table) == *old(table),
{
    if fd < MAX_FDS {
        let idx = fd_index(task_id, fd);
        let mut e = table.entries[idx];
        e.offset = new_offset;
        table.entries.set(idx, e);
    }
}

/// Number of open descriptors of `task_id`.
pub fn open_count(table: &GlobalFdTable, task_id: usize) -> (r: usize)
    requires
        table.wf(),
        task_id < MAX_TASKS,
    ensures
        r == table.count_open(task_id as int, MAX_FDS as int),
{
    let mut count: usize = 0;
    let mut fd: usize = 0;
    while fd < MAX_FDS
        invariant
            table.wf(),
            task_id < MAX_TASKS,
            0 <= fd <= MAX_FDS,
            count == table.count_open(task_id as int, fd as int),
            count <= fd,
        decreases MAX_FDS - fd,
    {
        if table.entries[fd_index(task_id, fd)].node_idx != -1 {
            count = count + 1;
        }
        fd = fd + 1;
    }
    count
}

/// Duplicate `old_fd` onto the lowest unused descriptor of `task_id`
/// (same node, same offset).
pub fn dup(table: &mut GlobalFdTable, task_id: usize, old_fd: usize) -> (r: Result<usize, &'static str>)
    requires
        old(table).wf(),
        task_id < MAX_TASKS,
    ensures
        final(table).wf(),
        !old(table).is_open(task_id as int, old_fd as int) ==> r == Err::<usize, &'static str>("bad file descriptor")
            && *final(table) == *old(table),
        old(table).is_open(task_id as int, old_fd as int) ==> match old(table).first_unused(task_id as int, 0) {
            Some(fd) => r == Ok::<usize, &'static str>(fd) && final(table).entries_view() == old(table).entries_view().update(
                slot(task_id as int, fd as int),
                old(table).entry(task_id as int, old_fd as int),
            ),
            None => r == Err::<usize, &'static str>("too many open files") && *final(table) == *old(table),
        },
{
    if old_fd >= MAX_FDS {
        return Err("bad file descriptor");
    }
    let old_idx = fd_index(task_id, old_fd);
    if table.entries[old_idx].node_idx == -1 {
        return Err("bad file descriptor");
    }
    let old_entry = table.entries[old_idx];
    let mut fd: usize = 0;
    while fd < MAX_FDS
        invariant
            table.wf(),
            *table == *old(table),
            task_id < MAX_TASKS,
            old(table).is_open(task_id as int, old_fd as int),
            old_entry == old(table).entry(task_id as int, old_fd as int),
            0 <= fd <= MAX_FDS,
            old(table).first_unused(task_id as int, 0) == old(table).first_unused(task_id as int, fd as int),
        decreases MAX_FDS - fd,
    {
        let idx = fd_index(task_id, fd);
        if table.entries[idx].node_idx == -1 {
            table.entries.set(idx, old_entry);
            return Ok(fd);
        }
        fd = fd + 1;
    }
    Err("too many open files")
}

/// Make `new_fd` of `task_id` a copy of `old_fd` (replacing whatever it
/// held); nothing changes when the two are the same.
pub fn dup2(table: &mut GlobalFdTable, task_id: usize, old_fd: usize, new_fd: usize) -> (r: Result<usize, &'static str>)
    requires
        old(table).wf(),
        task_id < MAX_TASKS,
    ensures
        final(table).wf(),
        (old_fd >= MAX_FDS || new_fd >= MAX_FDS) ==> r == Err::<usize, &'static str>("bad file descriptor")
            && *final(table) == *old(table),
        (old_fd < MAX_FDS && new_fd < MAX_FDS && old_fd == new_fd) ==> r == Ok::<usize, &'static str>(new_fd)
            && *final(table) == *old(table),
        (old_fd < MAX_FDS && new_fd < MAX_FDS && old_fd != new_fd && !old(table).is_open(task_id as int, old_fd as int))
            ==> r == Err::<usize, &'static str>("bad file descriptor") && *final(table) == *old(table),
        (new_fd < MAX_FDS && old_fd != new_fd && old(table).is_open(task_id as int, old_fd as int)) ==> r == Ok::<
            usize,
            &'static str,
        >(new_fd) && final(table).entries_view() == old(table).entries_view().update(
            slot(task_id as int, new_fd as int),
            old(table).entry(task_id as int, old_fd as int),
        ),
{
    if old_fd >= MAX_FDS || new_fd >= MAX_FDS {
        return Err("bad file descriptor");
    }
    if old_fd == new_fd {
        return Ok(new_fd);
    }
    let old_idx = fd_index(task_id, old_fd);
    if table.entries[old_idx].node_idx == -1 {
        return Err("bad file descriptor");
    }
    let old_entry = table.entries[old_idx];
    let new_idx = fd_index(task_id, new_fd);
    table.entries.set(new_idx, old_entry);
    Ok(new_fd)
}

/// The offset `lseek` moves to: from the start (whence 0), from the
/// current offset (1) or from the end of the file (2), wrapping on
/// overflow; None for another `whence`.
pub open spec fn seek_target(current: usize, file_size: usize, offset: isize, whence: usize) -> Option<usize> {
    if whence == 0 {
        Some(offset as usize)
    } else if whence == 1 {
        Some(wrap_add(current, offset as usize))
    } else if whence == 2 {
        Some(wrap_add(file_size, offset as usize))
    } else {
        None
    }
}

/// The size the VFS records for node `node_idx` (0 when there is none).
pub open spec fn size_of_node(vfs: &Vfs, node_idx: usize) -> usize {
    if node_idx < vfs.nodes_view().len() {
        vfs.nodes_view()[node_idx as int].size
    } else {
        0
    }
}

/// Move the offset of descriptor `fd` of `task_id`; returns the new
/// offset, or -1 for a bad descriptor or `whence`.
pub fn lseek(table: &mut GlobalFdTable, vfs: &Vfs, task_id: usize, fd: usize, offset: isize, whence: usize) -> (r: isize)
    requires
        old(table).wf(),
        task_id < MAX_TASKS,
    ensures
        final(table).wf(),
        !old(table).is_open(task_id as int, fd as int) ==> r == -1 && *final(table) == *old(table),
        old(table).is_open(task_id as int, fd as int) ==> {
            let e = old(table).entry(task_id as int, fd as int);
            match seek_target(e.offset, size_of_node(vfs, e.node_idx as usize), offset, whence) {
                None => r == -1 && *final(table) == *old(table),
                Some(t) => r == t as isize && final(table).entries_view() == old(table).entries_view().update(
                    slot(task_id as int, fd as int),
                    FdEntry { offset: t, ..e },
                ),
            }
        },
{
    if fd >= MAX_FDS {
        return -1;
    }
    let idx = fd_index(task_id, fd);
    if table.entries[idx].node_idx == -1 {
        return -1;
    }
    let node_idx = table.entries[idx].node_idx as usize;
    let file_size = crate::fs::get_file_size(vfs, node_idx);
    let new_offset = if whence == 0 {
        offset as usize
    } else if whence == 1 {
        table.entries[idx].offset.wrapping_add(offset as usize)
    } else if whence == 2 {
        file_size.wrapping_add(offset as usize)
    } else {
        return -1;
    };
    let mut e = table.entries[idx];
    e.offset = new_offset;
    table.entries.set(idx, e);
    new_offset as isize
}

} // verus!
