//! Per-process file descriptor table: which descriptors are open, on which
//! node, at which offset and in which mode.
use vstd::prelude::*;

verus! {

/// Maximum file descriptors per process.
pub const MAX_FDS: usize = 64;

/// Open mode for a file descriptor.
#[derive(Clone, Copy, PartialEq, Eq, Debug, Structural)]
pub enum OpenMode {
    Read,
    Write,
    ReadWrite,
    Append,
}

/// A file descriptor entry.
#[derive(Clone, Copy, PartialEq, Eq, Structural)]
pub struct FdEntry {
    /// VFS node index (-1 = unused).
    pub node_idx: i32,
    /// Current offset in the file.
    pub offset: usize,
    /// Open mode.
    pub mode: OpenMode,
    /// Whether this descriptor is in use.
    pub in_use: bool,
}

/// The entry of a closed descriptor.
pub open spec fn empty_entry() -> FdEntry {
    FdEntry { node_idx: -1i32, offset: 0, mode: OpenMode::Read, in_use: false }
}

impl FdEntry {
    /// A closed descriptor.
    pub fn empty() -> (e: Self)
        ensures
            e == empty_entry(),
    {
        FdEntry { node_idx: -1, offset: 0, mode: OpenMode::Read, in_use: false }
    }
}

/// Number of entries in use among the first `n`.
pub open spec fn count_in_use(s: Seq<FdEntry>, n: int) -> nat
    decreases n,
{
    if n <= 0 {
        0
    } else {
        count_in_use(s, n - 1) + if s[n - 1].in_use { 1nat } else { 0nat }
    }
}

/// The lowest descriptor at or after `i` that is not in use.
pub open spec fn first_free_from(s: Seq<FdEntry>, i: int) -> Option<usize>
    decreases MAX_FDS - i,
{
    if i >= MAX_FDS {
        None
    } else if !s[i].in_use {
        Some(i as usize)
    } else {
        first_free_from(s, i + 1)
    }
}

/// Per-process file descriptor table.
pub struct FdTable {
    entries: [FdEntry; 64],
}

impl FdTable {
    /// The entries, descriptor by descriptor.
    pub closed spec fn entries_view(&self) -> Seq<FdEntry> {
        self.entries@
    }

    /// Every table holds one entry per descriptor.
    pub proof fn lemma_len(&self)
        ensures
            self.entries_view().len() == MAX_FDS,
    {
    }

    /// Whether descriptor `fd` is open.
    pub open spec fn valid(&self, fd: usize) -> bool {
        fd < MAX_FDS && self.entries_view()[fd as int].in_use
    }

    /// A table with every descriptor closed.
    pub fn new() -> (t: Self)
        ensures
            t.entries_view() == Seq::new(MAX_FDS as nat, |i: int| empty_entry()),
    {
        let t = FdTable { entries: [FdEntry::empty(); 64] };
        assert(t.entries_view() =~= Seq::new(MAX_FDS as nat, |i: int| empty_entry()));
        t
    }

    /// Open the lowest free descriptor on `node_idx` (stored as an i32,
    /// truncating) at offset 0 with `mode`; "too many open files" when
    /// all are in use.
    pub fn open(&mut self, node_idx: usize, mode: OpenMode) -> (r: Result<usize, &'static str>)
        ensures
            ({
                let old_e = old(self).entries_view();
                match first_free_from(old_e, 0) {
                    Some(fd) => r == Ok::<usize, &'static str>(fd) && final(self).entries_view() == old_e.update(
                        fd as int,
                        FdEntry { node_idx: node_idx as i32, offset: 0, mode, in_use: true },
                    ),
                    None => r == Err::<usize, &'static str>("too many open files")
                        && final(self).entries_view() == old_e,
                }
            }),
    {
        let mut i: usize = 0;
        while i < MAX_FDS
            invariant
                0 <= i <= MAX_FDS,
                self.entries_view() == old(self).entries_view(),
                first_free_from(old(self).entries_view(), 0) == first_free_from(old(self).entries_view(), i as int),
            decreases MAX_FDS - i,
        {
            if !self.entries[i].in_use {
                self.entries[i] = FdEntry { node_idx: node_idx as i32, offset: 0, mode, in_use: true };
                return Ok(i);
            }
            i = i + 1;
        }
        Err("too many open files")
    }

    /// Close descriptor `fd`; "bad file descriptor" when it is not open.
    pub fn close(&mut self, fd: usize) -> (r: Result<(), &'static str>)
        ensures
            old(self).valid(fd) ==> r is Ok && final(self).entries_view() == old(self).entries_view().update(fd as int, empty_entry()),
            !old(self).valid(fd) ==> r == Err::<(), &'static str>("bad file descriptor") && final(self).entries_view() == old(self).entries_view(),
    {
        if fd >= MAX_FDS || !self.entries[fd].in_use {
            return Err("bad file descriptor");
        }
        self.entries[fd] = FdEntry::empty();
        Ok(())
    }

    /// The entry of descriptor `fd`, if it is open.
    pub fn get(&self, fd: usize) -> (r: Option<&FdEntry>)
        ensures
            self.valid(fd) ==> r == Some(&self.entries_view()[fd as int]),
            !self.valid(fd) ==> r is None,
    {
        if fd < MAX_FDS && self.entries[fd].in_use {
            Some(&self.entries[fd])
        } else {
            None
        }
    }

    /// Mutable access to the entry of descriptor `fd`, if it is open.
    pub fn get_mut(&mut self, fd: usize) -> (r: Option<&mut FdEntry>)
        ensures
            !old(self).valid(fd) ==> r is None && final(self).entries_view() == old(self).entries_view(),
            old(self).valid(fd) ==> (r matches Some(e) && *e == old(self).entries_view()[fd as int]
                && final(self).entries_view() == old(self).entries_view().update(fd as int, *final(e))),
    {
        if fd < MAX_FDS && self.entries[fd].in_use {
            Some(&mut self.entries[fd])
        } else {
            None
        }
    }

    /// Whether descriptor `fd` is open.
    pub fn is_valid(&self, fd: usize) -> (r: bool)
        ensures
            r == self.valid(fd),
    {
        fd < MAX_FDS && self.entries[fd].in_use
    }

    /// Number of open descriptors.
    pub fn open_count(&self) -> (r: usize)
        ensures
            r == count_in_use(self.entries_view(), MAX_FDS as int),
    {
        let mut count: usize = 0;
        let mut i: usize = 0;
        while i < MAX_FDS
            invariant
                0 <= i <= MAX_FDS,
                self.entries_view().len() == MAX_FDS,
                count == count_in_use(self.entries_view(), i as int),
                count <= i,
            decreases MAX_FDS - i,
        {
            if self.entries[i].in_use {
                count = count + 1;
            }
            i = i + 1;
        }
        count
    }
}

/// Replacing one entry changes the count by what the two entries add.
pub proof fn lemma_count_update(s: Seq<FdEntry>, i: int, e: FdEntry, n: int)
    requires
        0 <= i < s.len(),
        n <= s.len(),
    ensures
        count_in_use(s.update(i, e), n) == count_in_use(s, n) + (if i < n {
            (if e.in_use { 1int } else { 0int }) - (if s[i].in_use { 1int } else { 0int })
        } else {
            0int
        }),
    decreases n,
{
    if n > 0 {
        lemma_count_update(s, i, e, n - 1);
    }
}

/// The descriptor picked by `first_free_from` is in range and free, and
/// there is none when every descriptor from `i` on is in use.
pub proof fn lemma_first_free(s: Seq<FdEntry>, i: int)
    requires
        0 <= i,
        s.len() == MAX_FDS,
    ensures
        first_free_from(s, i) matches Some(fd) ==> i <= fd < MAX_FDS && !s[fd as int].in_use,
        first_free_from(s, i) is None <==> forall|k: int| i <= k < MAX_FDS ==> #[trigger] s[k].in_use,
    decreases MAX_FDS - i,
{
    if i < MAX_FDS {
        lemma_first_free(s, i + 1);
    }
}

/// A successful open leaves the new descriptor valid, on the node, at
/// offset 0, and one more descriptor open; a failed open means every
/// descriptor was already in use.
pub proof fn law_open_valid(t: Seq<FdEntry>, node_idx: usize, mode: OpenMode)
    requires
        t.len() == MAX_FDS,
    ensures
        first_free_from(t, 0) matches Some(fd) ==> {
            let after = t.update(fd as int, FdEntry { node_idx: node_idx as i32, offset: 0, mode, in_use: true });
            &&& fd < MAX_FDS
            &&& !t[fd as int].in_use
            &&& after[fd as int].in_use
            &&& count_in_use(after, MAX_FDS as int) == count_in_use(t, MAX_FDS as int) + 1
        },
        first_free_from(t, 0) is None ==> count_in_use(t, MAX_FDS as int) == MAX_FDS,
{
    lemma_first_free(t, 0);
    if let Some(fd) = first_free_from(t, 0) {
        lemma_count_update(t, fd as int, FdEntry { node_idx: node_idx as i32, offset: 0, mode, in_use: true }, MAX_FDS as int);
    } else {
        lemma_all_in_use(t, MAX_FDS as int);
    }
}

proof fn lemma_all_in_use(s: Seq<FdEntry>, n: int)
    requires
        0 <= n <= s.len(),
        forall|k: int| 0 <= k < n ==> #[trigger] s[k].in_use,
    ensures
        count_in_use(s, n) == n,
    decreases n,
{
    if n > 0 {
        lemma_all_in_use(s, n - 1);
    }
}

/// Closing an open descriptor makes it invalid and leaves one descriptor
/// fewer open.
pub proof fn law_close_invalid(t: Seq<FdEntry>, fd: usize)
    requires
        t.len() == MAX_FDS,
        fd < MAX_FDS,
        t[fd as int].in_use,
    ensures
        !t.update(fd as int, empty_entry())[fd as int].in_use,
        count_in_use(t.update(fd as int, empty_entry()), MAX_FDS as int) + 1 == count_in_use(t, MAX_FDS as int),
{
    lemma_count_update(t, fd as int, empty_entry(), MAX_FDS as int);
}

} // verus!
