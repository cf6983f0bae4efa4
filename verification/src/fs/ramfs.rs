//! RAM-backed filesystem: a self-contained table of nodes kept in memory,
//! used as the root filesystem and to exercise VFS operations.
use vstd::prelude::*;
use vstd::string::StringSliceAdditionalSpecFns;
use vstd::utf8::valid_utf8;
use crate::text::{bytes_eq, str_from_utf8};
use crate::fs::node::stored_name;
use crate::fs::{read_spec, write_spec, trim_slashes, read_at, write_at, remove_value, remove_all, lemma_remove_value_bounded};

verus! {

/// A RAM filesystem node.
pub struct RamFsNode {
    pub name: [u8; 60],
    pub name_len: usize,
    pub is_dir: bool,
    pub children: Vec<usize>,
    pub data: Vec<u8>,
    pub inode: u64,
}

/// Node `n` is node `o` with `idx` taken out of its list of children.
pub open spec fn unlisted(o: RamFsNode, n: RamFsNode, idx: usize) -> bool {
    &&& n.children@ == remove_value(o.children@, idx)
    &&& n.name == o.name && n.name_len == o.name_len && n.is_dir == o.is_dir
    &&& n.data@ == o.data@ && n.inode == o.inode
}

impl RamFsNode {
    /// The stored name: `name_len` bytes, clamped to the buffer.
    pub open spec fn name_bytes(&self) -> Seq<u8> {
        self.name@.subrange(0, if self.name_len <= 60 { self.name_len as int } else { 60 })
    }

    /// A fresh node named after the first 60 bytes of `name`.
    pub open spec fn is_fresh(&self, name: Seq<u8>, inode: u64, is_dir: bool) -> bool {
        &&& self.name_len == stored_name(name).len()
        &&& self.name_bytes() == stored_name(name)
        &&& forall|k: int| self.name_len <= k < 60 ==> #[trigger] self.name@[k] == 0u8
        &&& self.is_dir == is_dir
        &&& self.children@.len() == 0
        &&& self.data@.len() == 0
        &&& self.inode == inode
    }

    fn with_name(name: &[u8], inode: u64, is_dir: bool) -> (r: Self)
        ensures
            r.is_fresh(name@, inode, is_dir),
    {
        let mut node = RamFsNode {
            name: [0; 60],
            name_len: 0,
            is_dir,
            children: Vec::new(),
            data: Vec::new(),
            inode,
        };
        let len = if name.len() < 60 { name.len() } else { 60 };
        let mut i: usize = 0;
        while i < len
            invariant
                0 <= i <= len <= 60,
                len <= name@.len(),
                forall|k: int| 0 <= k < i ==> node.name@[k] == name@[k],
                forall|k: int| i <= k < 60 ==> node.name@[k] == 0u8,
                node.name_len == 0,
                node.is_dir == is_dir,
                node.children@.len() == 0,
                node.data@.len() == 0,
                node.inode == inode,
            decreases len - i,
        {
            node.name[i] = name[i];
            i = i + 1;
        }
        node.name_len = len;
        assert(node.name_bytes() =~= stored_name(name@));
        node
    }

    /// A new, empty file node.
    pub fn new_file(name: &[u8], inode: u64) -> (r: Self)
        ensures
            r.is_fresh(name@, inode, false),
    {
        Self::with_name(name, inode, false)
    }

    /// A new, empty directory node.
    pub fn new_dir(name: &[u8], inode: u64) -> (r: Self)
        ensures
            r.is_fresh(name@, inode, true),
    {
        Self::with_name(name, inode, true)
    }

    /// The name as a string slice ("" when it is not valid UTF-8).
    pub fn name_str(&self) -> (r: &str)
        requires
            self.name_len <= 60,
        ensures
            valid_utf8(self.name_bytes()) ==> r.spec_bytes() == self.name_bytes(),
            !valid_utf8(self.name_bytes()) ==> r@.len() == 0,
    {
        let bytes = vstd::slice::slice_subrange(self.name.as_slice(), 0, self.name_len);
        match str_from_utf8(bytes) {
            Some(s) => s,
            None => {
                let e = "";
                proof {
                    reveal_strlit("");
                }
                e
            },
        }
    }
}

/// Node `c` exists and is named exactly `name`.
pub open spec fn ram_matches(nodes: Seq<RamFsNode>, c: usize, name: Seq<u8>) -> bool {
    c < nodes.len() && nodes[c as int].name_len == name.len() && nodes[c as int].name_bytes() == name
}

/// The first of `children[i..]` named `name`.
pub open spec fn ram_find_from(nodes: Seq<RamFsNode>, children: Seq<usize>, name: Seq<u8>, i: int) -> Option<usize>
    decreases children.len() - i,
{
    if i < 0 || i >= children.len() {
        None
    } else if ram_matches(nodes, children[i], name) {
        Some(children[i])
    } else {
        ram_find_from(nodes, children, name, i + 1)
    }
}

/// The child of `parent` named `name` (the first one listed).
pub open spec fn ram_lookup(nodes: Seq<RamFsNode>, parent: usize, name: Seq<u8>) -> Option<usize> {
    ram_find_from(nodes, nodes[parent as int].children@, name, 0)
}

/// Where one path component leads: empty, "." and ".." stay where they
/// are, any other name is looked up.
pub open spec fn ram_step(nodes: Seq<RamFsNode>, cur: Option<usize>, comp: Seq<u8>) -> Option<usize> {
    match cur {
        None => None,
        Some(c) => if comp.len() == 0 || comp == seq![0x2Eu8] || comp == seq![0x2Eu8, 0x2Eu8] {
            Some(c)
        } else {
            ram_lookup(nodes, c, comp)
        },
    }
}

/// State after the first `n` bytes of a trimmed path: the node reached and
/// the start of the component being read.
pub open spec fn ram_scan(nodes: Seq<RamFsNode>, t: Seq<u8>, n: nat) -> (Option<usize>, int)
    decreases n,
{
    if n == 0 {
        (Some(0), 0)
    } else {
        let (c, st) = ram_scan(nodes, t, (n - 1) as nat);
        if t[n - 1] == 0x2F {
            (ram_step(nodes, c, t.subrange(st, n - 1)), n as int)
        } else {
            (c, st)
        }
    }
}

/// The node a path leads to from the root.
pub open spec fn ram_resolve(nodes: Seq<RamFsNode>, path: Seq<u8>) -> Option<usize> {
    let t = trim_slashes(path);
    if t.len() == 0 {
        Some(0)
    } else {
        let (c, st) = ram_scan(nodes, t, t.len());
        ram_step(nodes, c, t.subrange(st, t.len() as int))
    }
}

proof fn lemma_ram_scan_none(nodes: Seq<RamFsNode>, t: Seq<u8>, k: nat, n: nat)
    requires
        k <= n <= t.len(),
        ram_scan(nodes, t, k).0 is None,
    ensures
        ram_scan(nodes, t, n).0 is None,
    decreases n,
{
    if n > k {
        lemma_ram_scan_none(nodes, t, k, (n - 1) as nat);
    }
}

/// The children of `ch` a listing shows: those in the table with a
/// non-empty name.
pub open spec fn ram_listed(nodes: Seq<RamFsNode>, ch: Seq<usize>) -> Seq<usize>
    decreases ch.len(),
{
    if ch.len() == 0 {
        ch
    } else {
        let r = ram_listed(nodes, ch.drop_last());
        if ch.last() < nodes.len() && nodes[ch.last() as int].name_len > 0 {
            r.push(ch.last())
        } else {
            r
        }
    }
}

/// What listing node `idx` shows.
pub open spec fn ram_listing(nodes: Seq<RamFsNode>, idx: int) -> Seq<usize> {
    if idx < 0 || idx >= nodes.len() || !nodes[idx].is_dir {
        Seq::empty()
    } else {
        ram_listed(nodes, nodes[idx].children@)
    }
}

/// A listed name: the node's name when it is valid UTF-8, else "".
pub open spec fn ram_shows(shown: Seq<char>, name: Seq<u8>) -> bool {
    if valid_utf8(name) {
        vstd::utf8::encode_utf8(shown) == name
    } else {
        shown.len() == 0
    }
}

/// A RAM filesystem: node 0 is the root directory.
pub struct RamFs {
    nodes: Vec<RamFsNode>,
    next_inode: u64,
}

impl RamFs {
    pub closed spec fn nodes_view(&self) -> Seq<RamFsNode> {
        self.nodes@
    }

    pub closed spec fn next_inode_view(&self) -> u64 {
        self.next_inode
    }

    /// Names fit their buffers and every child index names a node.
    pub open spec fn wf(&self) -> bool {
        &&& self.nodes_view().len() >= 1
        &&& forall|i: int| 0 <= i < self.nodes_view().len() ==> #[trigger] self.nodes_view()[i].name_len <= 60
        &&& forall|i: int, j: int|
            0 <= i < self.nodes_view().len() && 0 <= j < self.nodes_view()[i].children@.len()
                ==> #[trigger] self.nodes_view()[i].children@[j] < self.nodes_view().len()
    }

    /// A filesystem holding only the root directory "/" (inode 1).
    pub fn new() -> (fs: Self)
        ensures
            fs.wf(),
            fs.nodes_view().len() == 1,
            fs.nodes_view()[0].is_fresh(seq![0x2Fu8], 1, true),
            fs.next_inode_view() == 2,
    {
        let root_name: [u8; 1] = [0x2F];
        let root = RamFsNode::new_dir(root_name.as_slice(), 1);
        assert(root_name@ =~= seq![0x2Fu8]);
        let mut nodes: Vec<RamFsNode> = Vec::new();
        nodes.push(root);
        RamFs { nodes, next_inode: 2 }
    }

    fn alloc_inode(&mut self) -> (r: u64)
        requires
            old(self).next_inode_view() < u64::MAX,
        ensures
            r == old(self).next_inode_view(),
            final(self).next_inode_view() == old(self).next_inode_view() + 1,
            final(self).nodes_view() == old(self).nodes_view(),
    {
        let inode = self.next_inode;
        self.next_inode = self.next_inode + 1;
        inode
    }

    fn create(&mut self, parent_idx: usize, name: &[u8], is_dir: bool) -> (r: Result<usize, &'static str>)
        requires
            old(self).wf(),
            parent_idx < old(self).nodes_view().len(),
            old(self).next_inode_view() < u64::MAX,
        ensures
            final(self).wf(),
            r == Ok::<usize, &'static str>(old(self).nodes_view().len() as usize),
            final(self).next_inode_view() == old(self).next_inode_view() + 1,
            ram_created(old(self).nodes_view(), final(self).nodes_view(), parent_idx, name@, old(self).next_inode_view(), is_dir),
    {
        let inode = self.alloc_inode();
        let child_idx = self.nodes.len();
        let node = if is_dir { RamFsNode::new_dir(name, inode) } else { RamFsNode::new_file(name, inode) };
        self.nodes.push(node);
        let ghost mid = self.nodes@;
        let mut parent = RamFsNode::new_file(name, 0);
        std::mem::swap(&mut parent, &mut self.nodes[parent_idx]);
        parent.children.push(child_idx);
        std::mem::swap(&mut parent, &mut self.nodes[parent_idx]);
        assert forall|i: int, j: int|
            0 <= i < self.nodes_view().len() && 0 <= j < self.nodes_view()[i].children@.len()
                implies #[trigger] self.nodes_view()[i].children@[j] < self.nodes_view().len() by {
            if i != parent_idx && i != child_idx {
                assert(self.nodes_view()[i] == old(self).nodes_view()[i]);
            } else if i == parent_idx && j < old(self).nodes_view()[i].children@.len() {
                assert(self.nodes_view()[i].children@[j] == old(self).nodes_view()[i].children@[j]);
            }
        }
        Ok(child_idx)
    }

    /// Create a file named `name` under `parent_idx` and list it there.
    pub fn create_file(&mut self, parent_idx: usize, name: &[u8]) -> (r: Result<usize, &'static str>)
        requires
            old(self).wf(),
            parent_idx < old(self).nodes_view().len(),
            old(self).next_inode_view() < u64::MAX,
        ensures
            final(self).wf(),
            r == Ok::<usize, &'static str>(old(self).nodes_view().len() as usize),
            final(self).next_inode_view() == old(self).next_inode_view() + 1,
            ram_created(old(self).nodes_view(), final(self).nodes_view(), parent_idx, name@, old(self).next_inode_view(), false),
    {
        self.create(parent_idx, name, false)
    }

    /// Create a directory named `name` under `parent_idx` and list it there.
    pub fn create_dir(&mut self, parent_idx: usize, name: &[u8]) -> (r: Result<usize, &'static str>)
        requires
            old(self).wf(),
            parent_idx < old(self).nodes_view().len(),
            old(self).next_inode_view() < u64::MAX,
        ensures
            final(self).wf(),
            r == Ok::<usize, &'static str>(old(self).nodes_view().len() as usize),
            final(self).next_inode_view() == old(self).next_inode_view() + 1,
            ram_created(old(self).nodes_view(), final(self).nodes_view(), parent_idx, name@, old(self).next_inode_view(), true),
    {
        self.create(parent_idx, name, true)
    }

    fn child_named(&self, c: usize, name: &[u8]) -> (r: bool)
        requires
            self.wf(),
        ensures
            r == ram_matches(self.nodes_view(), c, name@),
    {
        if c >= self.nodes.len() {
            return false;
        }
        let child = &self.nodes[c];
        if child.name_len != name.len() {
            return false;
        }
        let stored = vstd::slice::slice_subrange(child.name.as_slice(), 0, child.name_len);
        bytes_eq(stored, name)
    }

    /// The first child of `parent_idx` named exactly `name`.
    pub fn lookup(&self, parent_idx: usize, name: &[u8]) -> (r: Option<usize>)
        requires
            self.wf(),
            parent_idx < self.nodes_view().len(),
        ensures
            r == ram_lookup(self.nodes_view(), parent_idx, name@),
            r matches Some(c) ==> c < self.nodes_view().len(),
    {
        let children = &self.nodes[parent_idx].children;
        let mut i: usize = 0;
        while i < children.len()
            invariant
                self.wf(),
                parent_idx < self.nodes_view().len(),
                children@ == self.nodes_view()[parent_idx as int].children@,
                0 <= i <= children@.len(),
                ram_lookup(self.nodes_view(), parent_idx, name@) == ram_find_from(self.nodes_view(), children@, name@, i as int),
            decreases children.len() - i,
        {
            let c = children[i];
            if self.child_named(c, name) {
                return Some(c);
            }
            i = i + 1;
        }
        None
    }

    fn step(&self, cur: usize, comp: &[u8]) -> (r: Option<usize>)
        requires
            self.wf(),
            cur < self.nodes_view().len(),
        ensures
            r == ram_step(self.nodes_view(), Some(cur), comp@),
            r matches Some(c) ==> c < self.nodes_view().len(),
    {
        if comp.len() == 0 {
            return Some(cur);
        }
        if comp.len() == 1 && comp[0] == 0x2E {
            assert(comp@ =~= seq![0x2Eu8]);
            return Some(cur);
        }
        if comp.len() == 2 && comp[0] == 0x2E && comp[1] == 0x2E {
            assert(comp@ =~= seq![0x2Eu8, 0x2Eu8]);
            return Some(cur);
        }
        assert(comp@ != seq![0x2Eu8]);
        assert(comp@ != seq![0x2Eu8, 0x2Eu8]);
        self.lookup(cur, comp)
    }

    /// Resolve a path from the root: leading slashes are ignored, empty,
    /// "." and ".." components stay in place, other names are looked up.
    pub fn resolve(&self, path: &str) -> (r: Option<usize>)
        requires
            self.wf(),
        ensures
            r == ram_resolve(self.nodes_view(), path.spec_bytes()),
            r matches Some(c) ==> c < self.nodes_view().len(),
    {
        let p = path.as_bytes();
        let mut s: usize = 0;
        assert(p@.subrange(0, p@.len() as int) =~= p@);
        while s < p.len() && p[s] == 0x2F
            invariant
                0 <= s <= p@.len(),
                trim_slashes(p@) == trim_slashes(p@.subrange(s as int, p@.len() as int)),
            decreases p.len() - s,
        {
            assert(p@.subrange(s as int, p@.len() as int).drop_first() =~= p@.subrange(s + 1, p@.len() as int));
            s = s + 1;
        }
        let t = vstd::slice::slice_subrange(p, s, p.len());
        assert(trim_slashes(t@) == t@);
        if t.len() == 0 {
            return Some(0);
        }
        let mut cur: usize = 0;
        let mut start: usize = 0;
        let mut i: usize = 0;
        while i < t.len()
            invariant
                self.wf(),
                t@ == trim_slashes(p@),
                p@ == path.spec_bytes(),
                0 <= i <= t@.len(),
                ram_scan(self.nodes_view(), t@, i as nat) == (Some(cur), start as int),
                cur < self.nodes_view().len(),
                start <= i,
            decreases t.len() - i,
        {
            if t[i] == 0x2F {
                let comp = vstd::slice::slice_subrange(t, start, i);
                match self.step(cur, comp) {
                    None => {
                        proof {
                            lemma_ram_scan_none(self.nodes_view(), t@, (i + 1) as nat, t@.len());
                        }
                        return None;
                    },
                    Some(next) => {
                        cur = next;
                        start = i + 1;
                    },
                }
            }
            i = i + 1;
        }
        let last = vstd::slice::slice_subrange(t, start, t.len());
        self.step(cur, last)
    }

    /// Read from node `idx` at `offset` into `buf`; returns the count read.
    pub fn read(&self, idx: usize, offset: usize, buf: &mut [u8]) -> (r: Result<usize, &'static str>)
        ensures
            final(buf)@.len() == old(buf)@.len(),
            idx >= self.nodes_view().len() ==> r == Err::<usize, &'static str>("invalid node") && final(buf)@ == old(buf)@,
            idx < self.nodes_view().len() && self.nodes_view()[idx as int].is_dir ==> r == Err::<usize, &'static str>("is a directory")
                && final(buf)@ == old(buf)@,
            idx < self.nodes_view().len() && !self.nodes_view()[idx as int].is_dir ==> {
                let got = read_spec(self.nodes_view()[idx as int].data@, offset as int, old(buf)@.len() as int);
                &&& r == Ok::<usize, &'static str>(got.len() as usize)
                &&& final(buf)@ == got + old(buf)@.subrange(got.len() as int, old(buf)@.len() as int)
            },
    {
        if idx >= self.nodes.len() {
            return Err("invalid node");
        }
        let node = &self.nodes[idx];
        if node.is_dir {
            return Err("is a directory");
        }
        let n = read_at(node.data.as_slice(), offset, buf);
        assert(buf@ =~= buf@.subrange(0, n as int) + buf@.subrange(n as int, buf@.len() as int));
        Ok(n)
    }

    /// Write `data` to node `idx` at `offset`, growing it (zero-filled) as
    /// needed; returns the count written.
    pub fn write(&mut self, idx: usize, offset: usize, data: &[u8]) -> (r: Result<usize, &'static str>)
        requires
            old(self).wf(),
            offset + data@.len() <= usize::MAX,
        ensures
            final(self).wf(),
            final(self).next_inode_view() == old(self).next_inode_view(),
            idx >= old(self).nodes_view().len() ==> r == Err::<usize, &'static str>("invalid node")
                && final(self).nodes_view() == old(self).nodes_view(),
            idx < old(self).nodes_view().len() && old(self).nodes_view()[idx as int].is_dir ==> r == Err::<usize, &'static str>("is a directory")
                && final(self).nodes_view() == old(self).nodes_view(),
            idx < old(self).nodes_view().len() && !old(self).nodes_view()[idx as int].is_dir ==> {
                let o = old(self).nodes_view()[idx as int];
                &&& r == Ok::<usize, &'static str>(data@.len() as usize)
                &&& final(self).nodes_view().len() == old(self).nodes_view().len()
                &&& forall|i: int| 0 <= i < old(self).nodes_view().len() && i != idx ==> #[trigger] final(self).nodes_view()[i] == old(self).nodes_view()[i]
                &&& final(self).nodes_view()[idx as int].data@ == write_spec(o.data@, offset as int, data@)
                &&& final(self).nodes_view()[idx as int].name == o.name
                &&& final(self).nodes_view()[idx as int].name_len == o.name_len
                &&& final(self).nodes_view()[idx as int].is_dir == o.is_dir
                &&& final(self).nodes_view()[idx as int].children == o.children
                &&& final(self).nodes_view()[idx as int].inode == o.inode
            },
    {
        if idx >= self.nodes.len() {
            return Err("invalid node");
        }
        if self.nodes[idx].is_dir {
            return Err("is a directory");
        }
        let mut node = RamFsNode::new_file(data, 0);
        std::mem::swap(&mut node, &mut self.nodes[idx]);
        write_at(&mut node.data, offset, data);
        std::mem::swap(&mut node, &mut self.nodes[idx]);
        assert forall|i: int, j: int|
            0 <= i < self.nodes_view().len() && 0 <= j < self.nodes_view()[i].children@.len()
                implies #[trigger] self.nodes_view()[i].children@[j] < self.nodes_view().len() by {
            assert(self.nodes_view()[i].children@ == old(self).nodes_view()[i].children@);
        }
        Ok(data.len())
    }

    /// Delete node `idx`: the root cannot go, nor a directory with
    /// children. The node is cleared in place (name, data, children and
    /// directory flag), so other indices stay valid, and every directory
    /// stops listing it.
    pub fn delete(&mut self, idx: usize) -> (r: Result<(), &'static str>)
        requires
            old(self).wf(),
            idx < old(self).nodes_view().len(),
        ensures
            final(self).wf(),
            final(self).next_inode_view() == old(self).next_inode_view(),
            idx == 0 ==> r == Err::<(), &'static str>("cannot delete root") && final(self).nodes_view() == old(self).nodes_view(),
            idx != 0 && old(self).nodes_view()[idx as int].is_dir && old(self).nodes_view()[idx as int].children@.len() > 0
                ==> r == Err::<(), &'static str>("directory not empty") && final(self).nodes_view() == old(self).nodes_view(),
            idx != 0 && !(old(self).nodes_view()[idx as int].is_dir && old(self).nodes_view()[idx as int].children@.len() > 0) ==> {
                let o = old(self).nodes_view()[idx as int];
                let n = final(self).nodes_view()[idx as int];
                &&& r is Ok
                &&& final(self).nodes_view().len() == old(self).nodes_view().len()
                &&& forall|i: int| 0 <= i < old(self).nodes_view().len() && i != idx ==> #[trigger] unlisted(
                    old(self).nodes_view()[i], final(self).nodes_view()[i], idx)
                &&& n.name_len == 0 && n.data@.len() == 0 && n.children@.len() == 0 && !n.is_dir
                &&& n.name == o.name && n.inode == o.inode
            },
    {
        if idx == 0 {
            return Err("cannot delete root");
        }
        if self.nodes[idx].is_dir && self.nodes[idx].children.len() != 0 {
            return Err("directory not empty");
        }
        let mut node = RamFsNode::new_file(&[], 0);
        std::mem::swap(&mut node, &mut self.nodes[idx]);
        node.name_len = 0;
        node.data.clear();
        node.children.clear();
        node.is_dir = false;
        std::mem::swap(&mut node, &mut self.nodes[idx]);
        let ghost cleared = self.nodes_view()[idx as int];
        let n = self.nodes.len();
        let mut i: usize = 0;
        while i < n
            invariant
                0 <= i <= n,
                n == old(self).nodes_view().len(),
                self.nodes_view().len() == n,
                0 < idx < n,
                self.next_inode_view() == old(self).next_inode_view(),
                self.nodes_view()[idx as int] == cleared,
                cleared.children@.len() == 0 && cleared.name_len == 0,
                forall|k: int| 0 <= k < n ==> #[trigger] old(self).nodes_view()[k].name_len <= 60,
                forall|k: int, j: int| 0 <= k < n && 0 <= j < old(self).nodes_view()[k].children@.len()
                    ==> #[trigger] old(self).nodes_view()[k].children@[j] < n,
                forall|k: int| 0 <= k < i && k != idx ==> #[trigger] unlisted(old(self).nodes_view()[k], self.nodes_view()[k], idx),
                forall|k: int| i <= k < n && k != idx ==> #[trigger] self.nodes_view()[k] == old(self).nodes_view()[k],
            decreases n - i,
        {
            if i != idx {
                let mut node = RamFsNode::new_file(&[], 0);
                std::mem::swap(&mut node, &mut self.nodes[i]);
                let kept = remove_all(&node.children, idx);
                node.children = kept;
                std::mem::swap(&mut node, &mut self.nodes[i]);
            }
            i = i + 1;
        }
        proof {
            assert forall|k: int| 0 <= k < self.nodes_view().len() implies #[trigger] self.nodes_view()[k].name_len <= 60 by {
                if k != idx {
                    assert(unlisted(old(self).nodes_view()[k], self.nodes_view()[k], idx));
                }
            }
            assert forall|k: int, j: int|
                0 <= k < self.nodes_view().len() && 0 <= j < self.nodes_view()[k].children@.len()
                    implies #[trigger] self.nodes_view()[k].children@[j] < self.nodes_view().len() by {
                if k != idx {
                    let oc = old(self).nodes_view()[k].children@;
                    assert(unlisted(old(self).nodes_view()[k], self.nodes_view()[k], idx));
                    assert forall|q: int| 0 <= q < oc.len() implies #[trigger] oc[q] < n by {}
                    lemma_remove_value_bounded(oc, idx, n as int);
                }
            }
        }
        Ok(())
    }

    /// List directory `idx`: (name, inode, is_dir) of each listed child
    /// that is in the table and has a non-empty name; empty for a file or
    /// a missing node.
    pub fn readdir(&self, idx: usize) -> (r: Vec<(&str, u64, bool)>)
        requires
            self.wf(),
        ensures
            r@.len() == ram_listing(self.nodes_view(), idx as int).len(),
            forall|k: int| 0 <= k < r@.len() ==> {
                let c = ram_listing(self.nodes_view(), idx as int)[k];
                &&& ram_shows(#[trigger] r@[k].0@, self.nodes_view()[c as int].name_bytes())
                &&& r@[k].1 == self.nodes_view()[c as int].inode
                &&& r@[k].2 == self.nodes_view()[c as int].is_dir
            },
    {
        let mut entries: Vec<(&str, u64, bool)> = Vec::new();
        if idx >= self.nodes.len() {
            return entries;
        }
        let node = &self.nodes[idx];
        if !node.is_dir {
            return entries;
        }
        let children = &node.children;
        let mut i: usize = 0;
        while i < children.len()
            invariant
                self.wf(),
                idx < self.nodes_view().len(),
                self.nodes_view()[idx as int].is_dir,
                children@ == self.nodes_view()[idx as int].children@,
                0 <= i <= children@.len(),
                entries@.len() == ram_listed(self.nodes_view(), children@.subrange(0, i as int)).len(),
                forall|k: int| 0 <= k < entries@.len() ==> {
                    let c = ram_listed(self.nodes_view(), children@.subrange(0, i as int))[k];
                    &&& ram_shows(#[trigger] entries@[k].0@, self.nodes_view()[c as int].name_bytes())
                    &&& entries@[k].1 == self.nodes_view()[c as int].inode
                    &&& entries@[k].2 == self.nodes_view()[c as int].is_dir
                },
            decreases children.len() - i,
        {
            assert(children@.subrange(0, i + 1).drop_last() =~= children@.subrange(0, i as int));
            let c = children[i];
            let ghost before = entries@;
            let ghost lst = ram_listed(self.nodes_view(), children@.subrange(0, i as int));
            let ghost lst2 = ram_listed(self.nodes_view(), children@.subrange(0, i + 1));
            if c < self.nodes.len() && self.nodes[c].name_len > 0 {
                let child = &self.nodes[c];
                let shown = child.name_str();
                assert(shown.spec_bytes() == vstd::utf8::encode_utf8(shown@));
                assert(ram_shows(shown@, self.nodes_view()[c as int].name_bytes()));
                entries.push((shown, child.inode, child.is_dir));
                proof {
                    assert(lst2 == lst.push(c));
                    assert forall|k: int| 0 <= k < entries@.len() implies {
                        let c2 = lst2[k];
                        &&& ram_shows(#[trigger] entries@[k].0@, self.nodes_view()[c2 as int].name_bytes())
                        &&& entries@[k].1 == self.nodes_view()[c2 as int].inode
                        &&& entries@[k].2 == self.nodes_view()[c2 as int].is_dir
                    } by {
                        if k < before.len() {
                            assert(entries@[k] == before[k]);
                            assert(lst2[k] == lst[k]);
                        } else {
                            assert(lst2[k] == c);
                        }
                    }
                }
            } else {
                assert(lst2 == lst);
            }
            i = i + 1;
        }
        assert(children@.subrange(0, children@.len() as int) =~= children@);
        entries
    }

    /// Number of nodes in the table (deleted ones included).
    pub fn node_count(&self) -> (r: usize)
        ensures
            r == self.nodes_view().len(),
    {
        self.nodes.len()
    }
}

/// `new` is `old` with a fresh node (named after `name`, inode `inode`)
/// appended and listed last under `parent`.
pub open spec fn ram_created(
    old: Seq<RamFsNode>,
    new: Seq<RamFsNode>,
    parent: usize,
    name: Seq<u8>,
    inode: u64,
    is_dir: bool,
) -> bool {
    &&& new.len() == old.len() + 1
    &&& new[old.len() as int].is_fresh(name, inode, is_dir)
    &&& forall|i: int| 0 <= i < old.len() && i != parent ==> #[trigger] new[i] == old[i]
    &&& new[parent as int].children@ == old[parent as int].children@.push(old.len() as usize)
    &&& new[parent as int].name == old[parent as int].name
    &&& new[parent as int].name_len == old[parent as int].name_len
    &&& new[parent as int].is_dir == old[parent as int].is_dir
    &&& new[parent as int].data == old[parent as int].data
    &&& new[parent as int].inode == old[parent as int].inode
}

} // verus!
