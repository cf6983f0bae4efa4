//! Virtual File System — path resolution, file creation and deletion,
//! reads and writes, and directory listing over an in-memory node table.
//! The root directory is node 0.
pub mod bcache;
pub mod ext2;
pub mod fat32;
pub mod fat32_dir;
pub mod fat32_file;
pub mod fd;
pub mod gpt;
pub mod laws;
pub mod node;
pub mod ops;
pub mod ramfs;
pub mod zohfs;

use vstd::prelude::*;
use vstd::string::StringSliceAdditionalSpecFns;
use vstd::utf8::valid_utf8;
use crate::text::{bytes_eq, str_from_utf8};
use node::{VfsNode, VfsNodeType, name_bytes_of, stored_name};

verus! {

/// The VFS: a table of nodes (deleted nodes keep their slot, emptied) and
/// the next inode number to hand out.
pub struct Vfs {
    nodes: Vec<VfsNode>,
    next_inode: u64,
}

/// Does node `c` of the table exist and carry the name `name`?
pub open spec fn child_matches(nodes: Seq<VfsNode>, c: usize, name: Seq<u8>) -> bool {
    c < nodes.len() && nodes[c as int].name_len == name.len() && nodes[c as int].name_bytes()
        == name
}

/// The first of `children[i..]` that exists and is named `name`.
pub open spec fn find_child_from(
    nodes: Seq<VfsNode>,
    children: Seq<usize>,
    name: Seq<u8>,
    i: int,
) -> Option<usize>
    decreases children.len() - i,
{
    if i < 0 || i >= children.len() {
        None
    } else if child_matches(nodes, children[i], name) {
        Some(children[i])
    } else {
        find_child_from(nodes, children, name, i + 1)
    }
}

/// The child of directory `parent` named `name` (the first one listed).
pub open spec fn lookup_spec(nodes: Seq<VfsNode>, parent: usize, name: Seq<u8>) -> Option<usize> {
    find_child_from(nodes, nodes[parent as int].children@, name, 0)
}

/// Where one path component leads from node `cur`.
pub open spec fn step_spec(nodes: Seq<VfsNode>, cur: Option<usize>, comp: Seq<u8>) -> Option<usize> {
    match cur {
        None => None,
        Some(c) => if comp.len() == 0 || comp == seq![0x2Eu8] {
            Some(c)
        } else if comp == seq![0x2Eu8, 0x2Eu8] {
            let p = nodes[c as int].parent;
            if p != 0 && p < nodes.len() {
                Some(p)
            } else {
                Some(c)
            }
        } else {
            lookup_spec(nodes, c, comp)
        },
    }
}

/// State after scanning the first `n` bytes of a (trimmed) path: the node
/// reached so far and the start of the component being read.
pub open spec fn scan_spec(nodes: Seq<VfsNode>, t: Seq<u8>, n: nat) -> (Option<usize>, int)
    decreases n,
{
    if n == 0 {
        (Some(0), 0)
    } else {
        let (c, st) = scan_spec(nodes, t, (n - 1) as nat);
        if t[n - 1] == 0x2F {
            (step_spec(nodes, c, t.subrange(st, n - 1)), n as int)
        } else {
            (c, st)
        }
    }
}

/// The path without its leading slashes.
pub open spec fn trim_slashes(p: Seq<u8>) -> Seq<u8>
    decreases p.len(),
{
    if p.len() > 0 && p[0] == 0x2F {
        trim_slashes(p.drop_first())
    } else {
        p
    }
}

/// The node that a path leads to: leading slashes are ignored, the rest is
/// split at '/', empty and "." components stay, ".." goes to the parent
/// (but never to the root's slot 0 nor out of the table), any other
/// component is looked up among the children.
pub open spec fn resolve_spec(nodes: Seq<VfsNode>, path: Seq<u8>) -> Option<usize> {
    let t = trim_slashes(path);
    if t.len() == 0 {
        Some(0)
    } else {
        let (c, st) = scan_spec(nodes, t, t.len());
        step_spec(nodes, c, t.subrange(st, t.len() as int))
    }
}

/// What reading `buf_len` bytes at `offset` from `data` yields.
pub open spec fn read_spec(data: Seq<u8>, offset: int, buf_len: int) -> Seq<u8> {
    if offset >= data.len() {
        Seq::empty()
    } else {
        let n = if buf_len < data.len() - offset { buf_len } else { data.len() - offset };
        data.subrange(offset, offset + n)
    }
}

/// The content of a file after writing `new` at `offset`: the file grows
/// (zero-filled) to cover the write when needed.
pub open spec fn write_spec(data: Seq<u8>, offset: int, new: Seq<u8>) -> Seq<u8> {
    let end = offset + new.len();
    let grown = if end > data.len() {
        data + Seq::new((end - data.len()) as nat, |i: int| 0u8)
    } else {
        data
    };
    grown.subrange(0, offset) + new + grown.subrange(end, grown.len() as int)
}

/// Two nodes that agree on everything but their child lists.
pub open spec fn same_but_children(o: VfsNode, n: VfsNode) -> bool {
    n.name == o.name && n.name_len == o.name_len && n.node_type == o.node_type && n.inode == o.inode
        && n.parent == o.parent && n.data == o.data && n.size == o.size && n.permissions
        == o.permissions && n.ref_count == o.ref_count
}

/// `new` is `old` with a node of type `t` named `name`, with inode number
/// `inode`, appended under directory `parent` (and listed last among its
/// children).
pub open spec fn created_in(
    old: Seq<VfsNode>,
    new: Seq<VfsNode>,
    parent: usize,
    name: Seq<u8>,
    t: VfsNodeType,
    perm: u16,
    inode: u64,
) -> bool {
    &&& new.len() == old.len() + 1
    &&& new[old.len() as int].is_new_node(name, parent, t, perm)
    &&& new[old.len() as int].inode == inode
    &&& forall|i: int| 0 <= i < old.len() && i != parent ==> #[trigger] new[i] == old[i]
    &&& same_but_children(old[parent as int], new[parent as int])
    &&& new[parent as int].children@ == old[parent as int].children@.push(old.len() as usize)
}

/// `s` without any occurrence of `x` (order kept).
pub open spec fn remove_value(s: Seq<usize>, x: usize) -> Seq<usize>
    decreases s.len(),
{
    if s.len() == 0 {
        s
    } else {
        let r = remove_value(s.drop_last(), x);
        if s.last() != x {
            r.push(s.last())
        } else {
            r
        }
    }
}

/// The node table after deleting node `idx`: the parent (when it is in
/// the table) stops listing it, then the slot is emptied.
pub open spec fn deleted_in(old: Seq<VfsNode>, new: Seq<VfsNode>, idx: usize) -> bool {
    let p = old[idx as int].parent;
    &&& new.len() == old.len()
    &&& new[idx as int].is_empty_node()
    &&& forall|i: int| 0 <= i < old.len() && i != idx && i != p ==> #[trigger] new[i] == old[i]
    &&& (p < old.len() && p != idx) ==> {
        &&& same_but_children(old[p as int], new[p as int])
        &&& new[p as int].children@ == remove_value(old[p as int].children@, idx)
    }
}

pub(crate) proof fn lemma_remove_value_bounded(s: Seq<usize>, x: usize, b: int)
    requires
        forall|j: int| 0 <= j < s.len() ==> #[trigger] s[j] < b,
    ensures
        forall|k: int| 0 <= k < remove_value(s, x).len() ==> #[trigger] remove_value(s, x)[k] < b,
    decreases s.len(),
{
    if s.len() > 0 {
        assert forall|j: int| 0 <= j < s.drop_last().len() implies #[trigger] s.drop_last()[j] < b by {
            assert(s.drop_last()[j] == s[j]);
        }
        lemma_remove_value_bounded(s.drop_last(), x, b);
        assert(s.last() == s[s.len() - 1]);
        let r = remove_value(s.drop_last(), x);
        assert forall|k: int| 0 <= k < remove_value(s, x).len() implies #[trigger] remove_value(s, x)[k] < b by {
            if k < r.len() {
                assert(remove_value(s, x)[k] == r[k]);
            }
        }
    }
}

pub(crate) fn remove_all(v: &Vec<usize>, x: usize) -> (r: Vec<usize>)
    ensures
        r@ == remove_value(v@, x),
{
    let mut r: Vec<usize> = Vec::new();
    let mut i: usize = 0;
    while i < v.len()
        invariant
            0 <= i <= v@.len(),
            r@ == remove_value(v@.subrange(0, i as int), x),
        decreases v.len() - i,
    {
        assert(v@.subrange(0, i + 1).drop_last() =~= v@.subrange(0, i as int));
        if v[i] != x {
            r.push(v[i]);
        }
        i = i + 1;
    }
    assert(v@.subrange(0, v@.len() as int) =~= v@);
    r
}

/// Copy `new` into `data` at `offset`, growing `data` with zeros first
/// when the write runs past its end.
pub(crate) fn write_at(data: &mut Vec<u8>, offset: usize, new: &[u8])
    requires
        offset + new@.len() <= usize::MAX,
    ensures
        final(data)@ == write_spec(old(data)@, offset as int, new@),
{
    let end = offset + new.len();
    if end > data.len() {
        data.resize(end, 0);
    }
    let ghost grown = data@;
    assert(grown == (if end > old(data)@.len() {
        old(data)@ + Seq::new((end - old(data)@.len()) as nat, |i: int| 0u8)
    } else {
        old(data)@
    })) by {
        if end > old(data)@.len() {
            assert forall|k: int| old(data)@.len() <= k < end implies grown[k] == 0u8 by {
                assert(vstd::pervasive::cloned::<u8>(0u8, grown[k]));
            }
            assert(grown =~= old(data)@ + Seq::new((end - old(data)@.len()) as nat, |i: int| 0u8));
        }
    }
    let mut i: usize = 0;
    while i < new.len()
        invariant
            0 <= i <= new@.len(),
            end == offset + new@.len(),
            data@.len() == grown.len(),
            grown.len() >= end,
            forall|k: int| 0 <= k < offset ==> data@[k] == grown[k],
            forall|k: int| offset <= k < offset + i ==> data@[k] == new@[k - offset],
            forall|k: int| offset + i <= k < grown.len() ==> data@[k] == grown[k],
        decreases new.len() - i,
    {
        data[offset + i] = new[i];
        i = i + 1;
    }
    assert(data@ =~= write_spec(old(data)@, offset as int, new@));
}

/// Copy into `buf` what reading at `offset` from `data` yields; returns
/// the number of bytes copied.
pub(crate) fn read_at(data: &[u8], offset: usize, buf: &mut [u8]) -> (n: usize)
    ensures
        n == read_spec(data@, offset as int, old(buf)@.len() as int).len(),
        final(buf)@.len() == old(buf)@.len(),
        final(buf)@.subrange(0, n as int) == read_spec(data@, offset as int, old(buf)@.len() as int),
        final(buf)@.subrange(n as int, final(buf)@.len() as int) == old(buf)@.subrange(
            n as int,
            old(buf)@.len() as int,
        ),
{
    if offset >= data.len() {
        assert(buf@.subrange(0, buf@.len() as int) =~= buf@);
        return 0;
    }
    let available = data.len() - offset;
    let to_read = if buf.len() < available { buf.len() } else { available };
    let mut i: usize = 0;
    while i < to_read
        invariant
            0 <= i <= to_read,
            to_read <= buf@.len(),
            offset + to_read <= data.len(),
            buf@.len() == old(buf)@.len(),
            forall|k: int| 0 <= k < i ==> buf@[k] == data@[offset + k],
            forall|k: int| i <= k < buf@.len() ==> buf@[k] == old(buf)@[k],
        decreases to_read - i,
    {
        buf[i] = data[offset + i];
        i = i + 1;
    }
    assert(buf@.subrange(0, to_read as int) =~= read_spec(data@, offset as int, old(buf)@.len() as int));
    assert(buf@.subrange(to_read as int, buf@.len() as int) =~= old(buf)@.subrange(
        to_read as int,
        old(buf)@.len() as int,
    ));
    to_read
}

/// Index of the last '/' among the first `n` bytes of `t`, or -1.
pub open spec fn last_slash(t: Seq<u8>, n: int) -> int
    decreases n,
{
    if n <= 0 {
        -1
    } else if t[n - 1] == 0x2F {
        n - 1
    } else {
        last_slash(t, n - 1)
    }
}

/// How a path splits into (parent path, final name).
pub open spec fn split_spec(p: Seq<u8>) -> Result<(Seq<u8>, Seq<u8>), &'static str> {
    let t = trim_slashes(p);
    if t.len() == 0 {
        Err("empty path")
    } else {
        let pos = last_slash(t, t.len() as int);
        if pos < 0 {
            Ok((seq![0x2Fu8], t))
        } else {
            let parent = if pos == 0 { seq![0x2Fu8] } else { t.subrange(0, pos) };
            let name = t.subrange(pos + 1, t.len() as int);
            if name.len() == 0 {
                Err("empty name")
            } else {
                Ok((parent, name))
            }
        }
    }
}

proof fn lemma_last_slash_bounds(t: Seq<u8>, n: int)
    requires
        n <= t.len(),
    ensures
        -1 <= last_slash(t, n) < n || (n <= 0 && last_slash(t, n) == -1),
        last_slash(t, n) >= 0 ==> t[last_slash(t, n)] == 0x2F,
    decreases n,
{
    if n > 0 {
        lemma_last_slash_bounds(t, n - 1);
    }
}

fn trim_leading_slashes(path: &[u8]) -> (t: &[u8])
    ensures
        t@ == trim_slashes(path@),
{
    let mut s: usize = 0;
    assert(path@.subrange(0, path@.len() as int) =~= path@);
    while s < path.len() && path[s] == 0x2F
        invariant
            0 <= s <= path@.len(),
            trim_slashes(path@) == trim_slashes(path@.subrange(s as int, path@.len() as int)),
        decreases path.len() - s,
    {
        assert(path@.subrange(s as int, path@.len() as int).drop_first() =~= path@.subrange(
            s + 1,
            path@.len() as int,
        ));
        s = s + 1;
    }
    let t = vstd::slice::slice_subrange(path, s, path.len());
    assert(trim_slashes(t@) == t@);
    t
}

/// Split a path into (parent path, name).
fn split_path(path: &[u8]) -> (r: Result<(&[u8], &[u8]), &'static str>)
    ensures
        match split_spec(path@) {
            Ok((pp, name)) => r matches Ok((a, b)) && a@ == pp && b@ == name,
            Err(e) => r == Err::<(&[u8], &[u8]), &'static str>(e),
        },
{
    let t = trim_leading_slashes(path);
    if t.len() == 0 {
        return Err("empty path");
    }
    let mut i: usize = t.len();
    while i > 0 && t[i - 1] != 0x2F
        invariant
            0 <= i <= t@.len(),
            last_slash(t@, t@.len() as int) == last_slash(t@, i as int),
        decreases i,
    {
        i = i - 1;
    }
    proof {
        lemma_last_slash_bounds(t@, t@.len() as int);
    }
    let root: &[u8] = &[0x2F];
    assert(root@ =~= seq![0x2Fu8]);
    if i == 0 {
        return Ok((root, t));
    }
    let pos = i - 1;
    let parent = if pos == 0 { root } else { vstd::slice::slice_subrange(t, 0, pos) };
    let name = vstd::slice::slice_subrange(t, pos + 1, t.len());
    if name.len() == 0 {
        return Err("empty name");
    }
    Ok((parent, name))
}

/// The indices among `ch` that name a slot of the table, in order.
pub open spec fn listed(nodes: Seq<VfsNode>, ch: Seq<usize>) -> Seq<usize>
    decreases ch.len(),
{
    if ch.len() == 0 {
        ch
    } else {
        let r = listed(nodes, ch.drop_last());
        if ch.last() < nodes.len() {
            r.push(ch.last())
        } else {
            r
        }
    }
}

/// The children that a directory listing of node `idx` shows.
pub open spec fn dir_listing(nodes: Seq<VfsNode>, idx: int) -> Seq<usize> {
    if idx < 0 || idx >= nodes.len() || nodes[idx].node_type != VfsNodeType::Directory {
        Seq::empty()
    } else {
        listed(nodes, nodes[idx].children@)
    }
}

/// The children shown by a path listing: those with a non-empty name.
pub open spec fn named_listed(nodes: Seq<VfsNode>, ch: Seq<usize>) -> Seq<usize>
    decreases ch.len(),
{
    if ch.len() == 0 {
        ch
    } else {
        let r = named_listed(nodes, ch.drop_last());
        if ch.last() < nodes.len() && nodes[ch.last() as int].name_len > 0 {
            r.push(ch.last())
        } else {
            r
        }
    }
}

/// A displayed name: the node's name when it is valid UTF-8, else "?".
pub open spec fn shows_name(shown: Seq<char>, name: Seq<u8>) -> bool {
    if valid_utf8(name) {
        vstd::utf8::encode_utf8(shown) == name
    } else {
        shown == seq!['?']
    }
}

/// A listing entry (shown name, inode, type) describes node `c`.
pub open spec fn shows_entry(nodes: Seq<VfsNode>, c: usize, shown: Seq<char>, inode: u64, t: VfsNodeType) -> bool {
    &&& shows_name(shown, nodes[c as int].name_bytes())
    &&& inode == nodes[c as int].inode
    &&& t == nodes[c as int].node_type
}

proof fn lemma_scan_none_stays(nodes: Seq<VfsNode>, t: Seq<u8>, k: nat, n: nat)
    requires
        k <= n <= t.len(),
        scan_spec(nodes, t, k).0 is None,
    ensures
        scan_spec(nodes, t, n).0 is None,
    decreases n,
{
    if n > k {
        lemma_scan_none_stays(nodes, t, k, (n - 1) as nat);
    }
}

proof fn lemma_scan_start_bounded(nodes: Seq<VfsNode>, t: Seq<u8>, n: nat)
    requires
        n <= t.len(),
    ensures
        0 <= scan_spec(nodes, t, n).1 <= n,
    decreases n,
{
    if n > 0 {
        lemma_scan_start_bounded(nodes, t, (n - 1) as nat);
    }
}

impl Vfs {
    /// The node table.
    pub closed spec fn nodes_view(&self) -> Seq<VfsNode> {
        self.nodes@
    }

    /// The inode number that the next created node receives.
    pub closed spec fn next_inode_view(&self) -> u64 {
        self.next_inode
    }

    /// Well-formedness: the root exists, every name fits its buffer, every
    /// inode number is below the next one to be handed out, and every
    /// listed child is a slot of the table.
    pub open spec fn wf(&self) -> bool {
        &&& self.nodes_view().len() >= 1
        &&& forall|i: int| 0 <= i < self.nodes_view().len() ==> #[trigger] self.nodes_view()[i].name_len <= 60
            && self.nodes_view()[i].inode < self.next_inode_view()
        &&& forall|i: int, k: int|
            0 <= i < self.nodes_view().len() && 0 <= k < self.nodes_view()[i].children@.len()
                ==> #[trigger] self.nodes_view()[i].children@[k] < self.nodes_view().len()
    }

    /// A VFS holding only the root directory "/" (inode 1).
    pub fn new() -> (fs: Self)
        ensures
            fs.wf(),
            fs.nodes_view().len() == 1,
            fs.nodes_view()[0].inode == 1,
            fs.nodes_view()[0].node_type == VfsNodeType::Directory,
            fs.nodes_view()[0].name_bytes() == seq![0x2Fu8],
            fs.nodes_view()[0].children@.len() == 0,
            fs.next_inode_view() == 2,
    {
        let mut root = VfsNode::new_dir(&[0x2F], 0);
        root.inode = 1;
        let mut nodes = Vec::new();
        nodes.push(root);
        Vfs { nodes, next_inode: 2 }
    }

    /// Append an empty node carrying the next inode number; returns its
    /// index (there is no limit on the table, so this always succeeds).
    fn alloc_node(&mut self) -> (r: Option<usize>)
        requires
            old(self).next_inode_view() < u64::MAX,
        ensures
            r matches Some(idx) && idx == old(self).nodes_view().len(),
            final(self).nodes_view().len() == old(self).nodes_view().len() + 1,
            forall|i: int|
                0 <= i < old(self).nodes_view().len() ==> #[trigger] final(self).nodes_view()[i]
                    == old(self).nodes_view()[i],
            final(self).next_inode_view() == old(self).next_inode_view() + 1,
    {
        let idx = self.nodes.len();
        let mut node = VfsNode::empty();
        node.inode = self.next_inode;
        self.nodes.push(node);
        self.next_inode = self.next_inode + 1;
        Some(idx)
    }

    /// Put `node` into slot `idx`.
    fn set_node(&mut self, idx: usize, node: VfsNode)
        requires
            idx < old(self).nodes_view().len(),
        ensures
            final(self).nodes_view() == old(self).nodes_view().update(idx as int, node),
            final(self).next_inode_view() == old(self).next_inode_view(),
    {
        self.nodes[idx] = node;
    }

    fn add_child(&mut self, parent_idx: usize, child_idx: usize)
        requires
            parent_idx < old(self).nodes_view().len(),
        ensures
            final(self).nodes_view().len() == old(self).nodes_view().len(),
            final(self).next_inode_view() == old(self).next_inode_view(),
            forall|i: int|
                0 <= i < old(self).nodes_view().len() && i != parent_idx
                    ==> #[trigger] final(self).nodes_view()[i] == old(self).nodes_view()[i],
            final(self).nodes_view()[parent_idx as int].children@
                == old(self).nodes_view()[parent_idx as int].children@.push(child_idx),
            same_but_children(
                old(self).nodes_view()[parent_idx as int],
                final(self).nodes_view()[parent_idx as int],
            ),
    {
        let mut parent = VfsNode::empty();
        std::mem::swap(&mut parent, &mut self.nodes[parent_idx]);
        parent.children.push(child_idx);
        std::mem::swap(&mut parent, &mut self.nodes[parent_idx]);
    }

    fn create_node(&mut self, parent_idx: usize, node: VfsNode) -> (r: Result<usize, &'static str>)
        requires
            old(self).wf(),
            parent_idx < old(self).nodes_view().len(),
            old(self).next_inode_view() < u64::MAX,
            node.name_len <= 60,
            node.children@.len() == 0,
            node.inode == old(self).next_inode_view(),
        ensures
            final(self).wf(),
            r == Ok::<usize, &'static str>(old(self).nodes_view().len() as usize),
            final(self).nodes_view().len() == old(self).nodes_view().len() + 1,
            final(self).nodes_view()[old(self).nodes_view().len() as int] == node,
            forall|i: int|
                0 <= i < old(self).nodes_view().len() && i != parent_idx
                    ==> #[trigger] final(self).nodes_view()[i] == old(self).nodes_view()[i],
            same_but_children(
                old(self).nodes_view()[parent_idx as int],
                final(self).nodes_view()[parent_idx as int],
            ),
            final(self).nodes_view()[parent_idx as int].children@
                == old(self).nodes_view()[parent_idx as int].children@.push(
                old(self).nodes_view().len() as usize,
            ),
            final(self).next_inode_view() == old(self).next_inode_view() + 1,
    {
        let child_idx = match self.alloc_node() {
            Some(i) => i,
            None => {
                return Err("VFS node table full");
            },
        };
        let ghost n1 = self.nodes_view();
        self.set_node(child_idx, node);
        let ghost n2 = self.nodes_view();
        self.add_child(parent_idx, child_idx);
        proof {
            assert forall|i: int|
                0 <= i < old(self).nodes_view().len() && i != parent_idx implies #[trigger] self.nodes_view()[i]
                == old(self).nodes_view()[i] by {
                assert(self.nodes_view()[i] == n2[i]);
                assert(n2[i] == n1[i]);
            }
            assert(self.nodes_view()[child_idx as int] == n2[child_idx as int]);
            assert forall|i: int| 0 <= i < self.nodes_view().len() implies #[trigger] self.nodes_view()[i].name_len <= 60 by {
                if i < old(self).nodes_view().len() && i != parent_idx {
                    assert(self.nodes_view()[i] == old(self).nodes_view()[i]);
                }
            }
            assert forall|i: int, k: int|
                0 <= i < self.nodes_view().len() && 0 <= k < self.nodes_view()[i].children@.len()
                    implies #[trigger] self.nodes_view()[i].children@[k] < self.nodes_view().len() by {
                if i < old(self).nodes_view().len() && i != parent_idx {
                    assert(self.nodes_view()[i] == old(self).nodes_view()[i]);
                } else if i == parent_idx {
                    let oc = old(self).nodes_view()[i].children@;
                    if k < oc.len() {
                        assert(self.nodes_view()[i].children@[k] == oc[k]);
                    }
                }
            }
        }
        Ok(child_idx)
    }

    /// Create a file named `name` (truncated to 60 bytes) in directory
    /// `parent_idx`. The new node gets the next slot of the table and the
    /// next inode number.
    pub fn create_file(&mut self, parent_idx: usize, name: &[u8]) -> (r: Result<usize, &'static str>)
        requires
            old(self).wf(),
            parent_idx < old(self).nodes_view().len(),
            old(self).next_inode_view() < u64::MAX,
        ensures
            final(self).wf(),
            r == Ok::<usize, &'static str>(old(self).nodes_view().len() as usize),
            created_in(
                old(self).nodes_view(),
                final(self).nodes_view(),
                parent_idx,
                name@,
                VfsNodeType::File,
                0o644,
                old(self).next_inode_view(),
            ),
            final(self).next_inode_view() == old(self).next_inode_view() + 1,
    {
        let mut node = VfsNode::new_file(name, parent_idx);
        node.inode = self.next_inode;
        self.create_node(parent_idx, node)
    }

    /// Create a directory named `name` (truncated to 60 bytes) in directory
    /// `parent_idx`. The new node gets the next slot of the table and the
    /// next inode number.
    pub fn create_dir(&mut self, parent_idx: usize, name: &[u8]) -> (r: Result<usize, &'static str>)
        requires
            old(self).wf(),
            parent_idx < old(self).nodes_view().len(),
            old(self).next_inode_view() < u64::MAX,
        ensures
            final(self).wf(),
            r == Ok::<usize, &'static str>(old(self).nodes_view().len() as usize),
            created_in(
                old(self).nodes_view(),
                final(self).nodes_view(),
                parent_idx,
                name@,
                VfsNodeType::Directory,
                0o755,
                old(self).next_inode_view(),
            ),
            final(self).next_inode_view() == old(self).next_inode_view() + 1,
    {
        let mut node = VfsNode::new_dir(name, parent_idx);
        node.inode = self.next_inode;
        self.create_node(parent_idx, node)
    }

    /// Does node `c` exist and carry exactly the name `name`?
    fn child_named(&self, c: usize, name: &[u8]) -> (r: bool)
        requires
            self.wf(),
        ensures
            r == child_matches(self.nodes_view(), c, name@),
    {
        if c >= self.nodes.len() {
            return false;
        }
        let child = &self.nodes[c];
        if child.name_len != name.len() {
            return false;
        }
        let stored = vstd::slice::slice_subrange(child.name.as_slice(), 0, child.name_len);
        bytes_eq(stored, name)
    }

    /// Look up a child by name within directory `parent_idx`: the first
    /// listed child that exists and is named exactly `name`.
    pub fn lookup_child(&self, parent_idx: usize, name: &[u8]) -> (r: Option<usize>)
        requires
            self.wf(),
            parent_idx < self.nodes_view().len(),
        ensures
            r == lookup_spec(self.nodes_view(), parent_idx, name@),
            r matches Some(c) ==> c < self.nodes_view().len(),
    {
        let children = &self.nodes[parent_idx].children;
        let mut i: usize = 0;
        while i < children.len()
            invariant
                self.wf(),
                parent_idx < self.nodes_view().len(),
                children@ == self.nodes_view()[parent_idx as int].children@,
                0 <= i <= children@.len(),
                lookup_spec(self.nodes_view(), parent_idx, name@) == find_child_from(
                    self.nodes_view(),
                    children@,
                    name@,
                    i as int,
                ),
            decreases children.len() - i,
        {
            let c = children[i];
            if self.child_named(c, name) {
                return Some(c);
            }
            i = i + 1;
        }
        None
    }

    /// Where the path component `comp` leads from node `cur`.
    fn step(&self, cur: usize, comp: &[u8]) -> (r: Option<usize>)
        requires
            self.wf(),
            cur < self.nodes_view().len(),
        ensures
            r == step_spec(self.nodes_view(), Some(cur), comp@),
            r matches Some(c) ==> c < self.nodes_view().len(),
    {
        if comp.len() == 0 {
            return Some(cur);
        }
        if comp.len() == 1 && comp[0] == 0x2E {
            assert(comp@ =~= seq![0x2Eu8]);
            return Some(cur);
        }
        assert(comp@ != seq![0x2Eu8]);
        if comp.len() == 2 && comp[0] == 0x2E && comp[1] == 0x2E {
            assert(comp@ =~= seq![0x2Eu8, 0x2Eu8]);
            let parent = self.nodes[cur].parent;
            if parent != 0 && parent < self.nodes.len() {
                return Some(parent);
            }
            return Some(cur);
        }
        assert(comp@ != seq![0x2Eu8, 0x2Eu8]);
        self.lookup_child(cur, comp)
    }

    /// Resolve a path, given as bytes, to a node index.
    pub fn resolve_path_bytes(&self, path: &[u8]) -> (r: Option<usize>)
        requires
            self.wf(),
        ensures
            r == resolve_spec(self.nodes_view(), path@),
            r matches Some(c) ==> c < self.nodes_view().len(),
    {
        let mut s: usize = 0;
        assert(path@.subrange(0, path@.len() as int) =~= path@);
        while s < path.len() && path[s] == 0x2F
            invariant
                0 <= s <= path@.len(),
                trim_slashes(path@) == trim_slashes(path@.subrange(s as int, path@.len() as int)),
            decreases path.len() - s,
        {
            assert(path@.subrange(s as int, path@.len() as int).drop_first() =~= path@.subrange(
                s + 1,
                path@.len() as int,
            ));
            s = s + 1;
        }
        let t = vstd::slice::slice_subrange(path, s, path.len());
        assert(trim_slashes(t@) == t@);
        if t.len() == 0 {
            return Some(0);
        }
        let mut cur: usize = 0;
        let mut start: usize = 0;
        let mut i: usize = 0;
        while i < t.len()
            invariant
                self.wf(),
                t@ == trim_slashes(path@),
                0 <= i <= t@.len(),
                scan_spec(self.nodes_view(), t@, i as nat) == (Some(cur), start as int),
                cur < self.nodes_view().len(),
                start <= i,
            decreases t.len() - i,
        {
            if t[i] == 0x2F {
                let comp = vstd::slice::slice_subrange(t, start, i);
                match self.step(cur, comp) {
                    None => {
                        proof {
                            lemma_scan_none_stays(
                                self.nodes_view(),
                                t@,
                                (i + 1) as nat,
                                t@.len(),
                            );
                        }
                        return None;
                    },
                    Some(next) => {
                        cur = next;
                        start = i + 1;
                    },
                }
            }
            i = i + 1;
        }
        let last = vstd::slice::slice_subrange(t, start, t.len());
        self.step(cur, last)
    }

    /// Resolve a path to a VFS node index.
    pub fn resolve_path(&self, path: &str) -> (r: Option<usize>)
        requires
            self.wf(),
        ensures
            r == resolve_spec(self.nodes_view(), path.spec_bytes()),
            r matches Some(c) ==> c < self.nodes_view().len(),
    {
        self.resolve_path_bytes(path.as_bytes())
    }

    /// The node at `idx`, if the table has one.
    pub fn get_node(&self, idx: usize) -> (r: Option<&VfsNode>)
        ensures
            idx < self.nodes_view().len() ==> r == Some(&self.nodes_view()[idx as int]),
            idx >= self.nodes_view().len() ==> r is None,
    {
        if idx < self.nodes.len() {
            Some(&self.nodes[idx])
        } else {
            None
        }
    }

    /// Mutable access to the node at `idx`, if the table has one.
    pub fn get_node_mut(&mut self, idx: usize) -> (r: Option<&mut VfsNode>)
        ensures
            (idx < old(self).nodes_view().len()) == (r is Some),
            r is None ==> final(self).nodes_view() == old(self).nodes_view(),
            r matches Some(n) ==> *n == old(self).nodes_view()[idx as int]
                && final(self).nodes_view() == old(self).nodes_view().update(idx as int, *final(n)),
            final(self).next_inode_view() == old(self).next_inode_view(),
    {
        if idx < self.nodes.len() {
            Some(vstd::std_specs::vec::vec_index_mut(&mut self.nodes, idx))
        } else {
            None
        }
    }

    /// Delete a node (a file or an empty directory); its slot stays in the
    /// table, emptied, so that other indices stay valid.
    pub fn delete_node(&mut self, idx: usize) -> (r: Result<(), &'static str>)
        requires
            old(self).wf(),
        ensures
            final(self).wf(),
            idx == 0 ==> r == Err::<(), &'static str>("cannot delete root"),
            idx != 0 && idx >= old(self).nodes_view().len() ==> r == Err::<(), &'static str>(
                "invalid node",
            ),
            idx != 0 && idx < old(self).nodes_view().len() && old(self).nodes_view()[idx as int].node_type
                == VfsNodeType::Directory && old(self).nodes_view()[idx as int].children@.len() != 0
                ==> r == Err::<(), &'static str>("directory not empty"),
            r is Err ==> final(self).nodes_view() == old(self).nodes_view(),
            r is Ok <==> (idx != 0 && idx < old(self).nodes_view().len() && !(old(self).nodes_view()[idx as int].node_type
                == VfsNodeType::Directory && old(self).nodes_view()[idx as int].children@.len() != 0)),
            r is Ok ==> deleted_in(old(self).nodes_view(), final(self).nodes_view(), idx),
            final(self).next_inode_view() == old(self).next_inode_view(),
    {
        if idx == 0 {
            return Err("cannot delete root");
        }
        if idx >= self.nodes.len() {
            return Err("invalid node");
        }
        if self.nodes[idx].node_type == VfsNodeType::Directory && self.nodes[idx].children.len()
            != 0 {
            return Err("directory not empty");
        }
        let parent_idx = self.nodes[idx].parent;
        let ghost n0 = self.nodes_view();
        if parent_idx < self.nodes.len() {
            let kept = remove_all(&self.nodes[parent_idx].children, idx);
            let mut parent = VfsNode::empty();
            std::mem::swap(&mut parent, &mut self.nodes[parent_idx]);
            parent.children = kept;
            std::mem::swap(&mut parent, &mut self.nodes[parent_idx]);
        }
        let ghost n1 = self.nodes_view();
        self.set_node(idx, VfsNode::empty());
        proof {
            assert forall|i: int| 0 <= i < self.nodes_view().len() implies #[trigger] self.nodes_view()[i].name_len <= 60
                && self.nodes_view()[i].inode < self.next_inode_view() by {
                if i != idx && i != parent_idx {
                    assert(self.nodes_view()[i] == n1[i]);
                    assert(n1[i] == n0[i]);
                } else if i == parent_idx && i != idx {
                    assert(self.nodes_view()[i] == n1[i]);
                    assert(n1[i].inode == n0[i].inode);
                } else {
                    assert(old(self).nodes_view()[0].name_len <= 60);
                    assert(old(self).nodes_view()[0].inode < old(self).next_inode_view());
                }
            }
            assert forall|i: int, k: int|
                0 <= i < self.nodes_view().len() && 0 <= k < self.nodes_view()[i].children@.len()
                    implies #[trigger] self.nodes_view()[i].children@[k] < self.nodes_view().len() by {
                if i != idx && i != parent_idx {
                    assert(self.nodes_view()[i] == n0[i]);
                } else if i == parent_idx && i != idx {
                    let oc = n0[i].children@;
                    assert forall|j: int| 0 <= j < oc.len() implies #[trigger] oc[j] < n0.len() by {}
                    lemma_remove_value_bounded(oc, idx, n0.len() as int);
                }
            }
        }
        Ok(())
    }
}

/// What a node-level read answers.
pub open spec fn read_outcome(nodes: Seq<VfsNode>, idx: int) -> Result<(), &'static str> {
    if idx < 0 || idx >= nodes.len() {
        Err("invalid node")
    } else if nodes[idx].node_type != VfsNodeType::File {
        Err("not a file")
    } else {
        Ok(())
    }
}

/// Read from node `node_idx` at `offset` into `buf`; returns the number of
/// bytes read (0 at or past the end of the file).
pub fn read_file_by_node(vfs: &Vfs, node_idx: usize, offset: usize, buf: &mut [u8]) -> (r: Result<
    usize,
    &'static str,
>)
    ensures
        final(buf)@.len() == old(buf)@.len(),
        match read_outcome(vfs.nodes_view(), node_idx as int) {
            Err(e) => r == Err::<usize, &'static str>(e) && final(buf)@ == old(buf)@,
            Ok(_) => {
                let got = read_spec(
                    vfs.nodes_view()[node_idx as int].data@,
                    offset as int,
                    old(buf)@.len() as int,
                );
                &&& r == Ok::<usize, &'static str>(got.len() as usize)
                &&& final(buf)@.subrange(0, got.len() as int) == got
                &&& final(buf)@.subrange(got.len() as int, old(buf)@.len() as int) == old(buf)@.subrange(got.len() as int, old(buf)@.len() as int)
            },
        },
{
    let node = match vfs.get_node(node_idx) {
        Some(n) => n,
        None => {
            return Err("invalid node");
        },
    };
    if node.node_type != VfsNodeType::File {
        return Err("not a file");
    }
    let n = read_at(node.data.as_slice(), offset, buf);
    Ok(n)
}

/// Write `data` at `offset` into node `node_idx` (the file grows with
/// zeros when needed); returns the number of bytes written.
pub fn write_file_by_node(vfs: &mut Vfs, node_idx: usize, offset: usize, data: &[u8]) -> (r: Result<
    usize,
    &'static str,
>)
    requires
        old(vfs).wf(),
        offset + data@.len() <= usize::MAX,
    ensures
        final(vfs).wf(),
        final(vfs).next_inode_view() == old(vfs).next_inode_view(),
        final(vfs).nodes_view().len() == old(vfs).nodes_view().len(),
        match read_outcome(old(vfs).nodes_view(), node_idx as int) {
            Err(e) => r == Err::<usize, &'static str>(e) && final(vfs).nodes_view() == old(vfs).nodes_view(),
            Ok(_) => {
                let o = old(vfs).nodes_view()[node_idx as int];
                let n = final(vfs).nodes_view()[node_idx as int];
                &&& r == Ok::<usize, &'static str>(data@.len() as usize)
                &&& n.data@ == write_spec(o.data@, offset as int, data@)
                &&& n.size == n.data@.len()
                &&& n.name == o.name && n.name_len == o.name_len && n.node_type == o.node_type
                    && n.inode == o.inode && n.parent == o.parent && n.children == o.children
                    && n.permissions == o.permissions && n.ref_count == o.ref_count
                &&& forall|i: int|
                    0 <= i < old(vfs).nodes_view().len() && i != node_idx
                        ==> #[trigger] final(vfs).nodes_view()[i] == old(vfs).nodes_view()[i]
            },
        },
{
    if node_idx >= vfs.nodes.len() {
        return Err("invalid node");
    }
    if vfs.nodes[node_idx].node_type != VfsNodeType::File {
        return Err("not a file");
    }
    let ghost n0 = vfs.nodes_view();
    let mut node = VfsNode::empty();
    std::mem::swap(&mut node, &mut vfs.nodes[node_idx]);
    write_at(&mut node.data, offset, data);
    node.size = node.data.len();
    std::mem::swap(&mut node, &mut vfs.nodes[node_idx]);
    proof {
        assert forall|i: int| 0 <= i < vfs.nodes_view().len() implies #[trigger] vfs.nodes_view()[i].name_len <= 60 by {
            if i != node_idx {
                assert(vfs.nodes_view()[i] == n0[i]);
            }
        }
        assert forall|i: int, k: int|
            0 <= i < vfs.nodes_view().len() && 0 <= k < vfs.nodes_view()[i].children@.len()
                implies #[trigger] vfs.nodes_view()[i].children@[k] < vfs.nodes_view().len() by {
            if i != node_idx {
                assert(vfs.nodes_view()[i] == n0[i]);
            } else {
                assert(vfs.nodes_view()[i].children@ == n0[i].children@);
                assert(n0[i].children@[k] < n0.len());
            }
        }
    }
    Ok(data.len())
}

/// What a path-level read or write answers before touching any data.
pub open spec fn path_outcome(nodes: Seq<VfsNode>, path: Seq<u8>) -> Result<usize, &'static str> {
    match resolve_spec(nodes, path) {
        None => Err("file not found"),
        Some(idx) => match read_outcome(nodes, idx as int) {
            Err(e) => Err(e),
            Ok(_) => Ok(idx),
        },
    }
}

/// Read from the file at `path`, at `offset`, into `buf`.
pub fn read_file(vfs: &Vfs, path: &str, offset: usize, buf: &mut [u8]) -> (r: Result<
    usize,
    &'static str,
>)
    requires
        vfs.wf(),
    ensures
        final(buf)@.len() == old(buf)@.len(),
        match path_outcome(vfs.nodes_view(), path.spec_bytes()) {
            Err(e) => r == Err::<usize, &'static str>(e) && final(buf)@ == old(buf)@,
            Ok(idx) => {
                let got = read_spec(
                    vfs.nodes_view()[idx as int].data@,
                    offset as int,
                    old(buf)@.len() as int,
                );
                &&& r == Ok::<usize, &'static str>(got.len() as usize)
                &&& final(buf)@.subrange(0, got.len() as int) == got
                &&& final(buf)@.subrange(got.len() as int, old(buf)@.len() as int) == old(buf)@.subrange(got.len() as int, old(buf)@.len() as int)
            },
        },
{
    let idx = match vfs.resolve_path(path) {
        Some(i) => i,
        None => {
            return Err("file not found");
        },
    };
    read_file_by_node(vfs, idx, offset, buf)
}

/// Write `data` into the file at `path`, at `offset`.
pub fn write_file(vfs: &mut Vfs, path: &str, offset: usize, data: &[u8]) -> (r: Result<
    usize,
    &'static str,
>)
    requires
        old(vfs).wf(),
        offset + data@.len() <= usize::MAX,
    ensures
        final(vfs).wf(),
        final(vfs).next_inode_view() == old(vfs).next_inode_view(),
        final(vfs).nodes_view().len() == old(vfs).nodes_view().len(),
        match path_outcome(old(vfs).nodes_view(), path.spec_bytes()) {
            Err(e) => r == Err::<usize, &'static str>(e) && final(vfs).nodes_view() == old(vfs).nodes_view(),
            Ok(idx) => {
                let o = old(vfs).nodes_view()[idx as int];
                let n = final(vfs).nodes_view()[idx as int];
                &&& r == Ok::<usize, &'static str>(data@.len() as usize)
                &&& n.data@ == write_spec(o.data@, offset as int, data@)
                &&& n.size == n.data@.len()
                &&& n.name == o.name && n.name_len == o.name_len && n.node_type == o.node_type
                    && n.inode == o.inode && n.parent == o.parent && n.children == o.children
                    && n.permissions == o.permissions && n.ref_count == o.ref_count
                &&& forall|i: int|
                    0 <= i < old(vfs).nodes_view().len() && i != idx
                        ==> #[trigger] final(vfs).nodes_view()[i] == old(vfs).nodes_view()[i]
            },
        },
{
    let idx = match vfs.resolve_path(path) {
        Some(i) => i,
        None => {
            return Err("file not found");
        },
    };
    write_file_by_node(vfs, idx, offset, data)
}

/// Resolve a path to a VFS node index.
pub fn resolve_path_idx(vfs: &Vfs, path: &str) -> (r: Option<usize>)
    requires
        vfs.wf(),
    ensures
        r == resolve_spec(vfs.nodes_view(), path.spec_bytes()),
{
    vfs.resolve_path(path)
}

/// The size recorded for node `node_idx` (0 when there is no such node).
pub fn get_file_size(vfs: &Vfs, node_idx: usize) -> (r: usize)
    ensures
        node_idx < vfs.nodes_view().len() ==> r == vfs.nodes_view()[node_idx as int].size,
        node_idx >= vfs.nodes_view().len() ==> r == 0,
{
    match vfs.get_node(node_idx) {
        Some(node) => node.size,
        None => 0,
    }
}

/// Where a path-level create or delete stands: the parent directory's
/// index and the name, or the error answered.
pub open spec fn parent_outcome(nodes: Seq<VfsNode>, path: Seq<u8>) -> Result<
    (usize, Seq<u8>),
    &'static str,
> {
    match split_spec(path) {
        Err(e) => Err(e),
        Ok((pp, name)) => match resolve_spec(nodes, pp) {
            None => Err("parent not found"),
            Some(parent) => Ok((parent, name)),
        },
    }
}

/// Create a file at `path` (its parent directory must exist).
pub fn create_file(vfs: &mut Vfs, path: &str) -> (r: Result<usize, &'static str>)
    requires
        old(vfs).wf(),
        old(vfs).next_inode_view() < u64::MAX,
    ensures
        final(vfs).wf(),
        match parent_outcome(old(vfs).nodes_view(), path.spec_bytes()) {
            Err(e) => r == Err::<usize, &'static str>(e) && final(vfs).nodes_view() == old(vfs).nodes_view() && final(vfs).next_inode_view() == old(vfs).next_inode_view(),
            Ok((parent, name)) => {
                &&& r == Ok::<usize, &'static str>(old(vfs).nodes_view().len() as usize)
                &&& created_in(
                    old(vfs).nodes_view(),
                    final(vfs).nodes_view(),
                    parent,
                    name,
                    VfsNodeType::File,
                    0o644,
                    old(vfs).next_inode_view(),
                )
                &&& final(vfs).next_inode_view() == old(vfs).next_inode_view() + 1
            },
        },
{
    let (parent_path, name) = match split_path(path.as_bytes()) {
        Ok(parts) => parts,
        Err(e) => {
            return Err(e);
        },
    };
    let parent_idx = match vfs.resolve_path_bytes(parent_path) {
        Some(i) => i,
        None => {
            return Err("parent not found");
        },
    };
    vfs.create_file(parent_idx, name)
}

/// Create a directory at `path` (its parent directory must exist).
pub fn create_dir(vfs: &mut Vfs, path: &str) -> (r: Result<usize, &'static str>)
    requires
        old(vfs).wf(),
        old(vfs).next_inode_view() < u64::MAX,
    ensures
        final(vfs).wf(),
        match parent_outcome(old(vfs).nodes_view(), path.spec_bytes()) {
            Err(e) => r == Err::<usize, &'static str>(e) && final(vfs).nodes_view() == old(vfs).nodes_view() && final(vfs).next_inode_view() == old(vfs).next_inode_view(),
            Ok((parent, name)) => {
                &&& r == Ok::<usize, &'static str>(old(vfs).nodes_view().len() as usize)
                &&& created_in(
                    old(vfs).nodes_view(),
                    final(vfs).nodes_view(),
                    parent,
                    name,
                    VfsNodeType::Directory,
                    0o755,
                    old(vfs).next_inode_view(),
                )
                &&& final(vfs).next_inode_view() == old(vfs).next_inode_view() + 1
            },
        },
{
    let (parent_path, name) = match split_path(path.as_bytes()) {
        Ok(parts) => parts,
        Err(e) => {
            return Err(e);
        },
    };
    let parent_idx = match vfs.resolve_path_bytes(parent_path) {
        Some(i) => i,
        None => {
            return Err("parent not found");
        },
    };
    vfs.create_dir(parent_idx, name)
}

/// Delete the file or empty directory at `path`.
pub fn delete(vfs: &mut Vfs, path: &str) -> (r: Result<(), &'static str>)
    requires
        old(vfs).wf(),
    ensures
        final(vfs).wf(),
        final(vfs).next_inode_view() == old(vfs).next_inode_view(),
        match parent_outcome(old(vfs).nodes_view(), path.spec_bytes()) {
            Err(e) => r == Err::<(), &'static str>(e) && final(vfs).nodes_view() == old(vfs).nodes_view(),
            Ok((parent, name)) => match lookup_spec(old(vfs).nodes_view(), parent, name) {
                None => r == Err::<(), &'static str>("not found") && final(vfs).nodes_view()
                    == old(vfs).nodes_view(),
                Some(child) => {
                    let o = old(vfs).nodes_view()[child as int];
                    if child == 0 {
                        r == Err::<(), &'static str>("cannot delete root") && final(vfs).nodes_view()
                            == old(vfs).nodes_view()
                    } else if o.node_type == VfsNodeType::Directory && o.children@.len() != 0 {
                        r == Err::<(), &'static str>("directory not empty") && final(vfs).nodes_view()
                            == old(vfs).nodes_view()
                    } else {
                        r is Ok && deleted_in(
                            old(vfs).nodes_view(),
                            final(vfs).nodes_view(),
                            child,
                        )
                    }
                },
            },
        },
{
    let (parent_path, name) = match split_path(path.as_bytes()) {
        Ok(parts) => parts,
        Err(e) => {
            return Err(e);
        },
    };
    let parent_idx = match vfs.resolve_path_bytes(parent_path) {
        Some(i) => i,
        None => {
            return Err("parent not found");
        },
    };
    let child_idx = match vfs.lookup_child(parent_idx, name) {
        Some(c) => c,
        None => {
            return Err("not found");
        },
    };
    vfs.delete_node(child_idx)
}

fn display_name(node: &VfsNode) -> (r: &str)
    requires
        node.name_len <= 60,
    ensures
        shows_name(r@, node.name_bytes()),
{
    let bytes = vstd::slice::slice_subrange(node.name.as_slice(), 0, node.name_len);
    assert(bytes@ == node.name_bytes());
    match str_from_utf8(bytes) {
        Some(s) => {
            assert(s.spec_bytes() == vstd::utf8::encode_utf8(s@));
            s
        },
        None => {
            let q = "?";
            proof {
                reveal_strlit("?");
                assert(q@ =~= seq!['?']);
            }
            q
        },
    }
}

impl Vfs {
    /// List directory `idx`: (name, inode, type) of every listed child that
    /// is a slot of the table; empty when `idx` is not a directory.
    pub fn readdir(&self, idx: usize) -> (r: Vec<(&str, u64, VfsNodeType)>)
        requires
            self.wf(),
        ensures
            r@.len() == dir_listing(self.nodes_view(), idx as int).len(),
            forall|k: int|
                0 <= k < r@.len() ==> shows_entry(
                    self.nodes_view(),
                    dir_listing(self.nodes_view(), idx as int)[k],
                    #[trigger] r@[k].0@,
                    r@[k].1,
                    r@[k].2,
                ),
    {
        let mut entries: Vec<(&str, u64, VfsNodeType)> = Vec::new();
        if idx >= self.nodes.len() {
            return entries;
        }
        if self.nodes[idx].node_type != VfsNodeType::Directory {
            return entries;
        }
        let children = &self.nodes[idx].children;
        let mut i: usize = 0;
        while i < children.len()
            invariant
                self.wf(),
                idx < self.nodes_view().len(),
                children@ == self.nodes_view()[idx as int].children@,
                0 <= i <= children@.len(),
                entries@.len() == listed(self.nodes_view(), children@.subrange(0, i as int)).len(),
                forall|k: int|
                    0 <= k < entries@.len() ==> shows_entry(
                        self.nodes_view(),
                        listed(self.nodes_view(), children@.subrange(0, i as int))[k],
                        #[trigger] entries@[k].0@,
                        entries@[k].1,
                        entries@[k].2,
                    ),
            decreases children.len() - i,
        {
            assert(children@.subrange(0, i + 1).drop_last() =~= children@.subrange(0, i as int));
            let c = children[i];
            let ghost before = entries@;
            let ghost lst = listed(self.nodes_view(), children@.subrange(0, i as int));
            if c < self.nodes.len() {
                let child = &self.nodes[c];
                entries.push((display_name(child), child.inode, child.node_type));
                proof {
                    let lst2 = listed(self.nodes_view(), children@.subrange(0, i + 1));
                    assert(lst2 == lst.push(c));
                    assert forall|k: int| 0 <= k < entries@.len() implies shows_entry(
                        self.nodes_view(),
                        lst2[k],
                        #[trigger] entries@[k].0@,
                        entries@[k].1,
                        entries@[k].2,
                    ) by {
                        if k < before.len() {
                            assert(entries@[k] == before[k]);
                            assert(lst2[k] == lst[k]);
                        }
                    }
                }
            }
            i = i + 1;
        }
        assert(children@.subrange(0, children@.len() as int) =~= children@);
        entries
    }
}

/// List the directory at `path`: (name, inode, type) of every listed child
/// that is a slot of the table and has a non-empty name.
pub fn readdir(vfs: &Vfs, path: &str) -> (r: Vec<(String, u64, VfsNodeType)>)
    requires
        vfs.wf(),
    ensures
        ({
            let shown = match resolve_spec(vfs.nodes_view(), path.spec_bytes()) {
                Some(idx) => if vfs.nodes_view()[idx as int].node_type == VfsNodeType::Directory {
                    named_listed(vfs.nodes_view(), vfs.nodes_view()[idx as int].children@)
                } else {
                    Seq::empty()
                },
                None => Seq::empty(),
            };
            &&& r@.len() == shown.len()
            &&& forall|k: int|
                0 <= k < r@.len() ==> shows_entry(
                    vfs.nodes_view(),
                    shown[k],
                    #[trigger] r@[k].0@,
                    r@[k].1,
                    r@[k].2,
                )
        }),
{
    let mut entries: Vec<(String, u64, VfsNodeType)> = Vec::new();
    let idx = match vfs.resolve_path(path) {
        Some(i) => i,
        None => {
            return entries;
        },
    };
    let node = match vfs.get_node(idx) {
        Some(n) => n,
        None => {
            return entries;
        },
    };
    if node.node_type != VfsNodeType::Directory {
        return entries;
    }
    let children = &node.children;
    let mut i: usize = 0;
    while i < children.len()
        invariant
            vfs.wf(),
            idx < vfs.nodes_view().len(),
            children@ == vfs.nodes_view()[idx as int].children@,
            0 <= i <= children@.len(),
            entries@.len() == named_listed(vfs.nodes_view(), children@.subrange(0, i as int)).len(),
            forall|k: int|
                0 <= k < entries@.len() ==> shows_entry(
                    vfs.nodes_view(),
                    named_listed(vfs.nodes_view(), children@.subrange(0, i as int))[k],
                    #[trigger] entries@[k].0@,
                    entries@[k].1,
                    entries@[k].2,
                ),
        decreases children.len() - i,
    {
        assert(children@.subrange(0, i + 1).drop_last() =~= children@.subrange(0, i as int));
        let c = children[i];
        let ghost before = entries@;
        let ghost lst = named_listed(vfs.nodes_view(), children@.subrange(0, i as int));
        match vfs.get_node(c) {
            Some(child) => {
                if child.name_len > 0 {
                    let name = display_name(child).to_owned();
                    entries.push((name, child.inode, child.node_type));
                    proof {
                        let lst2 = named_listed(vfs.nodes_view(), children@.subrange(0, i + 1));
                        assert(lst2 == lst.push(c));
                        assert forall|k: int| 0 <= k < entries@.len() implies shows_entry(
                            vfs.nodes_view(),
                            lst2[k],
                            #[trigger] entries@[k].0@,
                            entries@[k].1,
                            entries@[k].2,
                        ) by {
                            if k < before.len() {
                                assert(entries@[k] == before[k]);
                                assert(lst2[k] == lst[k]);
                            }
                        }
                    }
                }
            },
            None => {},
        }
        i = i + 1;
    }
    assert(children@.subrange(0, children@.len() as int) =~= children@);
    entries
}

} // verus!
