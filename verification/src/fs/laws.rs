//! Properties that relate the VFS operations to one another.
use vstd::prelude::*;
use super::node::{VfsNode, VfsNodeType, stored_name};
use super::{
    Vfs, dir_listing, listed, child_matches, created_in, deleted_in, find_child_from, lookup_spec, path_outcome,
    read_outcome, read_spec, remove_value, resolve_spec, same_but_children, scan_spec,
    step_spec, write_spec,
};

verus! {

/// Reading at the offset of a write gives back the written bytes first:
/// the read covers at least as much of them as the buffer holds.
pub proof fn law_read_back_write(data: Seq<u8>, offset: int, new: Seq<u8>, buf_len: int)
    requires
        0 <= offset,
        0 <= buf_len,
    ensures
        ({
            let got = read_spec(write_spec(data, offset, new), offset, buf_len);
            let m = if buf_len < new.len() { buf_len } else { new.len() as int };
            got.len() >= m && got.subrange(0, m) == new.subrange(0, m)
        }),
{
    let w = write_spec(data, offset, new);
    let m = if buf_len < new.len() { buf_len } else { new.len() as int };
    assert(w.len() >= offset + new.len());
    let got = read_spec(w, offset, buf_len);
    if m > 0 {
        assert(got.subrange(0, m) =~= new.subrange(0, m));
    } else {
        assert(got.subrange(0, m) =~= new.subrange(0, m));
    }
}

/// A write leaves the bytes outside the written range as they were, and
/// zero-fills any gap between the old end of the file and the offset.
pub proof fn law_write_keeps_rest(data: Seq<u8>, offset: int, new: Seq<u8>, k: int)
    requires
        0 <= offset,
        0 <= k,
        k < offset || k >= offset + new.len(),
        k < write_spec(data, offset, new).len(),
    ensures
        write_spec(data, offset, new).len() == if offset + new.len() > data.len() {
            offset + new.len()
        } else {
            data.len() as int
        },
        k < data.len() ==> write_spec(data, offset, new)[k] == data[k],
        k >= data.len() ==> write_spec(data, offset, new)[k] == 0,
{
}

/// Two node tables that agree on everything path lookup reads.
pub open spec fn same_shape(a: Seq<VfsNode>, b: Seq<VfsNode>) -> bool {
    &&& a.len() == b.len()
    &&& forall|i: int|
        0 <= i < a.len() ==> {
            &&& #[trigger] a[i].name == b[i].name
            &&& a[i].name_len == b[i].name_len
            &&& a[i].parent == b[i].parent
            &&& a[i].children@ == b[i].children@
        }
}

proof fn lemma_find_same_shape(a: Seq<VfsNode>, b: Seq<VfsNode>, ch: Seq<usize>, name: Seq<u8>, i: int)
    requires
        same_shape(a, b),
    ensures
        find_child_from(a, ch, name, i) == find_child_from(b, ch, name, i),
    decreases ch.len() - i,
{
    if 0 <= i < ch.len() {
        let c = ch[i];
        if c < a.len() {
            assert(a[c as int].name == b[c as int].name);
        }
        assert(child_matches(a, c, name) == child_matches(b, c, name));
        lemma_find_same_shape(a, b, ch, name, i + 1);
    }
}

proof fn lemma_step_same_shape(a: Seq<VfsNode>, b: Seq<VfsNode>, cur: Option<usize>, comp: Seq<u8>)
    requires
        same_shape(a, b),
        cur matches Some(c) ==> c < a.len(),
    ensures
        step_spec(a, cur, comp) == step_spec(b, cur, comp),
{
    if let Some(c) = cur {
        assert(a[c as int].name == b[c as int].name);
        lemma_find_same_shape(a, b, a[c as int].children@, comp, 0);
    }
}

proof fn lemma_step_in_table(a: Seq<VfsNode>, cur: Option<usize>, comp: Seq<u8>, i: int)
    requires
        cur matches Some(c) ==> c < a.len(),
        0 <= i,
        step_spec(a, cur, comp) is Some,
        step_spec(a, cur, comp) == find_child_from(a, a[cur->0 as int].children@, comp, i)
            || !(comp.len() != 0 && comp != seq![0x2Eu8] && comp != seq![0x2Eu8, 0x2Eu8]),
    ensures
        step_spec(a, cur, comp)->0 < a.len(),
    decreases a[cur->0 as int].children@.len() - i,
{
    let c = cur->0;
    let ch = a[c as int].children@;
    if comp.len() != 0 && comp != seq![0x2Eu8] && comp != seq![0x2Eu8, 0x2Eu8] {
        if 0 <= i < ch.len() && !child_matches(a, ch[i], comp) {
            lemma_step_in_table(a, cur, comp, i + 1);
        }
    }
}

proof fn lemma_scan_same_shape(a: Seq<VfsNode>, b: Seq<VfsNode>, t: Seq<u8>, n: nat)
    requires
        same_shape(a, b),
        a.len() >= 1,
        n <= t.len(),
    ensures
        scan_spec(a, t, n) == scan_spec(b, t, n),
        scan_spec(a, t, n).0 matches Some(c) ==> c < a.len(),
    decreases n,
{
    if n > 0 {
        lemma_scan_same_shape(a, b, t, (n - 1) as nat);
        let (c, st) = scan_spec(a, t, (n - 1) as nat);
        if t[n - 1] == 0x2F {
            let comp = t.subrange(st, n - 1);
            lemma_step_same_shape(a, b, c, comp);
            if step_spec(a, c, comp) is Some {
                lemma_step_in_table(a, c, comp, 0);
            }
        }
    }
}

/// Path resolution reads only names, parents and child lists: two tables
/// that agree on those resolve every path alike.
pub proof fn law_resolve_same_shape(a: Seq<VfsNode>, b: Seq<VfsNode>, path: Seq<u8>)
    requires
        same_shape(a, b),
        a.len() >= 1,
    ensures
        resolve_spec(a, path) == resolve_spec(b, path),
{
    let t = super::trim_slashes(path);
    if t.len() != 0 {
        lemma_scan_same_shape(a, b, t, t.len());
        let (c, st) = scan_spec(a, t, t.len());
        lemma_step_same_shape(a, b, c, t.subrange(st, t.len() as int));
    }
}

/// The table after a successful `write_file` / `write_file_by_node` of
/// `data` at `offset` into node `idx` (as their contracts describe it).
pub open spec fn written_in(old: Seq<VfsNode>, new: Seq<VfsNode>, idx: usize, offset: int, data: Seq<u8>) -> bool {
    let o = old[idx as int];
    let n = new[idx as int];
    &&& new.len() == old.len()
    &&& idx < old.len()
    &&& n.data@ == write_spec(o.data@, offset, data)
    &&& n.name == o.name && n.name_len == o.name_len && n.node_type == o.node_type
        && n.inode == o.inode && n.parent == o.parent && n.children == o.children
        && n.permissions == o.permissions && n.ref_count == o.ref_count
    &&& forall|i: int| 0 <= i < old.len() && i != idx ==> #[trigger] new[i] == old[i]
}

/// Read-after-write through paths: once `write_file(path, offset, data)`
/// has succeeded, `read_file(path, offset, ..)` finds the same file and
/// returns the written bytes first.
pub proof fn law_path_read_after_write(
    old: Seq<VfsNode>,
    new: Seq<VfsNode>,
    path: Seq<u8>,
    offset: int,
    data: Seq<u8>,
    buf_len: int,
)
    requires
        old.len() >= 1,
        0 <= offset,
        0 <= buf_len,
        path_outcome(old, path) is Ok,
        written_in(old, new, path_outcome(old, path)->Ok_0, offset, data),
    ensures
        path_outcome(new, path) == path_outcome(old, path),
        ({
            let idx = path_outcome(old, path)->Ok_0;
            let got = read_spec(new[idx as int].data@, offset, buf_len);
            let m = if buf_len < data.len() { buf_len } else { data.len() as int };
            got.len() >= m && got.subrange(0, m) == data.subrange(0, m)
        }),
{
    let idx = path_outcome(old, path)->Ok_0;
    assert(same_shape(old, new)) by {
        assert forall|i: int| 0 <= i < old.len() implies {
            &&& #[trigger] old[i].name == new[i].name
            &&& old[i].name_len == new[i].name_len
            &&& old[i].parent == new[i].parent
            &&& old[i].children@ == new[i].children@
        } by {
            if i != idx {
                assert(new[i] == old[i]);
            }
        }
    }
    law_resolve_same_shape(old, new, path);
    law_read_back_write(old[idx as int].data@, offset, data, buf_len);
}

proof fn lemma_find_in_grown(
    old: Seq<VfsNode>,
    new: Seq<VfsNode>,
    ch: Seq<usize>,
    name: Seq<u8>,
    i: int,
)
    requires
        forall|k: int| 0 <= k < old.len() ==> (#[trigger] new[k]).name == old[k].name && new[k].name_len == old[k].name_len,
        new.len() == old.len() + 1,
        child_matches(new, old.len() as usize, name),
        find_child_from(old, ch, name, i) is None,
        forall|k: int| 0 <= k < ch.len() ==> #[trigger] ch[k] < old.len(),
        0 <= i <= ch.len(),
    ensures
        find_child_from(new, ch.push(old.len() as usize), name, i) == Some(old.len() as usize),
    decreases ch.len() - i,
{
    let ch2 = ch.push(old.len() as usize);
    if i < ch.len() {
        let c = ch[i];
        assert(ch2[i] == c);
        assert(c < old.len());
        assert(new[c as int].name == old[c as int].name);
        assert(!child_matches(old, c, name));
        assert(!child_matches(new, c, name));
        lemma_find_in_grown(old, new, ch, name, i + 1);
    } else {
        assert(ch2[ch.len() as int] == old.len() as usize);
    }
}

/// Create-then-lookup: after a node named `name` is created under
/// `parent` (which held no child of that stored name), looking the stored
/// name up under `parent` finds the new node.
pub proof fn law_lookup_after_create(
    old: Seq<VfsNode>,
    new: Seq<VfsNode>,
    parent: usize,
    name: Seq<u8>,
    t: VfsNodeType,
    perm: u16,
    inode: u64,
)
    requires
        parent < old.len(),
        old.len() < usize::MAX,
        created_in(old, new, parent, name, t, perm, inode),
        lookup_spec(old, parent, stored_name(name)) is None,
        forall|k: int| 0 <= k < old[parent as int].children@.len() ==> #[trigger] old[parent as int].children@[k] < old.len(),
    ensures
        lookup_spec(new, parent, stored_name(name)) == Some(old.len() as usize),
{
    assert forall|k: int| 0 <= k < old.len() implies (#[trigger] new[k]).name == old[k].name && new[k].name_len == old[k].name_len by {
        if k != parent {
            assert(new[k] == old[k]);
        }
    }
    lemma_find_in_grown(old, new, old[parent as int].children@, stored_name(name), 0);
}

proof fn lemma_remove_value_absent(s: Seq<usize>, x: usize, i: int)
    requires
        0 <= i < remove_value(s, x).len(),
    ensures
        remove_value(s, x)[i] != x,
    decreases s.len(),
{
    if s.len() > 0 {
        let r = remove_value(s.drop_last(), x);
        if i < r.len() {
            lemma_remove_value_absent(s.drop_last(), x, i);
        }
    }
}

proof fn lemma_find_never(nodes: Seq<VfsNode>, ch: Seq<usize>, name: Seq<u8>, x: usize, i: int)
    requires
        forall|k: int| 0 <= k < ch.len() ==> ch[k] != x,
    ensures
        find_child_from(nodes, ch, name, i) != Some(x),
    decreases ch.len() - i,
{
    if 0 <= i < ch.len() {
        lemma_find_never(nodes, ch, name, x, i + 1);
    }
}

/// Delete-then-lookup: once node `idx` is deleted, its parent no longer
/// leads to it under any name, and its slot is empty.
pub proof fn law_lookup_after_delete(old: Seq<VfsNode>, new: Seq<VfsNode>, idx: usize, name: Seq<u8>)
    requires
        idx < old.len(),
        deleted_in(old, new, idx),
        old[idx as int].parent < old.len(),
        old[idx as int].parent != idx,
    ensures
        lookup_spec(new, old[idx as int].parent, name) != Some(idx),
        new[idx as int].is_empty_node(),
{
    let p = old[idx as int].parent;
    let ch = new[p as int].children@;
    assert forall|k: int| 0 <= k < ch.len() implies ch[k] != idx by {
        lemma_remove_value_absent(old[p as int].children@, idx, k);
    }
    lemma_find_never(new, ch, name, idx, 0);
}

/// Every node of `nodes` carries an inode number below `bound`.
pub open spec fn inodes_below(nodes: Seq<VfsNode>, bound: u64) -> bool {
    forall|i: int| 0 <= i < nodes.len() ==> #[trigger] nodes[i].inode < bound
}

/// In a well-formed VFS every node's inode number is below the number the
/// next created node receives, so that number is fresh.
pub proof fn law_inodes_below_next(v: &Vfs)
    requires
        v.wf(),
    ensures
        inodes_below(v.nodes_view(), v.next_inode_view()),
{
    assert forall|i: int| 0 <= i < v.nodes_view().len() implies #[trigger] v.nodes_view()[i].inode < v.next_inode_view() by {
        assert(v.nodes_view()[i].name_len <= 60);
    }
}

/// Fresh inode numbers: when every node's inode number is below the one
/// handed to a newly created node, the new node's number differs from
/// every other node's, and all numbers stay below the next one.
pub proof fn law_created_inode_fresh(
    old: Seq<VfsNode>,
    new: Seq<VfsNode>,
    parent: usize,
    name: Seq<u8>,
    t: VfsNodeType,
    perm: u16,
    inode: u64,
)
    requires
        parent < old.len(),
        inode < u64::MAX,
        created_in(old, new, parent, name, t, perm, inode),
        inodes_below(old, inode),
    ensures
        forall|i: int| 0 <= i < old.len() ==> #[trigger] new[i].inode != new[old.len() as int].inode,
        inodes_below(new, (inode + 1) as u64),
{
    assert forall|i: int| 0 <= i < old.len() implies #[trigger] new[i].inode == old[i].inode by {
        if i != parent {
            assert(new[i] == old[i]);
        }
    }
}

/// Listing a directory gives its listed children that are slots of the
/// table, in the order they are listed; anything that is not a directory
/// lists nothing.
pub proof fn law_readdir_lists_children(nodes: Seq<VfsNode>, idx: int)
    ensures
        (idx < 0 || idx >= nodes.len() || nodes[idx].node_type != VfsNodeType::Directory) ==> dir_listing(nodes, idx).len() == 0,
        0 <= idx < nodes.len() && nodes[idx].node_type == VfsNodeType::Directory ==> dir_listing(nodes, idx)
            == nodes[idx].children@.filter(|c: usize| c < nodes.len()),
{
    if 0 <= idx < nodes.len() && nodes[idx].node_type == VfsNodeType::Directory {
        lemma_listed_filter(nodes, nodes[idx].children@);
    }
}

proof fn lemma_listed_filter(nodes: Seq<VfsNode>, ch: Seq<usize>)
    ensures
        listed(nodes, ch) == ch.filter(|c: usize| c < nodes.len()),
    decreases ch.len(),
{
    reveal(Seq::filter);
    if ch.len() > 0 {
        lemma_listed_filter(nodes, ch.drop_last());
    }
}

proof fn lemma_find_absent_in_grown(
    old: Seq<VfsNode>,
    new: Seq<VfsNode>,
    ch: Seq<usize>,
    name: Seq<u8>,
    i: int,
)
    requires
        forall|k: int| 0 <= k < old.len() ==> (#[trigger] new[k]).name == old[k].name && new[k].name_len == old[k].name_len,
        new.len() == old.len() + 1,
        !child_matches(new, old.len() as usize, name),
        find_child_from(old, ch, name, i) is None,
        forall|k: int| 0 <= k < ch.len() ==> #[trigger] ch[k] < old.len(),
        0 <= i <= ch.len(),
    ensures
        find_child_from(new, ch.push(old.len() as usize), name, i) is None,
    decreases ch.len() - i,
{
    let ch2 = ch.push(old.len() as usize);
    if i < ch.len() {
        let c = ch[i];
        assert(ch2[i] == c);
        assert(new[c as int].name == old[c as int].name);
        assert(!child_matches(old, c, name));
        assert(!child_matches(new, c, name));
        lemma_find_absent_in_grown(old, new, ch, name, i + 1);
    } else {
        assert(ch2[ch.len() as int] == old.len() as usize);
        assert(find_child_from(new, ch2, name, i + 1) is None);
    }
}

/// Creating a node leaves every other name absent from the directory
/// absent: after a node named `name` is created under `parent`, looking up
/// a name other than its stored name that `parent` did not hold still
/// finds nothing.
pub proof fn law_lookup_other_after_create(
    old: Seq<VfsNode>,
    new: Seq<VfsNode>,
    parent: usize,
    name: Seq<u8>,
    t: VfsNodeType,
    perm: u16,
    inode: u64,
    other: Seq<u8>,
)
    requires
        parent < old.len(),
        old.len() < usize::MAX,
        created_in(old, new, parent, name, t, perm, inode),
        forall|k: int| 0 <= k < old[parent as int].children@.len() ==> #[trigger] old[parent as int].children@[k] < old.len(),
        other != stored_name(name),
        lookup_spec(old, parent, other) is None,
    ensures
        lookup_spec(new, parent, other) is None,
{
    assert forall|k: int| 0 <= k < old.len() implies (#[trigger] new[k]).name == old[k].name && new[k].name_len == old[k].name_len by {
        if k != parent {
            assert(new[k] == old[k]);
        }
    }
    assert(!child_matches(new, old.len() as usize, other));
    lemma_find_absent_in_grown(old, new, old[parent as int].children@, other, 0);
}

/// Reading back a new file: after `d` is written at `off` into an empty
/// file, a read at `off` of `d.len()` bytes gives `d`, a read from the
/// start into a buffer that holds it all gives `off` zeros and then `d`,
/// and a read at the end gives nothing.
pub proof fn law_new_file_reads_back(off: int, d: Seq<u8>, big: int, any: int)
    requires
        0 <= off,
        big >= off + d.len(),
        0 <= any,
    ensures
        read_spec(write_spec(Seq::empty(), off, d), off, d.len() as int) == d,
        read_spec(write_spec(Seq::empty(), off, d), 0, big) == Seq::new(off as nat, |i: int| 0u8) + d,
        read_spec(write_spec(Seq::empty(), off, d), off + d.len(), any) == Seq::<u8>::empty(),
{
    let f = write_spec(Seq::empty(), off, d);
    assert(f =~= Seq::new(off as nat, |i: int| 0u8) + d);
    assert(read_spec(f, off, d.len() as int) =~= d);
    assert(read_spec(f, 0, big) =~= Seq::new(off as nat, |i: int| 0u8) + d);
}

} // verus!
