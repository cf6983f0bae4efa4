//! VFS node types — the building blocks of the in-memory filesystem.
use vstd::prelude::*;
use crate::text::str_from_utf8;
use vstd::utf8::valid_utf8;
use vstd::string::StringSliceAdditionalSpecFns;

verus! {

/// Maximum length of a node name.
pub const NAME_LEN: usize = 60;

/// Type of VFS node.
#[derive(Clone, Copy, PartialEq, Eq, Debug, Structural)]
pub enum VfsNodeType {
    File,
    Directory,
    Symlink,
}

/// A single VFS node (file, directory, or symlink).
pub struct VfsNode {
    /// Node name (up to 60 bytes).
    pub name: [u8; 60],
    /// Actual length of the name.
    pub name_len: usize,
    /// Type of this node.
    pub node_type: VfsNodeType,
    /// Inode number (unique identifier).
    pub inode: u64,
    /// Index of parent node in the VFS node table.
    pub parent: usize,
    /// Indices of child nodes (for directories).
    pub children: Vec<usize>,
    /// File content (empty for directories and symlinks).
    pub data: Vec<u8>,
    /// Size in bytes.
    pub size: usize,
    /// Permission bits (rwxrwxrwx).
    pub permissions: u16,
    /// Reference count.
    pub ref_count: u32,
}

/// The name stored in a node, `name_len` bytes clamped to the buffer.
pub open spec fn name_bytes_of(name: [u8; 60], name_len: usize) -> Seq<u8> {
    name@.subrange(0, if name_len <= 60 { name_len as int } else { 60 })
}

/// The name a node is created with: the first `NAME_LEN` bytes of `name`.
pub open spec fn stored_name(name: Seq<u8>) -> Seq<u8> {
    if name.len() <= NAME_LEN { name } else { name.subrange(0, NAME_LEN as int) }
}

impl VfsNode {
    pub open spec fn name_bytes(&self) -> Seq<u8> {
        name_bytes_of(self.name, self.name_len)
    }

    /// Field values of an empty (deleted) node.
    pub open spec fn is_empty_node(&self) -> bool {
        &&& self.name@ == Seq::new(60, |i: int| 0u8)
        &&& self.name_len == 0
        &&& self.node_type == VfsNodeType::File
        &&& self.inode == 0
        &&& self.parent == 0
        &&& self.children@.len() == 0
        &&& self.data@.len() == 0
        &&& self.size == 0
        &&& self.permissions == 0o644
        &&& self.ref_count == 0
    }

    /// Field values of a freshly created node of the given type (its inode
    /// number is given by whoever places it in a table).
    pub open spec fn is_new_node(&self, name: Seq<u8>, parent: usize, t: VfsNodeType, perm: u16) -> bool {
        &&& self.name_len == stored_name(name).len()
        &&& self.name_bytes() == stored_name(name)
        &&& self.name@.subrange(self.name_len as int, 60) == Seq::new(
            (60 - self.name_len) as nat,
            |i: int| 0u8,
        )
        &&& self.node_type == t
        &&& self.parent == parent
        &&& self.children@.len() == 0
        &&& self.data@.len() == 0
        &&& self.size == 0
        &&& self.permissions == perm
        &&& self.ref_count == 0
    }

    /// Create an empty (deleted) node.
    pub fn empty() -> (r: Self)
        ensures
            r.is_empty_node(),
    {
        let r = VfsNode {
            name: [0; 60],
            name_len: 0,
            node_type: VfsNodeType::File,
            inode: 0,
            parent: 0,
            children: Vec::new(),
            data: Vec::new(),
            size: 0,
            permissions: 0o644,
            ref_count: 0,
        };
        assert(r.name@ =~= Seq::new(60, |i: int| 0u8));
        r
    }

    fn with_name(name: &[u8], parent: usize, node_type: VfsNodeType, permissions: u16) -> (r: Self)
        ensures
            r.is_new_node(name@, parent, node_type, permissions),
            r.inode == 0,
    {
        let mut node = Self::empty();
        let len = if name.len() < NAME_LEN { name.len() } else { NAME_LEN };
        let mut i: usize = 0;
        while i < len
            invariant
                0 <= i <= len <= 60,
                len <= name@.len(),
                forall|k: int| 0 <= k < i ==> node.name@[k] == name@[k],
                forall|k: int| i <= k < 60 ==> node.name@[k] == 0u8,
                node.is_empty_node() || i > 0,
                node.name_len == 0,
                node.node_type == VfsNodeType::File,
                node.inode == 0,
                node.parent == 0,
                node.children@.len() == 0,
                node.data@.len() == 0,
                node.size == 0,
                node.permissions == 0o644,
                node.ref_count == 0,
            decreases len - i,
        {
            node.name[i] = name[i];
            i = i + 1;
        }
        node.name_len = len;
        node.node_type = node_type;
        node.parent = parent;
        node.permissions = permissions;
        assert(node.name_bytes() =~= stored_name(name@));
        assert(node.name@.subrange(len as int, 60) =~= Seq::new((60 - len) as nat, |i: int| 0u8));
        node
    }

    /// Create a new file node (permissions rw-r--r--).
    pub fn new_file(name: &[u8], parent: usize) -> (r: Self)
        ensures
            r.is_new_node(name@, parent, VfsNodeType::File, 0o644),
            r.inode == 0,
    {
        Self::with_name(name, parent, VfsNodeType::File, 0o644)
    }

    /// Create a new directory node (permissions rwxr-xr-x).
    pub fn new_dir(name: &[u8], parent: usize) -> (r: Self)
        ensures
            r.is_new_node(name@, parent, VfsNodeType::Directory, 0o755),
            r.inode == 0,
    {
        Self::with_name(name, parent, VfsNodeType::Directory, 0o755)
    }

    /// The node name as a string slice ("" when it is not valid UTF-8).
    pub fn name_str(&self) -> (r: &str)
        requires
            self.name_len <= 60,
        ensures
            valid_utf8(self.name_bytes()) ==> r.spec_bytes() == self.name_bytes(),
            !valid_utf8(self.name_bytes()) ==> r@.len() == 0,
    {
        let bytes = vstd::slice::slice_subrange(self.name.as_slice(), 0, self.name_len);
        assert(bytes@ == self.name_bytes());
        match str_from_utf8(bytes) {
            Some(s) => s,
            None => {
                let e = "";
                proof {
                    reveal_strlit("");
                }
                e
            },
        }
    }

    /// Is this node a directory?
    pub fn is_dir(&self) -> (r: bool)
        ensures
            r == (self.node_type == VfsNodeType::Directory),
    {
        self.node_type == VfsNodeType::Directory
    }

    /// Is this node a file?
    pub fn is_file(&self) -> (r: bool)
        ensures
            r == (self.node_type == VfsNodeType::File),
    {
        self.node_type == VfsNodeType::File
    }
}

} // verus!
