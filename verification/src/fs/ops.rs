//! The interface a filesystem offers, and the values it returns.
use vstd::prelude::*;

verus! {

/// A single directory entry.
pub struct DirEntry {
    pub name: String,
    pub inode: u64,
    pub is_dir: bool,
}

/// File metadata.
pub struct FileStat {
    pub inode: u64,
    pub size: usize,
    pub is_dir: bool,
    pub permissions: u16,
}

/// What every filesystem implements.
pub trait FileSystem {
    /// The filesystem's name.
    fn name(&self) -> &str;

    /// Read from `inode` at `offset` into `buf`; returns the count read.
    fn read(&self, inode: u64, offset: usize, buf: &mut [u8]) -> Result<usize, &'static str>;

    /// Write `data` to `inode` at `offset`; returns the count written.
    fn write(&mut self, inode: u64, offset: usize, data: &[u8]) -> Result<usize, &'static str>;

    /// Create a file named `name` in directory `parent_inode`.
    fn create_file(&mut self, parent_inode: u64, name: &[u8]) -> Result<u64, &'static str>;

    /// Create a directory named `name` in directory `parent_inode`.
    fn create_dir(&mut self, parent_inode: u64, name: &[u8]) -> Result<u64, &'static str>;

    /// Look up `name` in directory `parent_inode`.
    fn lookup(&self, parent_inode: u64, name: &[u8]) -> Option<u64>;

    /// Delete a file or an empty directory.
    fn delete(&mut self, inode: u64) -> Result<(), &'static str>;

    /// The entries of directory `inode`.
    fn readdir(&self, inode: u64) -> Vec<DirEntry>;

    /// Metadata of `inode`.
    fn stat(&self, inode: u64) -> Result<FileStat, &'static str>;
}

} // verus!
