use zohara::fd_table::{self, GlobalFdTable};
use zohara::fs::fd::{FdTable, OpenMode};
use zohara::fs::node::VfsNodeType;
use zohara::fs::ramfs::RamFs;
use zohara::fs::{self as vfs, Vfs};

#[test]
fn write_then_read_back() {
    let mut v = Vfs::new();
    vfs::create_file(&mut v, "/hello.txt").unwrap();
    assert_eq!(vfs::write_file(&mut v, "/hello.txt", 0, b"hello world"), Ok(11));
    let mut buf = [0u8; 32];
    assert_eq!(vfs::read_file(&v, "/hello.txt", 0, &mut buf), Ok(11));
    assert_eq!(&buf[..11], b"hello world");
    let mut tail = [0u8; 4];
    assert_eq!(vfs::read_file(&v, "/hello.txt", 6, &mut tail), Ok(4));
    assert_eq!(&tail, b"worl");
}

#[test]
fn write_past_end_fills_with_zeros() {
    let mut v = Vfs::new();
    vfs::create_file(&mut v, "/f").unwrap();
    vfs::write_file(&mut v, "/f", 3, b"ab").unwrap();
    let idx = vfs::resolve_path_idx(&v, "/f").unwrap();
    assert_eq!(vfs::get_file_size(&v, idx), 5);
    let mut buf = [9u8; 5];
    vfs::read_file(&v, "/f", 0, &mut buf).unwrap();
    assert_eq!(buf, [0, 0, 0, b'a', b'b']);
}

#[test]
fn write_keeps_the_rest_of_the_file() {
    let mut v = Vfs::new();
    vfs::create_file(&mut v, "/f").unwrap();
    vfs::write_file(&mut v, "/f", 0, b"abcdef").unwrap();
    vfs::write_file(&mut v, "/f", 2, b"XY").unwrap();
    let mut buf = [0u8; 6];
    vfs::read_file(&v, "/f", 0, &mut buf).unwrap();
    assert_eq!(&buf, b"abXYef");
}

#[test]
fn nested_paths_and_listing() {
    let mut v = Vfs::new();
    vfs::create_dir(&mut v, "/etc").unwrap();
    vfs::create_file(&mut v, "/etc/motd").unwrap();
    assert!(v.resolve_path("/etc/motd").is_some());
    assert!(v.resolve_path("/etc/none").is_none());
    let list = vfs::readdir(&v, "/etc");
    assert_eq!(list.len(), 1);
    assert_eq!(list[0].0, "motd");
    assert_eq!(list[0].2, VfsNodeType::File);
}

#[test]
fn missing_file_is_refused() {
    let v = Vfs::new();
    let mut buf = [0u8; 4];
    assert_eq!(vfs::read_file(&v, "/nope", 0, &mut buf), Err("file not found"));
}

#[test]
fn delete_removes_the_name() {
    let mut v = Vfs::new();
    vfs::create_file(&mut v, "/gone").unwrap();
    assert!(vfs::delete(&mut v, "/gone").is_ok());
    assert!(v.resolve_path("/gone").is_none());
}

#[test]
fn fd_open_close() {
    let mut t = FdTable::new();
    assert_eq!(t.open(7, OpenMode::Read), Ok(0));
    assert_eq!(t.open(8, OpenMode::Write), Ok(1));
    assert!(t.is_valid(1));
    assert_eq!(t.open_count(), 2);
    assert!(t.close(0).is_ok());
    assert!(!t.is_valid(0));
    assert_eq!(t.close(0), Err("bad file descriptor"));
    assert_eq!(t.open(9, OpenMode::Append), Ok(0));
    assert_eq!(t.get(0).unwrap().node_idx, 9);
}

#[test]
fn global_fd_table_per_task() {
    let mut t = GlobalFdTable::new();
    assert_eq!(fd_table::open(&mut t, 0, 4), Err("kernel task cannot open fds"));
    let fd = fd_table::open(&mut t, 3, 4).unwrap();
    assert_eq!(fd_table::node(&t, 3, fd), Ok(4));
    assert_eq!(fd_table::open_count(&t, 3), 1);
    assert_eq!(fd_table::open_count(&t, 2), 0);
    let d = fd_table::dup(&mut t, 3, fd).unwrap();
    assert_ne!(d, fd);
    assert_eq!(fd_table::node(&t, 3, d), Ok(4));
    assert!(fd_table::close(&mut t, 3, fd).is_ok());
    assert_eq!(fd_table::close(&mut t, 3, fd), Err("bad file descriptor"));
}

#[test]
fn lseek_moves_the_offset() {
    let mut v = Vfs::new();
    vfs::create_file(&mut v, "/data").unwrap();
    vfs::write_file(&mut v, "/data", 0, b"0123456789").unwrap();
    let idx = vfs::resolve_path_idx(&v, "/data").unwrap();
    let mut t = GlobalFdTable::new();
    let fd = fd_table::open(&mut t, 1, idx).unwrap();
    assert_eq!(fd_table::lseek(&mut t, &v, 1, fd, 4, 0), 4);
    assert_eq!(fd_table::lseek(&mut t, &v, 1, fd, 2, 1), 6);
    assert_eq!(fd_table::lseek(&mut t, &v, 1, fd, -3, 2), 7);
    assert_eq!(fd_table::offset(&t, 1, fd), 7);
    assert_eq!(fd_table::lseek(&mut t, &v, 1, fd, 0, 9), -1);
    assert_eq!(fd_table::lseek(&mut t, &v, 1, 31, 0, 0), -1);
}

#[test]
fn ramfs_files() {
    let mut r = RamFs::new();
    let d = r.create_dir(0, b"docs").unwrap();
    let f = r.create_file(d, b"a.txt").unwrap();
    assert_eq!(r.lookup(d, b"a.txt"), Some(f));
    assert_eq!(r.write(f, 0, b"xyz"), Ok(3));
    let mut buf = [0u8; 3];
    assert_eq!(r.read(f, 0, &mut buf), Ok(3));
    assert_eq!(&buf, b"xyz");
    assert_eq!(r.resolve("/docs/a.txt"), Some(f));
    assert_eq!(r.resolve("/docs/../a.txt"), Some(f));
    assert_eq!(r.resolve("/docs/../docs/a.txt"), None);
    assert!(r.delete(f).is_ok());
    assert_eq!(r.lookup(d, b"a.txt"), None);
}

#[test]
fn created_nodes_get_their_own_inode_numbers() {
    let mut v = Vfs::new();
    let f = v.create_file(0, b"x").unwrap();
    let g = v.create_dir(0, b"y").unwrap();
    let i = |v: &Vfs, k: usize| v.get_node(k).unwrap().inode;
    assert_eq!(i(&v, 0), 1);
    assert_eq!(i(&v, f), 2);
    assert_eq!(i(&v, g), 3);
    assert_ne!(i(&v, f), i(&v, g));
    assert_eq!(v.get_node(g).unwrap().node_type, VfsNodeType::Directory);
}

#[test]
fn ramfs_delete_unlists_the_node() {
    let mut r = RamFs::new();
    let d = r.create_dir(0, b"docs").unwrap();
    let f = r.create_file(d, b"a.txt").unwrap();
    assert_eq!(r.delete(d), Err("directory not empty"));
    assert!(r.delete(f).is_ok());
    assert!(r.readdir(d).is_empty());
    // The directory is empty again, so it can go too.
    assert!(r.delete(d).is_ok());
    assert!(r.readdir(0).is_empty());
}
