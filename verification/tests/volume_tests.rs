use zohara::acpi::{bsp_only, find_table, parse_madt, scan_for_rsdp, sdt_entries, verify_checksum, ApicAddrs, DEFAULT_LAPIC_ADDR};
use zohara::drivers::ide::IdeDisk;
use zohara::fs::bcache::BufferCache;
use zohara::fs::ext2::Ext2Fs;
use zohara::fs::fat32::{Fat32Fs, FAT_EOC};
use zohara::fs::fat32_dir::to_8_3;
use zohara::fs::zohfs::ZohFs;
use zohara::smp::CpuInfo;

fn put16(img: &mut [u8], at: usize, v: u16) {
    img[at..at + 2].copy_from_slice(&v.to_le_bytes());
}

fn put32(img: &mut [u8], at: usize, v: u32) {
    img[at..at + 4].copy_from_slice(&v.to_le_bytes());
}

fn put64(img: &mut [u8], at: usize, v: u64) {
    img[at..at + 8].copy_from_slice(&v.to_le_bytes());
}

fn disk_from(img: Vec<u8>) -> IdeDisk {
    let mut d = IdeDisk::primary_master();
    d.set_contents(img).unwrap();
    d
}

// ---------------------------------------------------------------- ACPI

#[test]
fn checksum_is_sum_mod_256() {
    assert!(verify_checksum(&[0x10, 0xF0]));
    assert!(verify_checksum(&[]));
    assert!(!verify_checksum(&[1, 2, 3]));
    assert!(verify_checksum(&[0x80, 0x80, 0xFF, 0x01]));
}

#[test]
fn rsdp_is_found_on_a_16_byte_boundary() {
    let mut mem = vec![0u8; 96];
    // A signature off the boundary is ignored.
    mem[4..12].copy_from_slice(b"RSD PTR ");
    mem[32..40].copy_from_slice(b"RSD PTR ");
    let sum: u32 = mem[32..52].iter().map(|b| *b as u32).sum();
    mem[40] = ((256 - (sum % 256)) % 256) as u8;
    assert_eq!(scan_for_rsdp(&mem, 0xE0000), Some(0xE0020));
}

#[test]
fn rsdp_with_bad_checksum_is_skipped() {
    let mut mem = vec![0u8; 96];
    mem[16..24].copy_from_slice(b"RSD PTR ");
    mem[24] = 1;
    assert_eq!(scan_for_rsdp(&mem, 0), None);
}

#[test]
fn xsdt_and_rsdt_entries() {
    let mut x = vec![0u8; 52];
    put32(&mut x, 4, 52);
    put64(&mut x, 36, 0x1000);
    put64(&mut x, 44, 0x2000_0000_0000);
    assert_eq!(sdt_entries(&x, 8), vec![0x1000, 0x2000_0000_0000]);
    let mut r = vec![0u8; 48];
    put32(&mut r, 4, 46);
    put32(&mut r, 36, 0xAAAA);
    put32(&mut r, 40, 0xBBBB);
    assert_eq!(sdt_entries(&r, 4), vec![0xAAAA, 0xBBBB]);
}

#[test]
fn tables_are_found_by_signature() {
    let addrs = [0x100u64, 0, 0x300, 0x400];
    let sigs = [*b"FACP", *b"APIC", *b"APIC", *b"APIC"];
    assert_eq!(find_table(&addrs, &sigs, b"APIC"), Some(0x300));
    assert_eq!(find_table(&addrs, &sigs, b"HPET"), None);
}

#[test]
fn madt_lists_cores_and_apics() {
    let len = 44 + 8 + 8 + 8 + 12 + 12;
    let mut m = vec![0u8; len + 10];
    m[0..4].copy_from_slice(b"APIC");
    put32(&mut m, 4, len as u32);
    put32(&mut m, 36, 0xFEE0_0000);
    let mut o = 44;
    // Enabled core, APIC id 0.
    m[o] = 0; m[o + 1] = 8; m[o + 2] = 0; m[o + 3] = 0; put32(&mut m, o + 4, 1); o += 8;
    // Disabled core.
    m[o] = 0; m[o + 1] = 8; m[o + 2] = 1; m[o + 3] = 5; put32(&mut m, o + 4, 0); o += 8;
    // Enabled core, APIC id 2.
    m[o] = 0; m[o + 1] = 8; m[o + 2] = 2; m[o + 3] = 2; put32(&mut m, o + 4, 1); o += 8;
    // I/O APIC.
    m[o] = 1; m[o + 1] = 12; put32(&mut m, o + 4, 0xFEC0_0000); put32(&mut m, o + 8, 0); o += 12;
    // Local APIC address override.
    m[o] = 5; m[o + 1] = 12; put64(&mut m, o + 4, 0xFEE1_0000);
    let mut cpus: Vec<CpuInfo> = Vec::new();
    let mut apic = ApicAddrs::new();
    assert_eq!(apic.local_apic_addr, DEFAULT_LAPIC_ADDR);
    parse_madt(&m, &mut cpus, &mut apic);
    assert_eq!(
        cpus,
        vec![CpuInfo { apic_id: 0, core_id: 0, is_bsp: true }, CpuInfo { apic_id: 2, core_id: 1, is_bsp: false }]
    );
    assert_eq!(apic, ApicAddrs { local_apic_addr: 0xFEE1_0000, io_apic_addr: 0xFEC0_0000, io_apic_gsi_base: 0 });
}

#[test]
fn madt_stops_at_a_zero_length_record() {
    let len = 44 + 8 + 8;
    let mut m = vec![0u8; len + 10];
    put32(&mut m, 4, len as u32);
    put32(&mut m, 36, 0xFEE0_0000);
    m[44] = 0; m[45] = 0;
    m[52] = 0; m[53] = 8; m[55] = 9; put32(&mut m, 56, 1);
    let mut cpus: Vec<CpuInfo> = Vec::new();
    let mut apic = ApicAddrs::new();
    parse_madt(&m, &mut cpus, &mut apic);
    assert!(cpus.is_empty());
}

#[test]
fn single_core_fallback() {
    assert_eq!(bsp_only(), vec![CpuInfo { apic_id: 0, core_id: 0, is_bsp: true }]);
}

// ---------------------------------------------------------------- FAT32

fn fat32_image() -> Vec<u8> {
    let mut img = vec![0u8; 128 * 512];
    put16(&mut img, 11, 512);
    img[13] = 1;
    put16(&mut img, 14, 4);
    img[16] = 1;
    put32(&mut img, 32, 128);
    put32(&mut img, 36, 1);
    put32(&mut img, 44, 2);
    img[510] = 0x55;
    img[511] = 0xAA;
    let fat = 4 * 512;
    put32(&mut img, fat, 0x0FFF_FFF8);
    put32(&mut img, fat + 4, 0x0FFF_FFFF);
    put32(&mut img, fat + 8, 0x0FFF_FFFF);
    img
}

#[test]
fn fat32_mounts() {
    let d = disk_from(fat32_image());
    let fs = Fat32Fs::init(&d).unwrap();
    assert_eq!(fs.root_cluster(), 2);
    assert_eq!(fs.cluster_size(), 512);
    assert_eq!(fs.total_clusters(), 123);
    assert_eq!(fs.next_cluster(&d, 2), Ok(0));
    assert_eq!(fs.alloc_cluster(&d), Ok(3));
}

#[test]
fn fat32_rejects_fat16() {
    let mut img = fat32_image();
    put16(&mut img, 22, 9);
    assert!(matches!(Fat32Fs::init(&disk_from(img)), Err("not FAT32 (FAT12/16 detected)")));
    let mut img2 = fat32_image();
    put32(&mut img2, 36, 0);
    assert!(matches!(Fat32Fs::init(&disk_from(img2)), Err("invalid FAT32: fat_size_32 is 0")));
}

#[test]
fn short_names() {
    assert_eq!(to_8_3("hello.txt"), (*b"HELLO   ", *b"TXT"));
    assert_eq!(to_8_3("README"), (*b"README  ", *b"   "));
    assert_eq!(to_8_3("averyverylongname.c"), (*b"AVERYVER", *b"C  "));
}

#[test]
fn fat32_file_life() {
    let mut d = disk_from(fat32_image());
    let fs = Fat32Fs::init(&d).unwrap();
    let c = fs.create_file_entry(&mut d, 2, "notes.txt", false).unwrap();
    assert_eq!(c, 3);
    let listing = fs.readdir(&d, 2).unwrap();
    assert_eq!(listing.len(), 1);
    assert_eq!(listing[0].name, "NOTES.TXT");
    assert_eq!(listing[0].cluster, 3);
    assert!(!listing[0].is_dir);

    let data: Vec<u8> = (0..600u32).map(|i| (i % 200) as u8).collect();
    assert_eq!(fs.write_file_data(&mut d, 3, 0, &data), Ok(600));
    assert_eq!(fs.next_cluster(&d, 3), Ok(4));
    assert_eq!(fs.last_cluster(&d, 3), Ok(4));
    let mut back = vec![0u8; 600];
    assert_eq!(fs.read_file_data(&d, 3, 600, &mut back), Ok(600));
    assert_eq!(back, data);

    assert!(fs.delete_file_entry(&mut d, 2, "notes.txt").is_ok());
    assert!(fs.readdir(&d, 2).unwrap().is_empty());
    assert!(fs.free_cluster_chain(&mut d, 3).is_ok());
    assert_eq!(fs.alloc_cluster(&d), Ok(3));
}

#[test]
fn fat32_delete_missing() {
    let mut d = disk_from(fat32_image());
    let fs = Fat32Fs::init(&d).unwrap();
    assert_eq!(fs.delete_file_entry(&mut d, 2, "nothing"), Err("file not found"));
}

#[test]
fn fat32_set_entry_reads_back() {
    let mut d = disk_from(fat32_image());
    let fs = Fat32Fs::init(&d).unwrap();
    assert!(fs.set_fat_entry(&mut d, 7, 9).is_ok());
    assert_eq!(fs.next_cluster(&d, 7), Ok(9));
    assert!(fs.mark_eoc(&mut d, 9).is_ok());
    assert_eq!(fs.next_cluster(&d, 9), Ok(0));
    assert!(fs.free_cluster(&mut d, 7).is_ok());
    assert_eq!(fs.next_cluster(&d, 7), Ok(0));
    assert!(FAT_EOC > 0);
}

// ---------------------------------------------------------------- ext2

fn ext2_image() -> Vec<u8> {
    let mut img = vec![0u8; 64 * 512];
    let sb = 1024;
    put32(&mut img, sb, 16);
    put32(&mut img, sb + 4, 32);
    put32(&mut img, sb + 24, 0);
    put32(&mut img, sb + 32, 32);
    put32(&mut img, sb + 40, 16);
    put16(&mut img, sb + 56, 0xEF53);
    // Group descriptor table in block 2: inode table at block 5.
    put32(&mut img, 2048 + 8, 5);
    let itab = 5 * 1024;
    // Root directory, inode 2.
    let root = itab + 128;
    put16(&mut img, root, 0x41ED);
    put32(&mut img, root + 4, 1024);
    put32(&mut img, root + 40, 10);
    // A file, inode 3.
    let file = itab + 256;
    put16(&mut img, file, 0x81A4);
    put32(&mut img, file + 4, 5);
    put32(&mut img, file + 40, 11);
    // Directory data, block 10.
    let dir = 10 * 1024;
    put32(&mut img, dir, 2);
    put16(&mut img, dir + 4, 12);
    img[dir + 6] = 1;
    img[dir + 7] = 2;
    img[dir + 8] = b'.';
    put32(&mut img, dir + 12, 2);
    put16(&mut img, dir + 16, 12);
    img[dir + 18] = 2;
    img[dir + 19] = 2;
    img[dir + 20..dir + 22].copy_from_slice(b"..");
    put32(&mut img, dir + 24, 3);
    put16(&mut img, dir + 28, 1000);
    img[dir + 30] = 9;
    img[dir + 31] = 1;
    img[dir + 32..dir + 41].copy_from_slice(b"hello.txt");
    img[11 * 1024..11 * 1024 + 5].copy_from_slice(b"hello");
    img
}

#[test]
fn ext2_mounts_and_lists_root() {
    let d = disk_from(ext2_image());
    let fs = Ext2Fs::init(&d, 0).unwrap();
    assert_eq!(fs.block_size(), 1024);
    assert_eq!(fs.num_block_groups, 1);
    let root = fs.root_inode(&d).unwrap();
    assert_eq!(root.size, 1024);
    let entries = fs.readdir(&d, &root).unwrap();
    let names: Vec<&str> = entries.iter().map(|e| e.name.as_str()).collect();
    assert_eq!(names, vec![".", "..", "hello.txt"]);
    assert_eq!(entries[2].inode, 3);
    assert_eq!(entries[2].file_type, 1);
}

#[test]
fn ext2_reads_a_file() {
    let d = disk_from(ext2_image());
    let fs = Ext2Fs::init(&d, 0).unwrap();
    let n = fs.read_inode(&d, 3).unwrap();
    assert_eq!(n.size, 5);
    let mut buf = vec![0u8; 16];
    assert_eq!(fs.read_file_data(&d, &n, n.size, &mut buf), Ok(5));
    assert_eq!(&buf[..5], b"hello");
}

#[test]
fn ext2_bad_magic() {
    let mut img = ext2_image();
    put16(&mut img, 1024 + 56, 0x1234);
    assert!(matches!(Ext2Fs::init(&disk_from(img), 0), Err("not ext2 (bad magic)")));
    assert!(matches!(Ext2Fs::init(&disk_from(vec![0u8; 1024]), 0), Err("LBA out of range")));
}

// ---------------------------------------------------------------- ZohFS

#[test]
fn zohfs_file_life() {
    let mut d = disk_from(vec![0u8; 512 * 512]);
    let mut c = BufferCache::new();
    let mut fs = ZohFs::new();
    assert!(!fs.is_mounted());
    assert!(fs.mkfs(&mut c, &mut d).is_ok());
    assert!(fs.init(&mut c, &mut d).is_ok());
    assert!(fs.is_mounted());
    assert!(fs.readdir_root().is_empty());

    let ino = fs.create_file("hello.txt", &mut c, &mut d).unwrap();
    assert_eq!(fs.find_file("hello.txt"), Some(ino));
    assert_eq!(fs.create_file("hello.txt", &mut c, &mut d), Err("file exists"));
    assert_eq!(fs.create_dir("hello.txt", &mut c, &mut d), Err("directory exists"));
    let text = b"hello, zohfs";
    assert_eq!(fs.write_file_data(ino, 0, text, &mut c, &mut d), Ok(text.len()));
    let mut buf = vec![0u8; 64];
    assert_eq!(fs.read_file_data(ino, 0, &mut buf, &mut c, &mut d), Ok(text.len()));
    assert_eq!(&buf[..text.len()], text);
    let mut tail = vec![0u8; 5];
    assert_eq!(fs.read_file_data(ino, 7, &mut tail, &mut c, &mut d), Ok(5));
    assert_eq!(&tail, b"zohfs");

    let dir = fs.create_dir("docs", &mut c, &mut d).unwrap();
    let listing = fs.readdir_root();
    assert_eq!(listing.len(), 2);
    assert_eq!(listing[0], ("hello.txt".to_string(), ino, false));
    assert_eq!(listing[1], ("docs".to_string(), dir, true));

    assert!(fs.delete_file("hello.txt", &mut c, &mut d).is_ok());
    assert_eq!(fs.find_file("hello.txt"), None);
    assert_eq!(fs.delete_file("hello.txt", &mut c, &mut d), Err("file not found"));
}

#[test]
fn zohfs_remounts_what_was_written() {
    let mut d = disk_from(vec![0u8; 512 * 512]);
    let mut c = BufferCache::new();
    let mut fs = ZohFs::new();
    assert!(fs.mkfs(&mut c, &mut d).is_ok());
    assert!(fs.init(&mut c, &mut d).is_ok());
    let ino = fs.create_file("a.bin", &mut c, &mut d).unwrap();
    let data: Vec<u8> = (0..5000u32).map(|i| (i % 97) as u8).collect();
    assert_eq!(fs.write_file_data(ino, 0, &data, &mut c, &mut d), Ok(5000));
    // Creating another entry writes the tables back.
    assert!(fs.create_file("b.bin", &mut c, &mut d).is_ok());

    let mut c2 = BufferCache::new();
    let mut fs2 = ZohFs::new();
    assert!(fs2.init(&mut c2, &mut d).is_ok());
    assert_eq!(fs2.find_file("a.bin"), Some(ino));
    let mut back = vec![0u8; 5000];
    assert_eq!(fs2.read_file_data(ino, 0, &mut back, &mut c2, &mut d), Ok(5000));
    assert_eq!(back, data);
}

#[test]
fn zohfs_unmounted_and_blank_disks() {
    let mut d = disk_from(vec![0u8; 256 * 512]);
    let mut c = BufferCache::new();
    let mut fs = ZohFs::new();
    assert_eq!(fs.init(&mut c, &mut d), Ok(()));
    assert!(!fs.is_mounted());
    assert_eq!(fs.create_file("x", &mut c, &mut d), Err("filesystem not mounted"));
    let mut buf = [0u8; 4];
    assert_eq!(fs.read_file_data(1, 0, &mut buf, &mut c, &mut d), Err("filesystem not mounted"));
    let mut empty = IdeDisk::primary_master();
    assert_eq!(fs.mkfs(&mut c, &mut empty), Err("no disk present"));
}

#[test]
fn zohfs_delete_keeps_later_files() {
    let mut d = disk_from(vec![0u8; 512 * 512]);
    let mut c = BufferCache::new();
    let mut fs = ZohFs::new();
    assert!(fs.mkfs(&mut c, &mut d).is_ok());
    assert!(fs.init(&mut c, &mut d).is_ok());
    let _a = fs.create_file("a", &mut c, &mut d).unwrap();
    let b = fs.create_file("b", &mut c, &mut d).unwrap();
    assert_eq!(fs.delete_file("a", &mut c, &mut d), Ok(()));
    assert_eq!(fs.find_file("a"), None);
    assert_eq!(fs.find_file("b"), Some(b));
    assert_eq!(fs.readdir_root(), vec![("b".to_string(), b, false)]);
    // Still there after a remount.
    let mut fs2 = ZohFs::new();
    assert!(fs2.init(&mut c, &mut d).is_ok());
    assert_eq!(fs2.find_file("b"), Some(b));
}

/// A FAT32 volume of 512 sectors with four FAT sectors, so that clusters
/// above 255 exist.
fn fat32_big_image() -> Vec<u8> {
    let mut img = vec![0u8; 512 * 512];
    put16(&mut img, 11, 512);
    img[13] = 1;
    put16(&mut img, 14, 4);
    img[16] = 1;
    put32(&mut img, 32, 512);
    put32(&mut img, 36, 4);
    put32(&mut img, 44, 2);
    img[510] = 0x55;
    img[511] = 0xAA;
    let fat = 4 * 512;
    put32(&mut img, fat, 0x0FFF_FFF8);
    put32(&mut img, fat + 4, 0x0FFF_FFFF);
    put32(&mut img, fat + 8, 0x0FFF_FFFF);
    img
}

#[test]
fn fat32_delete_frees_the_chain_of_the_whole_cluster_number() {
    let mut img = fat32_big_image();
    let fat = 4 * 512;
    // File PROG.BIN at cluster 0x0102 (high word 0, low word 0x0102), one cluster long.
    put32(&mut img, fat + 4 * 0x0102, 0x0FFF_FFFF);
    let root = 8 * 512;
    img[root..root + 11].copy_from_slice(b"PROG    BIN");
    img[root + 11] = 0x20;
    put16(&mut img, root + 20, 0);
    put16(&mut img, root + 26, 0x0102);
    put32(&mut img, root + 28, 10);
    let mut d = disk_from(img);
    let fs = Fat32Fs::init(&d).unwrap();
    let listing = fs.readdir(&d, 2).unwrap();
    assert_eq!(listing[0].cluster, 0x0102);
    assert!(fs.delete_file_entry(&mut d, 2, "prog.bin").is_ok());
    // The file's chain is free; the root directory's cluster is not touched.
    assert_eq!(fs.next_cluster(&d, 0x0102), Ok(0));
    let mut sec = [0u8; 512];
    assert!(d.read_sector(4, &mut sec).is_ok());
    assert_eq!(u32::from_le_bytes([sec[8], sec[9], sec[10], sec[11]]), 0x0FFF_FFFF);
    assert!(d.read_sector(6, &mut sec).is_ok());
    assert_eq!(u32::from_le_bytes([sec[8], sec[9], sec[10], sec[11]]), 0);
    assert!(fs.readdir(&d, 2).unwrap().is_empty());
}

#[test]
fn fat32_truncated_volume_reports_the_read_error() {
    // The boot sector promises four FAT sectors; only two are on the disk,
    // and every entry in them is taken.
    let mut img = fat32_big_image();
    let fat = 4 * 512;
    for k in 0..256 {
        put32(&mut img, fat + 4 * k, 0x0FFF_FFFF);
    }
    img.truncate(6 * 512);
    let mut d = disk_from(img);
    let fs = Fat32Fs::init(&d).unwrap();
    assert_eq!(fs.alloc_cluster(&d), Err("LBA out of range"));
    assert_eq!(fs.create_file_entry(&mut d, 2, "new.txt", false), Err("LBA out of range"));
}
