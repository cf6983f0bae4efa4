use zohara::drivers::ide::IdeDisk;
use zohara::fs::bcache::{cached_read, cached_write, flush, BufferCache};
use zohara::fs::gpt::{get_partition, read_gpt_header, Partition};

fn disk_of(sectors: usize) -> IdeDisk {
    let mut d = IdeDisk::primary_master();
    d.set_contents(vec![0u8; sectors * 512]).unwrap();
    d
}

fn put32(img: &mut [u8], at: usize, v: u32) {
    img[at..at + 4].copy_from_slice(&v.to_le_bytes());
}

fn put64(img: &mut [u8], at: usize, v: u64) {
    img[at..at + 8].copy_from_slice(&v.to_le_bytes());
}

#[test]
fn image_must_be_whole_sectors() {
    let mut d = IdeDisk::primary_master();
    assert_eq!(d.set_contents(vec![0u8; 700]), Err("disk image is not whole sectors"));
    assert_eq!(d.total_sectors(), 0);
    assert!(d.set_contents(vec![0u8; 1024]).is_ok());
    assert_eq!(d.total_sectors(), 2);
}

#[test]
fn sector_write_reads_back() {
    let mut d = disk_of(4);
    let data = [0xA5u8; 512];
    assert!(d.write_sector(2, &data).is_ok());
    let mut buf = [0u8; 512];
    assert!(d.read_sector(2, &mut buf).is_ok());
    assert_eq!(buf, data);
    assert!(d.read_sector(1, &mut buf).is_ok());
    assert_eq!(buf, [0u8; 512]);
}

#[test]
fn sector_past_the_end_is_refused() {
    let mut d = disk_of(4);
    let mut buf = [7u8; 512];
    assert_eq!(d.read_sector(4, &mut buf), Err("LBA out of range"));
    assert_eq!(buf, [7u8; 512]);
    assert_eq!(d.write_sector(9, &buf), Err("LBA out of range"));
}

#[test]
fn multi_sector_transfer() {
    let mut d = disk_of(8);
    let data: Vec<u8> = (0..1024u32).map(|i| (i % 251) as u8).collect();
    assert!(d.write_sectors(3, 2, &data).is_ok());
    let mut back = vec![0u8; 1024];
    assert!(d.read_sectors(3, 2, &mut back).is_ok());
    assert_eq!(back, data);
}

#[test]
fn cache_serves_what_was_written() {
    let mut d = disk_of(16);
    let mut c = BufferCache::new();
    let data = [0x3Cu8; 512];
    assert!(cached_write(&mut c, &mut d, 5, &data).is_ok());
    let mut buf = [0u8; 512];
    assert!(cached_read(&mut c, &mut d, 5, &mut buf).is_ok());
    assert_eq!(buf, data);
    // The write went through to the disk as well.
    let mut raw = [0u8; 512];
    assert!(d.read_sector(5, &mut raw).is_ok());
    assert_eq!(raw, data);
    let (hits, _, _) = c.stats();
    assert_eq!(hits, 1);
}

#[test]
fn flush_after_writes_changes_nothing() {
    let mut d = disk_of(16);
    let mut c = BufferCache::new();
    let data = [0x5Au8; 512];
    assert!(cached_write(&mut c, &mut d, 7, &data).is_ok());
    let before = c.stats();
    assert_eq!(flush(&mut c, &mut d), Ok(()));
    assert_eq!(c.stats(), before);
    let mut raw = [0u8; 512];
    assert!(d.read_sector(7, &mut raw).is_ok());
    assert_eq!(raw, data);
    assert!(d.read_sector(6, &mut raw).is_ok());
    assert_eq!(raw, [0u8; 512]);
}

#[test]
fn cache_miss_then_hit() {
    let mut d = disk_of(16);
    let mut c = BufferCache::new();
    let mut buf = [1u8; 512];
    assert!(cached_read(&mut c, &mut d, 3, &mut buf).is_ok());
    assert_eq!(buf, [0u8; 512]);
    assert_eq!(c.stats().0, 0);
    assert!(cached_read(&mut c, &mut d, 3, &mut buf).is_ok());
    assert_eq!(c.stats().0, 1);
    assert_eq!(cached_read(&mut c, &mut d, 99, &mut buf), Err("LBA out of range"));
}

fn gpt_disk() -> IdeDisk {
    let mut img = vec![0u8; 64 * 512];
    let h = 512;
    img[h..h + 8].copy_from_slice(b"EFI PART");
    put32(&mut img, h + 8, 0x0001_0000);
    put32(&mut img, h + 12, 92);
    put64(&mut img, h + 24, 1);
    put64(&mut img, h + 72, 2);
    put32(&mut img, h + 80, 128);
    put32(&mut img, h + 84, 128);
    // Entry 0 and entry 5 (second sector of the table).
    let e0 = 2 * 512;
    img[e0] = 0xAF;
    put64(&mut img, e0 + 32, 2048);
    put64(&mut img, e0 + 40, 4095);
    let e5 = 3 * 512 + 128;
    put64(&mut img, e5 + 32, 100);
    put64(&mut img, e5 + 40, 100);
    let mut d = IdeDisk::primary_master();
    d.set_contents(img).unwrap();
    d
}

#[test]
fn gpt_header_is_read() {
    let d = gpt_disk();
    let h = read_gpt_header(&d).unwrap();
    assert_eq!(h.header_size, 92);
    assert_eq!(h.partition_entry_lba, 2);
    assert_eq!(h.partition_entry_size, 128);
}

#[test]
fn gpt_partitions_are_found() {
    let d = gpt_disk();
    let p = get_partition(&d, 0).unwrap();
    assert_eq!(
        p,
        Partition { index: 0, first_lba: 2048, last_lba: 4095, size_sectors: 2048, first_byte: 2048 * 512, size_bytes: 2048 * 512 }
    );
    let q = get_partition(&d, 5).unwrap();
    assert_eq!(q.size_sectors, 1);
    assert_eq!(q.first_byte, 51200);
    assert_eq!(get_partition(&d, 1), Err("partition not found"));
}

#[test]
fn gpt_missing_signature() {
    let d = disk_of(8);
    assert!(matches!(read_gpt_header(&d), Err("no GPT partition table found")));
    assert_eq!(get_partition(&d, 0), Err("no GPT partition table found"));
    let tiny = disk_of(1);
    assert_eq!(get_partition(&tiny, 0), Err("LBA out of range"));
}

#[test]
fn gpt_small_header_size() {
    let mut img = vec![0u8; 4 * 512];
    img[512..520].copy_from_slice(b"EFI PART");
    put32(&mut img, 512 + 12, 40);
    let mut d = IdeDisk::primary_master();
    d.set_contents(img).unwrap();
    assert!(matches!(read_gpt_header(&d), Err("invalid GPT header size")));
}
