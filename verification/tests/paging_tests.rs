use zohara::arch::arm64::{exception_class, kernel_cause, user_cause};
use zohara::arch::x86_64::e820::{detect_memory, DEFAULT_RAM, MULTIBOOT_MAGIC};
use zohara::arch::x86_64::page_fault::{decode_error_code, is_user_fault};
use zohara::arch::x86_64::paging::{is_user_mapped, map_page, map_page_uc, map_user_page};
use zohara::arch::x86_64::teardown::free_user_page_tables;
use zohara::arch::x86_64::user_tables::{create_user_page_tables, USER_STACK_VA};
use zohara::drivers::ide::{drive_answered, identify_sectors, select_drive_lba, wait_drq_step, wait_ready_step};
use zohara::frame::FrameAllocator;
use zohara::physmem::PhysMem;
use zohara::stats::KernelStats;

const MEM: usize = 2 * 1024 * 1024;
const KPML4: u64 = 0xA000;
const KPDPT: u64 = 0xB000;
const KPD: u64 = 0xC000;

/// 2 MiB of memory, frames above the first MiB free, and a kernel map
/// of the first 6 MiB as 2 MiB pages.
fn setup() -> (PhysMem, FrameAllocator, KernelStats) {
    let mut mem = PhysMem::new(MEM);
    let mut frames = FrameAllocator::new();
    frames.set_total_ram(MEM);
    frames.init(0x10_0000);
    mem.store(KPML4, KPDPT | 3);
    mem.store(KPDPT, KPD | 3);
    for i in 0..3u64 {
        mem.store(KPD + 8 * i, (i * 0x20_0000) | 0x83);
    }
    (mem, frames, KernelStats::new())
}

#[test]
fn map_page_splits_a_large_page() {
    let (mut mem, mut frames, mut stats) = setup();
    let free = frames.free_frame_count();
    assert_eq!(map_page(&mut mem, &mut frames, &mut stats, KPML4 as usize, 0x3000), Ok(()));
    assert_eq!(frames.free_frame_count(), free - 1);
    let pd0 = mem.load(KPD);
    assert_eq!(pd0 & 0x83, 0x03);
    let pt = pd0 & 0x000F_FFFF_FFFF_F000;
    assert_eq!(pt, 0x10_0000);
    // The identity map of the 2 MiB page is kept, 4 KiB at a time.
    assert_eq!(mem.load(pt + 8 * 5), 0x5000 | 3);
    assert_eq!(mem.load(pt + 8 * 3), 0x3000 | 3);
    // Mapping again in the same PT takes no new table.
    assert_eq!(map_page(&mut mem, &mut frames, &mut stats, KPML4 as usize, 0x7000), Ok(()));
    assert_eq!(frames.free_frame_count(), free - 1);
}

#[test]
fn map_page_builds_missing_levels() {
    let (mut mem, mut frames, mut stats) = setup();
    let free = frames.free_frame_count();
    let va: usize = (1 << 39) + (2 << 30) + (3 << 21) + (4 << 12);
    assert_eq!(map_page_uc(&mut mem, &mut frames, &mut stats, KPML4 as usize, va), Ok(()));
    assert_eq!(frames.free_frame_count(), free - 3);
    let e1 = mem.load(KPML4 + 8);
    let pdpt = e1 & 0x000F_FFFF_FFFF_F000;
    let e2 = mem.load(pdpt + 8 * 2);
    let pd = e2 & 0x000F_FFFF_FFFF_F000;
    let e3 = mem.load(pd + 8 * 3);
    let pt = e3 & 0x000F_FFFF_FFFF_F000;
    assert_eq!(e1 & 3, 3);
    assert_eq!(mem.load(pt + 8 * 4), va as u64 | 0x13);
}

#[test]
fn map_page_fails_when_memory_is_full() {
    let mut mem = PhysMem::new(MEM);
    let mut frames = FrameAllocator::new();
    frames.set_total_ram(MEM);
    frames.init(MEM);
    let mut stats = KernelStats::new();
    mem.store(KPML4, 0);
    assert_eq!(
        map_page(&mut mem, &mut frames, &mut stats, KPML4 as usize, 0x5000),
        Err("out of frames for page tables")
    );
}

#[test]
fn user_mapping_is_seen() {
    let (mut mem, _, _) = setup();
    assert!(!is_user_mapped(&mem, KPML4 as usize, 0x1000));
    mem.store(KPD + 8, 0x20_0000 | 0x87);
    assert!(is_user_mapped(&mem, KPML4 as usize, 0x20_1000));
    assert!(!is_user_mapped(&mem, KPML4 as usize, 1 << 39));
}

#[test]
fn map_user_page_returns_the_table() {
    let (mut mem, mut frames, mut stats) = setup();
    let pt = map_user_page(&mut mem, &mut frames, &mut stats, KPML4 as usize, 0x40_0000).unwrap();
    assert_eq!(pt, 0x10_0000);
    assert_eq!(mem.load(KPD + 16), pt | 7);
    assert_eq!(mem.load(pt + 8), 0x40_1000 | 3);
    // Now a table pointer: returned as it is.
    assert_eq!(map_user_page(&mut mem, &mut frames, &mut stats, KPML4 as usize, 0x40_3000), Ok(pt));
}

#[test]
fn task_tables_map_segments_and_stack() {
    let (mut mem, mut frames, mut stats) = setup();
    let free = frames.free_frame_count();
    let segs = [(0x40_0000usize, 0usize, 0x10usize, 0x2000usize, 5u32), (0x60_0000, 0, 0, 0, 6)];
    let (pml4, recs) = create_user_page_tables(&mut mem, &mut frames, &mut stats, KPML4 as usize, &segs).unwrap();
    assert_eq!(recs.len(), 3);
    assert_eq!(recs[0].0, 0x40_0000);
    assert_eq!(recs[1].0, 0x40_1000);
    assert_eq!(recs[2].0, USER_STACK_VA);
    assert!(recs.iter().all(|r| r.1 == 4096));
    // PML4, PDPT, one PD copy, three pages, one split table.
    assert_eq!(frames.free_frame_count(), free - 7);
    assert!(is_user_mapped(&mem, pml4, 0x40_0000));
    assert!(is_user_mapped(&mem, pml4, 0x40_1000));
    assert!(is_user_mapped(&mem, pml4, USER_STACK_VA));
    assert!(!is_user_mapped(&mem, pml4, 0x40_2000));
    // The kernel's own tables are left alone.
    assert_eq!(mem.load(KPD + 16), 0x40_0000 | 0x83);
    assert!(!is_user_mapped(&mem, KPML4 as usize, 0x40_0000));
}

#[test]
fn memory_map_gives_ram_size() {
    let mut info = vec![0u8; 52];
    info[0..4].copy_from_slice(&0x40u32.to_le_bytes());
    info[44..48].copy_from_slice(&72u32.to_le_bytes());
    info[48..52].copy_from_slice(&0x9000u32.to_le_bytes());
    let mut mmap = Vec::new();
    for (base, len, ty) in [(0u64, 0x9_FC00u64, 1u32), (0x10_0000, 0x7F0_0000, 1), (0x20_0000, 0x2000, 2)] {
        mmap.extend_from_slice(&20u32.to_le_bytes());
        mmap.extend_from_slice(&base.to_le_bytes());
        mmap.extend_from_slice(&len.to_le_bytes());
        mmap.extend_from_slice(&ty.to_le_bytes());
    }
    let mut frames = FrameAllocator::new();
    frames.set_total_ram(0x800_0000);
    frames.init(0x10_0000);
    let free = frames.free_frame_count();
    assert_eq!(detect_memory(MULTIBOOT_MAGIC, 0x8000, &info, &mmap, &mut frames), 0x800_0000);
    assert_eq!(frames.free_frame_count(), free - 2);
}

#[test]
fn memory_map_defaults() {
    let mut frames = FrameAllocator::new();
    assert_eq!(detect_memory(0, 0x8000, &[0u8; 52], &[], &mut frames), DEFAULT_RAM);
    assert_eq!(detect_memory(MULTIBOOT_MAGIC, 0, &[], &[], &mut frames), DEFAULT_RAM);
    // No memory-map flag.
    assert_eq!(detect_memory(MULTIBOOT_MAGIC, 0x8000, &[0u8; 52], &[], &mut frames), DEFAULT_RAM);
    // A map with no usable RAM.
    let mut info = vec![0u8; 52];
    info[0] = 0x40;
    info[44] = 24;
    info[48] = 1;
    let mut mmap = vec![0u8; 24];
    mmap[20] = 2;
    assert_eq!(detect_memory(MULTIBOOT_MAGIC, 0x8000, &info, &mmap, &mut frames), DEFAULT_RAM);
}

#[test]
fn drive_select_registers() {
    assert_eq!(
        select_drive_lba(0x1F0, 0x1234_5678, true),
        [(0x1F6, 0xF2), (0x1F3, 0x78), (0x1F4, 0x56), (0x1F5, 0x34)]
    );
    assert_eq!(select_drive_lba(0x1F0, 7, false)[0], (0x1F6, 0xE0));
}

#[test]
fn status_polling() {
    assert_eq!(wait_ready_step(0x50, 10), Ok(None));
    assert_eq!(wait_ready_step(0x80, 10), Ok(Some(9)));
    assert_eq!(wait_ready_step(0x81, 10), Err("disk error during ready wait"));
    assert_eq!(wait_ready_step(0x80, 1), Err("disk timeout during ready wait"));
    assert_eq!(wait_drq_step(0x58, 3), Ok(None));
    assert_eq!(wait_drq_step(0x01, 3), Err("disk error during DRQ wait"));
    assert_eq!(wait_drq_step(0x00, 0), Err("disk timeout during DRQ wait"));
    assert!(!drive_answered(0));
    assert!(drive_answered(0x50));
    assert!(!drive_answered(0x51));
    let mut id = [0u16; 256];
    id[60] = 0x5678;
    id[61] = 0x1234;
    assert_eq!(identify_sectors(&id), 0x1234_5678);
}

#[test]
fn fault_codes_are_decoded() {
    assert_eq!(decode_error_code(0x7), ("present", "write", "user-mode", ""));
    assert_eq!(decode_error_code(0x10), ("not-present", "read/fetch", "supervisor", "NX"));
    assert!(is_user_fault(0x4));
    assert!(!is_user_fault(0x3));
    assert_eq!(exception_class(0x5600_0000), 0x15);
    assert_eq!(kernel_cause(0x24), "Data Abort (Page Fault / Invalid Memory)");
    assert_eq!(kernel_cause(0x3F), "Unknown");
    assert_eq!(user_cause(0x20), Some("Instruction Abort from EL0"));
    assert_eq!(user_cause(0x30), None);
}

#[test]
fn task_tables_are_given_back() {
    let (mut mem, mut frames, mut stats) = setup();
    let free = frames.free_frame_count();
    let segs = [(0x40_0000usize, 0usize, 0x10usize, 0x1000usize, 7u32)];
    let (pml4, recs) = create_user_page_tables(&mut mem, &mut frames, &mut stats, KPML4 as usize, &segs).unwrap();
    assert_eq!(recs.len(), 2);
    assert_eq!(frames.free_frame_count(), free - 6);
    free_user_page_tables(&mem, &mut frames, &mut stats, KPML4 as usize, pml4);
    // The PML4, PDPT, PD copy and split table come back; the two data
    // frames stay with the task's records.
    assert_eq!(frames.free_frame_count(), free - 2);
}
