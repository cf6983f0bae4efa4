use zohara::address_space::{replace_address_space, spawn_userspace_task, USER_STACK_TOP};
use zohara::arch::x86_64::paging::is_user_mapped;
use zohara::arch::x86_64::user_tables::USER_STACK_VA;
use zohara::drivers::ide::IdeDisk;
use zohara::elf::parse_elf;
use zohara::elf_builder::build_flat_elf;
use zohara::frame::FrameAllocator;
use zohara::fs::fat32::Fat32Fs;
use zohara::physmem::PhysMem;
use zohara::runtime::{emit_memcpy, emit_memset, emit_strlen};
use zohara::stats::KernelStats;
use zohara::shell::{cat_file, run_path_buf, write_file, CatOutcome, WriteOutcome, CAT_BUF_SIZE};
use zohara::syscall::{find_named, call_outcome, syscall_execve, syscall_read, CallOutcome, Syscall, ENOENT, ENOEXEC, ENOSYS, EPERM};
use zohara::task::{Scheduler, TaskState, MAX_TASKS, SWITCH_INTERVAL};

const MEM: usize = 2 * 1024 * 1024;
const KPML4: u64 = 0xA000;
const KPDPT: u64 = 0xB000;
const KPD: u64 = 0xC000;
const KSTACK_TOP: u64 = 0x9_0000;

fn setup() -> (PhysMem, FrameAllocator, KernelStats) {
    let mut mem = PhysMem::new(MEM);
    let mut frames = FrameAllocator::new();
    frames.set_total_ram(MEM);
    frames.init(0x10_0000);
    mem.store(KPML4, KPDPT | 3);
    mem.store(KPDPT, KPD | 3);
    for i in 0..3u64 {
        mem.store(KPD + 8 * i, (i * 0x20_0000) | 0x83);
    }
    (mem, frames, KernelStats::new())
}

/// A scheduler whose running task is a user task (slot 1) on the kernel tables.
fn running_user_task() -> Scheduler {
    let mut s = Scheduler::new();
    s.init_scheduler(KPML4 as usize);
    let t = s.spawn_userspace(KPML4 as usize, &[]).unwrap();
    for _ in 0..SWITCH_INTERVAL {
        s.timer_handler(0);
    }
    assert_eq!(s.current_task(), t);
    s
}

#[test]
fn runtime_loops_jump_to_their_targets() {
    assert_eq!(
        emit_strlen(),
        vec![0x48, 0x31, 0xC0, 0x80, 0x3C, 0x07, 0x00, 0x74, 0x05, 0x48, 0xFF, 0xC0, 0xEB, 0xF5, 0xC3]
    );
    let m = emit_memcpy();
    assert_eq!(m.len(), 21);
    assert_eq!((m[3], m[4]), (0x74, 0x0F));
    assert_eq!((m[18], m[19]), (0x75, 0xF1));
    assert_eq!(m[20], 0xC3);
    let s = emit_memset();
    assert_eq!(s.len(), 16);
    assert_eq!((s[3], s[4]), (0x74, 0x0A));
    assert_eq!((s[13], s[14]), (0x75, 0xF6));
    assert_eq!(s[15], 0xC3);
}

#[test]
fn calls_answered_from_kernel_state() {
    let mut s = Scheduler::new();
    s.init_scheduler(0x1000);
    let mut st = KernelStats::new();
    assert_eq!(syscall_read(0, 10, 0), 0);
    assert_eq!(call_outcome(&mut st, &s, 3, 0, 0, 0), CallOutcome::Return(0));
    assert_eq!(call_outcome(&mut st, &s, 9, 0, 0, 0), CallOutcome::Return(0x1_0000_0007));
    assert_eq!(call_outcome(&mut st, &s, 14, 0, 0, 0), CallOutcome::Return(ENOSYS));
    assert_eq!(call_outcome(&mut st, &s, 255, 0, 0, 0), CallOutcome::Return(ENOSYS));
    assert_eq!(call_outcome(&mut st, &s, usize::MAX, 0, 0, 0), CallOutcome::Return(ENOSYS));
    assert_eq!(call_outcome(&mut st, &s, 12, 0x5000, 17, 0), CallOutcome::EmitKernel(17));
    assert_eq!(call_outcome(&mut st, &s, 12, 0x5000, 300, 0), CallOutcome::Return(-22));
    assert_eq!(call_outcome(&mut st, &s, 0, 0x5000, 300, 0), CallOutcome::Return(-1));
    assert_eq!(call_outcome(&mut st, &s, 4, 0, 0, 0), CallOutcome::Return(0));
    assert_eq!(call_outcome(&mut st, &s, 13, 0, 0, 0), CallOutcome::Run(Syscall::Execve));
    assert_eq!(st.syscalls_total, 10);
    // A normal user may not use the debug log.
    let u = running_user_task();
    assert_eq!(call_outcome(&mut st, &u, 12, 0x5000, 17, 0), CallOutcome::Return(EPERM));
    assert_eq!(call_outcome(&mut st, &u, 4, 0, 0, 0), CallOutcome::Return(1));
}

#[test]
fn replace_refuses_the_kernel_task() {
    let (mut mem, mut frames, mut stats) = setup();
    let mut s = running_user_task();
    let elf = build_flat_elf(&[0x90, 0xC3], 0x40_0000);
    let image = parse_elf(&elf).ok().unwrap();
    assert_eq!(
        replace_address_space(&mut s, &mut mem, &mut frames, &mut stats, KPML4 as usize, KSTACK_TOP, 0, &image, &elf),
        Err("invalid task index")
    );
}

#[test]
fn replace_gives_the_task_a_new_program() {
    let (mut mem, mut frames, mut stats) = setup();
    let mut s = running_user_task();
    let elf = build_flat_elf(&[0x90, 0x90, 0xC3], 0x40_0000);
    let image = parse_elf(&elf).ok().unwrap();
    let r = replace_address_space(&mut s, &mut mem, &mut frames, &mut stats, KPML4 as usize, KSTACK_TOP, 1, &image, &elf);
    assert_eq!(r, Ok(USER_STACK_TOP));
    assert_eq!(USER_STACK_TOP, USER_STACK_VA + 4096);
    let root = s.task_page_table_root(1);
    assert_ne!(root, KPML4 as usize);
    assert!(is_user_mapped(&mem, root, 0x40_0000));
    assert!(is_user_mapped(&mem, root, USER_STACK_VA));
    // The register frame enters the program at its entry with the new stack.
    let sp = KSTACK_TOP - 416;
    assert_eq!(mem.load(sp + 47 * 8), 0x40_0000);
    assert_eq!(mem.load(sp + 50 * 8), USER_STACK_TOP as u64);
}

fn disk_from(img: Vec<u8>) -> IdeDisk {
    let mut d = IdeDisk::primary_master();
    d.set_contents(img).unwrap();
    d
}

/// A FAT32 volume whose root holds HELLO.ELF (cluster 3, `elf` bytes).
fn volume_with(elf: &[u8]) -> Vec<u8> {
    let mut img = vec![0u8; 128 * 512];
    img[11..13].copy_from_slice(&512u16.to_le_bytes());
    img[13] = 1;
    img[14..16].copy_from_slice(&4u16.to_le_bytes());
    img[16] = 1;
    img[32..36].copy_from_slice(&128u32.to_le_bytes());
    img[36..40].copy_from_slice(&1u32.to_le_bytes());
    img[44..48].copy_from_slice(&2u32.to_le_bytes());
    img[510] = 0x55;
    img[511] = 0xAA;
    let fat = 4 * 512;
    img[fat..fat + 4].copy_from_slice(&0x0FFF_FFF8u32.to_le_bytes());
    for c in 1..4 {
        img[fat + 4 * c..fat + 4 * c + 4].copy_from_slice(&0x0FFF_FFFFu32.to_le_bytes());
    }
    let root = 5 * 512;
    img[root..root + 11].copy_from_slice(b"HELLO   ELF");
    img[root + 11] = 0x20;
    img[root + 26..root + 28].copy_from_slice(&3u16.to_le_bytes());
    img[root + 28..root + 32].copy_from_slice(&(elf.len() as u32).to_le_bytes());
    let data = 6 * 512;
    img[data..data + elf.len()].copy_from_slice(elf);
    img
}

#[test]
fn execve_loads_a_program_from_the_root_directory() {
    let elf = build_flat_elf(&[0x90, 0x90, 0xC3], 0x40_0000);
    let d = disk_from(volume_with(&elf));
    let fs = Fat32Fs::init(&d).unwrap();
    let (mut mem, mut frames, mut stats) = setup();
    let mut s = running_user_task();
    // Not mounted, not UTF-8, or not there.
    assert_eq!(syscall_execve(&fs, &d, false, b"hello.elf", &mut s, &mut mem, &mut frames, &mut stats, KPML4 as usize, KSTACK_TOP), ENOENT);
    assert_eq!(syscall_execve(&fs, &d, true, &[0xFF, 0xFE], &mut s, &mut mem, &mut frames, &mut stats, KPML4 as usize, KSTACK_TOP), ENOEXEC);
    assert_eq!(syscall_execve(&fs, &d, true, b"other.elf", &mut s, &mut mem, &mut frames, &mut stats, KPML4 as usize, KSTACK_TOP), ENOENT);
    assert_eq!(s.task_page_table_root(1), KPML4 as usize);
    // Found without regard to case.
    assert_eq!(syscall_execve(&fs, &d, true, b"Hello.Elf", &mut s, &mut mem, &mut frames, &mut stats, KPML4 as usize, KSTACK_TOP), 0);
    let root = s.task_page_table_root(1);
    assert_ne!(root, KPML4 as usize);
    assert!(is_user_mapped(&mem, root, 0x40_0000));
}

fn stack_tops() -> Vec<u64> {
    (0..MAX_TASKS as u64).map(|i| 0x2_0000 + 0x200 * (i + 1)).collect()
}

#[test]
fn spawned_flat_task_runs_its_code() {
    let (mut mem, mut frames, mut stats) = setup();
    let mut s = Scheduler::new();
    s.init_scheduler(KPML4 as usize);
    let tops = stack_tops();
    let code = [0x90u8, 0x90, 0xC3];
    let slot = spawn_userspace_task(&mut s, &mut mem, &mut frames, &mut stats, KPML4 as usize, &tops, &code).unwrap();
    assert_eq!(slot, 1);
    assert_eq!(s.get_task_state(1), TaskState::Ready);
    let t = s.task(1);
    assert!(is_user_mapped(&mem, t.page_table_root, 0x40_0000));
    assert!(is_user_mapped(&mem, t.page_table_root, USER_STACK_VA));
    // Code page and stack page are recorded; the code sits at the start of its page.
    assert_eq!(t.user_data_frame_count, 2);
    assert_eq!(mem.load(t.user_data_frames[0] as u64), 0xC3_9090);
    let sp = tops[1] - 416;
    assert_eq!(t.saved_sp, sp as usize);
    assert_eq!(mem.load(sp + 47 * 8), 0x40_0000);
    assert_eq!(mem.load(sp + 50 * 8), USER_STACK_TOP as u64);
}

#[test]
fn spawn_needs_a_free_slot() {
    let (mut mem, mut frames, mut stats) = setup();
    let mut s = Scheduler::new();
    s.init_scheduler(KPML4 as usize);
    for _ in 1..MAX_TASKS {
        s.spawn_userspace(KPML4 as usize, &[]).unwrap();
    }
    let free = frames.free_frame_count();
    let r = spawn_userspace_task(&mut s, &mut mem, &mut frames, &mut stats, KPML4 as usize, &stack_tops(), &[0xC3]);
    assert_eq!(r, Err("out of task slots"));
    assert_eq!(frames.free_frame_count(), free);
}

#[test]
fn cat_finds_files_without_regard_to_case() {
    let elf = build_flat_elf(&[0x90, 0x90, 0xC3], 0x40_0000);
    let d = disk_from(volume_with(&elf));
    let fs = Fat32Fs::init(&d).unwrap();
    let mut buf = vec![0u8; CAT_BUF_SIZE];
    assert_eq!(cat_file(&fs, &d, "hello.ELF", &mut buf), CatOutcome::Read(elf.len()));
    assert_eq!(&buf[..elf.len()], &elf[..]);
    assert_eq!(cat_file(&fs, &d, "missing.txt", &mut buf), CatOutcome::Missing);
    let entries = fs.readdir(&d, 2).unwrap();
    assert_eq!(find_named(&entries, "HELLO.elf"), Some(0));
    assert_eq!(find_named(&entries, "HELLO.elfx"), None);
}

#[test]
fn run_passes_a_nul_terminated_path() {
    let b = run_path_buf("prog.elf");
    assert_eq!(&b[..8], b"prog.elf");
    assert!(b[8..].iter().all(|&x| x == 0));
    let long = "x".repeat(300);
    let b2 = run_path_buf(&long);
    assert!(b2[..255].iter().all(|&x| x == b'x'));
    assert_eq!(b2[255], 0);
}

#[test]
fn write_creates_then_overwrites() {
    let elf = build_flat_elf(&[0xC3], 0x40_0000);
    let mut d = disk_from(volume_with(&elf));
    let fs = Fat32Fs::init(&d).unwrap();
    assert_eq!(write_file(&fs, &mut d, "notes.txt", b"hello"), WriteOutcome::Created(5));
    let entries = fs.readdir(&d, 2).unwrap();
    let k = find_named(&entries, "NOTES.TXT").unwrap();
    let cluster = entries[k].cluster;
    let mut back = [0u8; 5];
    assert_eq!(fs.read_file_data(&d, cluster, 5, &mut back), Ok(5));
    assert_eq!(&back, b"hello");
    // Found again without regard to case: written in place.
    assert_eq!(write_file(&fs, &mut d, "Notes.Txt", b"HEY"), WriteOutcome::Wrote(3));
    assert_eq!(fs.read_file_data(&d, cluster, 5, &mut back), Ok(5));
    assert_eq!(&back, b"HEYlo");
    assert_eq!(fs.readdir(&d, 2).unwrap().len(), 2);
}
