use zohara::allocator::{BumpAllocator, FixedBlockAllocator};
use zohara::dmesg::{push_byte, push_bytes, DmesgBuffer, DMESG_BUF_SIZE};
use zohara::events::{process_events, Event, EventQueue, EventType, EVENT_QUEUE_SIZE};
use zohara::frame::{FrameAllocator, PhysFrame, FRAME_SIZE};
use zohara::stats::{count_syscall, count_tick, KernelStats};

#[test]
fn events_come_out_in_order() {
    let mut q = EventQueue::new();
    let a = Event { event_type: EventType::Keyboard, data0: 1, data1: 2 };
    let b = Event { event_type: EventType::Custom(7), data0: 3, data1: 4 };
    assert!(q.push_event(a).is_ok());
    assert!(q.push_event(b).is_ok());
    assert_eq!(q.pending_count(), 2);
    assert_eq!(q.pop_event(), Some(a));
    assert_eq!(q.pop_event(), Some(b));
    assert_eq!(q.pop_event(), None);
}

#[test]
fn full_event_queue_refuses() {
    let mut q = EventQueue::new();
    let e = Event { event_type: EventType::Timer, data0: 0, data1: 0 };
    for _ in 0..EVENT_QUEUE_SIZE {
        assert!(q.push_event(e).is_ok());
    }
    assert_eq!(q.push_event(e), Err(()));
    assert_eq!(q.pending_count(), EVENT_QUEUE_SIZE);
}

#[test]
fn process_events_drains_in_order() {
    let mut q = EventQueue::new();
    for i in 0..5 {
        q.push_event(Event { event_type: EventType::Disk, data0: i, data1: 0 }).unwrap();
    }
    let out = process_events(&mut q);
    let nums: Vec<usize> = out.iter().map(|e| e.data0).collect();
    assert_eq!(nums, vec![0, 1, 2, 3, 4]);
    assert_eq!(q.pending_count(), 0);
}

#[test]
fn dmesg_keeps_what_was_written() {
    let mut d = DmesgBuffer::new();
    push_bytes(&mut d, b"boot ok\n");
    push_byte(&mut d, b'!');
    assert_eq!(d.len(), 9);
    assert_eq!(d.contents(), b"boot ok\n!".to_vec());
}

#[test]
fn dmesg_keeps_only_the_most_recent() {
    let mut d = DmesgBuffer::new();
    for i in 0..(DMESG_BUF_SIZE + 10) {
        push_byte(&mut d, b'a' + (i % 26) as u8);
    }
    assert_eq!(d.len(), DMESG_BUF_SIZE);
    let c = d.contents();
    assert_eq!(c.len(), DMESG_BUF_SIZE);
    assert_eq!(c[0], b'a' + (10 % 26) as u8);
}

#[test]
fn dmesg_drops_zero_bytes_from_the_dump() {
    let mut d = DmesgBuffer::new();
    push_bytes(&mut d, &[b'x', 0, b'y']);
    assert_eq!(d.len(), 3);
    assert_eq!(d.contents(), vec![b'x', b'y']);
}

#[test]
fn stats_count() {
    let mut s = KernelStats::new();
    count_tick(&mut s);
    count_tick(&mut s);
    count_syscall(&mut s, 3);
    count_syscall(&mut s, 100);
    assert_eq!(s.timer_ticks, 2);
    assert_eq!(s.syscalls_total, 2);
    assert_eq!(s.syscalls_by_num[3], 1);
}

#[test]
fn frames_allocate_after_reserved_area_and_come_back() {
    let mut f = FrameAllocator::new();
    let mut stats = KernelStats::new();
    f.set_total_ram(16 * 1024 * 1024);
    f.init(0x20_0000);
    let free0 = f.free_frame_count();
    assert_eq!(free0, 4096 - 512);
    let a = f.allocate_frame(&mut stats).unwrap();
    assert_eq!(a.number, 512);
    assert_eq!(a.start_address(), 512 * FRAME_SIZE);
    let b = f.allocate_frame(&mut stats).unwrap();
    assert_eq!(b.number, 513);
    assert_eq!(f.free_frame_count(), free0 - 2);
    f.deallocate_frame(a, &mut stats);
    assert_eq!(f.free_frame_count(), free0 - 1);
    assert_eq!(stats.frame_allocs, 2);
    assert_eq!(stats.frame_frees, 1);
    assert_eq!(PhysFrame::from_addr(0x3000).number, 3);
}

#[test]
fn frame_allocator_runs_out() {
    let mut f = FrameAllocator::new();
    let mut stats = KernelStats::new();
    f.set_total_ram(1024 * 1024 + 2 * FRAME_SIZE);
    f.init(0);
    assert!(f.allocate_frame(&mut stats).is_some());
    assert!(f.allocate_frame(&mut stats).is_some());
    assert!(f.allocate_frame(&mut stats).is_none());
}

#[test]
fn bump_allocator_aligns_and_runs_out() {
    let mut b = BumpAllocator::new();
    b.init(0x1001, 0x100);
    assert_eq!(b.allocate(16, 16), 0x1010);
    assert_eq!(b.next, 0x1020);
    assert_eq!(b.allocate(0x1000, 8), 0);
    assert_eq!(b.next, 0x1020);
}

#[test]
fn block_allocator_reuses_freed_blocks() {
    let mut a = FixedBlockAllocator::new();
    a.init(0x10000, 0x10000);
    assert_eq!(FixedBlockAllocator::get_block_index(10, 8), Some(1));
    assert_eq!(FixedBlockAllocator::get_block_index(4096, 8), None);
    let p = a.allocate(24, 8);
    assert_eq!(p, 0x10000);
    let q = a.allocate(24, 8);
    assert_eq!(q, 0x10020);
    a.dealloc(p, 24, 8);
    assert_eq!(a.allocate(20, 4), p);
}
