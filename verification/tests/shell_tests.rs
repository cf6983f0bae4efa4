use zohara::keyboard::{init_buffer, push_key, try_get_key, KeyBuffer, KEY_UP};
use zohara::linux_compat::{self, LinuxCall, ENOSYS};
use zohara::shell::{parse_command, parse_hex, split_args, LineEditor, ShellCommand};
use zohara::stats::KernelStats;
use zohara::syscall::{self, Syscall, EPERM};
use zohara::task::Scheduler;

fn chars(s: &str) -> Vec<char> {
    s.chars().collect()
}

fn words(s: &str) -> Vec<Vec<char>> {
    split_args(&chars(s))
}

fn type_line(e: &mut LineEditor, s: &str) -> Option<Vec<char>> {
    for c in s.chars() {
        assert!(e.handle_key(c).command.is_none());
    }
    e.handle_key('\n').command
}

#[test]
fn enter_hands_over_the_line() {
    let mut e = LineEditor::new();
    let out = e.handle_key('l');
    assert_eq!(out.echo, vec!['l']);
    assert_eq!(type_line(&mut e, "s -a"), Some(chars("ls -a")));
}

#[test]
fn up_arrow_recalls_the_last_line() {
    let mut e = LineEditor::new();
    assert_eq!(type_line(&mut e, "uptime"), Some(chars("uptime")));
    e.handle_key(KEY_UP);
    assert_eq!(e.handle_key('\n').command, Some(chars("uptime")));
}

#[test]
fn backspace_removes_a_character() {
    let mut e = LineEditor::new();
    e.handle_key('a');
    e.handle_key('b');
    e.handle_key('\u{8}');
    e.handle_key('c');
    assert_eq!(e.handle_key('\n').command, Some(chars("ac")));
}

#[test]
fn words_are_split_on_spaces() {
    let w = words("  cat   /etc/motd ");
    assert_eq!(w, vec![chars("cat"), chars("/etc/motd")]);
}

#[test]
fn commands_parse() {
    assert!(matches!(parse_command(&words("help")), ShellCommand::Help));
    assert!(matches!(parse_command(&words("peek 0x1000")), ShellCommand::Peek { addr: 0x1000 }));
    assert!(matches!(parse_command(&words("poke 0x20 0xff")), ShellCommand::Poke { addr: 0x20, val: 0xff }));
    assert!(matches!(parse_command(&words("peek")), ShellCommand::Usage(_)));
    assert!(matches!(parse_command(&words("frobnicate")), ShellCommand::Unknown));
}

#[test]
fn hex_numbers() {
    assert_eq!(parse_hex(&chars("0x1F"), u64::MAX), Some(31));
    assert_eq!(parse_hex(&chars("ff"), u64::MAX), Some(255));
    assert_eq!(parse_hex(&chars("0x100"), 0xff), None);
    assert_eq!(parse_hex(&chars("xyz"), u64::MAX), None);
}

#[test]
fn keyboard_buffer_gives_keys_in_order() {
    let mut k = KeyBuffer::new();
    init_buffer(&mut k);
    push_key(&mut k, b'a');
    push_key(&mut k, b'b');
    assert_eq!(try_get_key(&mut k), Some('a'));
    assert_eq!(try_get_key(&mut k), Some('b'));
    assert_eq!(try_get_key(&mut k), None);
}

#[test]
fn syscall_dispatch_by_number() {
    let mut stats = KernelStats::new();
    let mut s = Scheduler::new();
    s.init_scheduler(0x1000);
    assert_eq!(syscall::dispatch(&mut stats, &s, 0), Ok(Syscall::Write));
    assert_eq!(syscall::dispatch(&mut stats, &s, 13), Ok(Syscall::Execve));
    assert_eq!(syscall::dispatch(&mut stats, &s, 99), Err(syscall::ENOSYS));
    assert_eq!(syscall::dispatch(&mut stats, &s, 12), Ok(Syscall::DebugLog));
    assert_eq!(stats.syscalls_total, 4);
    assert_eq!(Syscall::TaskInfo.number(), 11);
}

#[test]
fn root_only_call_is_refused_to_users() {
    let mut stats = KernelStats::new();
    let mut s = Scheduler::new();
    s.init_scheduler(0x1000);
    let t = s.spawn_userspace(0x2000, &[]).unwrap();
    for _ in 0..zohara::task::SWITCH_INTERVAL {
        s.timer_handler(0);
    }
    assert_eq!(s.current_task(), t);
    assert_eq!(syscall::dispatch(&mut stats, &s, 12), Err(EPERM));
}

#[test]
fn linux_numbers_map() {
    assert_eq!(linux_compat::dispatch(1), LinuxCall::Write);
    assert_eq!(linux_compat::dispatch(60), LinuxCall::Exit);
    assert_eq!(linux_compat::dispatch(9999), LinuxCall::Unimplemented);
    assert_eq!(linux_compat::immediate_result(linux_compat::dispatch(9999)), Some(ENOSYS));
    assert_eq!(linux_compat::immediate_result(LinuxCall::GetPid), None);
}

#[test]
fn words_are_joined_with_single_spaces() {
    let w = |s: &str| s.chars().collect::<Vec<char>>();
    let args = vec![w("write"), w("notes.txt"), w("hello"), w("there")];
    assert_eq!(zohara::shell::join_words(&args, 2), w("hello there"));
    assert_eq!(zohara::shell::join_words(&args, 1), w("notes.txt hello there"));
    assert_eq!(zohara::shell::join_words(&args, 4), Vec::<char>::new());
    assert_eq!(zohara::shell::join_words(&args, 9), Vec::<char>::new());
}
