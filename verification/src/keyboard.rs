//! Keyboard input buffer: the interrupt handler queues raw bytes, the shell
//! takes them back as keys, ANSI escape sequences decoded.
use vstd::prelude::*;
use std::collections::VecDeque;

verus! {

pub const KEY_TAB: char = '\t';
pub const KEY_CTRL_A: char = '\u{0001}';
pub const KEY_CTRL_B: char = '\u{0002}';
pub const KEY_CTRL_C: char = '\u{0003}';
pub const KEY_CTRL_D: char = '\u{0004}';
pub const KEY_CTRL_E: char = '\u{0005}';
pub const KEY_CTRL_F: char = '\u{0006}';
pub const KEY_CTRL_K: char = '\u{000B}';
pub const KEY_CTRL_L: char = '\u{000C}';
pub const KEY_CTRL_N: char = '\u{000E}';
pub const KEY_CTRL_P: char = '\u{0010}';
pub const KEY_CTRL_U: char = '\u{0015}';
pub const KEY_CTRL_W: char = '\u{0017}';
pub const KEY_UP: char = '\u{1000}';
pub const KEY_DOWN: char = '\u{1001}';
pub const KEY_RIGHT: char = '\u{1002}';
pub const KEY_LEFT: char = '\u{1003}';
pub const KEY_HOME: char = '\u{1004}';
pub const KEY_END: char = '\u{1005}';
pub const KEY_DELETE: char = '\u{1006}';
pub const KEY_PAGE_UP: char = '\u{1007}';
pub const KEY_PAGE_DOWN: char = '\u{1008}';
pub const KEY_F1: char = '\u{1010}';
pub const KEY_F2: char = '\u{1011}';
pub const KEY_F3: char = '\u{1012}';
pub const KEY_F4: char = '\u{1013}';

/// The key for `ESC [ c2` where no further byte is needed.
pub open spec fn csi_key(c2: u8) -> Option<char> {
    if c2 == 0x41 { Some(KEY_UP) }
    else if c2 == 0x42 { Some(KEY_DOWN) }
    else if c2 == 0x43 { Some(KEY_RIGHT) }
    else if c2 == 0x44 { Some(KEY_LEFT) }
    else if c2 == 0x48 { Some(KEY_HOME) }
    else if c2 == 0x46 { Some(KEY_END) }
    else { None }
}

/// The key for `ESC [ c2 ~`.
pub open spec fn tilde_key(c2: u8) -> Option<char> {
    if c2 == 0x33 { Some(KEY_DELETE) }
    else if c2 == 0x35 { Some(KEY_PAGE_UP) }
    else if c2 == 0x36 { Some(KEY_PAGE_DOWN) }
    else { None }
}

/// The key for `ESC O c2` (F1 to F4).
pub open spec fn ss3_key(c2: u8) -> Option<char> {
    if c2 == 0x50 { Some(KEY_F1) }
    else if c2 == 0x51 { Some(KEY_F2) }
    else if c2 == 0x52 { Some(KEY_F3) }
    else if c2 == 0x53 { Some(KEY_F4) }
    else { None }
}

/// The key for a single byte that does not start an escape sequence:
/// control keys and printable ASCII as themselves, CR and LF as '\n',
/// backspace and DEL as '\u{8}', anything else nothing.
pub open spec fn plain_key(b: u8) -> Option<char> {
    if b == 0x01 || b == 0x02 || b == 0x03 || b == 0x04 || b == 0x05 || b == 0x06 || b == 0x0B || b == 0x0C
        || b == 0x0E || b == 0x10 || b == 0x15 || b == 0x17 || b == 0x09 || (0x20 <= b && b <= 0x7E) {
        Some(b as char)
    } else if b == 0x0D || b == 0x0A {
        Some('\n')
    } else if b == 0x08 || b == 0x7F {
        Some('\u{8}')
    } else {
        None
    }
}

/// One step of key decoding on queued bytes `q`: the key produced, if
/// any, and the bytes left. An escape byte with fewer than two bytes after
/// it is left in place.
pub open spec fn decode_key(q: Seq<u8>) -> (Option<char>, Seq<u8>) {
    if q.len() == 0 {
        (None, q)
    } else if q[0] != 0x1B {
        (plain_key(q[0]), q.drop_first())
    } else if q.len() < 3 {
        (None, q)
    } else {
        let c1 = q[1];
        let c2 = q[2];
        let rest = q.subrange(3, q.len() as int);
        if c1 == 0x5B {
            if tilde_key(c2) is Some {
                if rest.len() >= 1 {
                    (if rest[0] == 0x7E { tilde_key(c2) } else { None }, rest.drop_first())
                } else {
                    (None, rest)
                }
            } else {
                (csi_key(c2), rest)
            }
        } else if c1 == 0x4F {
            (ss3_key(c2), rest)
        } else {
            (None, rest)
        }
    }
}

fn plain_key_of(b: u8) -> (r: Option<char>)
    ensures
        r == plain_key(b),
{
    if b == 0x01 || b == 0x02 || b == 0x03 || b == 0x04 || b == 0x05 || b == 0x06 || b == 0x0B || b == 0x0C
        || b == 0x0E || b == 0x10 || b == 0x15 || b == 0x17 || b == 0x09 || (0x20 <= b && b <= 0x7E) {
        Some(b as char)
    } else if b == 0x0D || b == 0x0A {
        Some('\n')
    } else if b == 0x08 || b == 0x7F {
        Some('\u{8}')
    } else {
        None
    }
}

/// The keyboard byte queue; absent until `init_buffer`.
pub struct KeyBuffer {
    buf: Option<VecDeque<u8>>,
}

impl KeyBuffer {
    /// The queued bytes, or None before `init_buffer`.
    pub closed spec fn queue(&self) -> Option<Seq<u8>> {
        match self.buf {
            Some(b) => Some(b@),
            None => None,
        }
    }

    /// A buffer that is not initialised yet.
    pub fn new() -> (k: Self)
        ensures
            k.queue() is None,
    {
        KeyBuffer { buf: None }
    }
}

/// Start (or restart) with an empty queue.
pub fn init_buffer(k: &mut KeyBuffer)
    ensures
        final(k).queue() == Some(Seq::<u8>::empty()),
{
    k.buf = Some(VecDeque::new());
}

/// Queue a byte from the keyboard; dropped before `init_buffer`.
pub fn push_key(k: &mut KeyBuffer, data: u8)
    ensures
        final(k).queue() == match old(k).queue() {
            Some(q) => Some(q.push(data)),
            None => None,
        },
{
    match &mut k.buf {
        Some(b) => {
            b.push_back(data);
        },
        None => {},
    }
}

/// Take the next key from the queue, as `decode_key` says.
pub fn try_get_key(k: &mut KeyBuffer) -> (r: Option<char>)
    ensures
        match old(k).queue() {
            Some(q) => r == decode_key(q).0 && final(k).queue() == Some(decode_key(q).1),
            None => r is None && final(k).queue() is None,
        },
{
    match &mut k.buf {
        Some(b) => decode_from(b),
        None => None,
    }
}

fn decode_from(b: &mut VecDeque<u8>) -> (r: Option<char>)
    ensures
        r == decode_key(old(b)@).0,
        final(b)@ == decode_key(old(b)@).1,
{
    let ghost q = b@;
    let data = match b.pop_front() {
        Some(d) => d,
        None => {
            return None;
        },
    };
    if data != 0x1B {
        assert(b@ =~= q.drop_first());
        return plain_key_of(data);
    }
    if b.len() < 2 {
        b.push_front(data);
        assert(b@ =~= q);
        return None;
    }
    let c1 = b.pop_front();
    let c2 = b.pop_front();
    let ghost rest = q.subrange(3, q.len() as int);
    assert(b@ =~= rest);
    if c1 == Some(0x5Bu8) {
        match c2 {
            Some(0x41u8) => Some(KEY_UP),
            Some(0x42u8) => Some(KEY_DOWN),
            Some(0x43u8) => Some(KEY_RIGHT),
            Some(0x44u8) => Some(KEY_LEFT),
            Some(0x48u8) => Some(KEY_HOME),
            Some(0x46u8) => Some(KEY_END),
            Some(0x33u8) => tilde_tail(b, KEY_DELETE),
            Some(0x35u8) => tilde_tail(b, KEY_PAGE_UP),
            Some(0x36u8) => tilde_tail(b, KEY_PAGE_DOWN),
            _ => None,
        }
    } else if c1 == Some(0x4Fu8) {
        match c2 {
            Some(0x50u8) => Some(KEY_F1),
            Some(0x51u8) => Some(KEY_F2),
            Some(0x52u8) => Some(KEY_F3),
            Some(0x53u8) => Some(KEY_F4),
            _ => None,
        }
    } else {
        None
    }
}

/// `key` when the next byte is '~' (consumed if present), else nothing.
fn tilde_tail(b: &mut VecDeque<u8>, key: char) -> (r: Option<char>)
    ensures
        old(b)@.len() >= 1 ==> final(b)@ == old(b)@.drop_first() && r == (if old(b)@[0] == 0x7E { Some(key) } else { None }),
        old(b)@.len() == 0 ==> final(b)@ == old(b)@ && r is None,
{
    if b.len() >= 1 {
        let t = b.pop_front();
        assert(b@ =~= old(b)@.drop_first());
        if t == Some(0x7Eu8) {
            return Some(key);
        }
        return None;
    }
    None
}

} // verus!
