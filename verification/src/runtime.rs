//! Userspace runtime: raw x86_64 machine-code fragments that are embedded
//! into ELF test binaries (syscall stubs and small utility routines).
//!
//! Syscall convention (x86_64): rax = number, rdi/rsi/rdx = arguments,
//! `int 0x80`, result in rax.
use vstd::prelude::*;

verus! {

pub const SYS_WRITE: usize = 0;
pub const SYS_EXIT: usize = 1;
pub const SYS_SLEEP: usize = 2;
pub const SYS_READ: usize = 3;
pub const SYS_GETPID: usize = 4;
pub const SYS_YIELD: usize = 5;
pub const SYS_GETTIME: usize = 6;
pub const SYS_GETUPTIME: usize = 7;
pub const SYS_VERSION: usize = 8;

/// Little-endian encoding of a 32-bit immediate.
pub open spec fn imm32_le(val: u32) -> Seq<u8> {
    seq![
        (val % 256) as u8,
        ((val / 256) % 256) as u8,
        ((val / 65536) % 256) as u8,
        ((val / 16777216) % 256) as u8,
    ]
}

/// `mov <reg>, imm32` with the given ModRM byte: REX.W C7 /0 id.
pub open spec fn mov_imm_spec(modrm: u8, val: u32) -> Seq<u8> {
    seq![0x48u8, 0xC7u8, modrm] + imm32_le(val)
}

fn imm32_bytes(val: u32) -> (r: [u8; 4])
    ensures
        r@ == imm32_le(val),
{
    let b0 = (val % 256) as u8;
    let b1 = ((val / 256) % 256) as u8;
    let b2 = ((val / 65536) % 256) as u8;
    let b3 = ((val / 16777216) % 256) as u8;
    let r = [b0, b1, b2, b3];
    assert(r@ =~= imm32_le(val));
    r
}

/// `mov rax, imm32` — 7 bytes.
pub fn mov_rax_imm(val: u32) -> (r: [u8; 7])
    ensures
        r@ == mov_imm_spec(0xC0, val),
{
    let b = imm32_bytes(val);
    let r = [0x48, 0xC7, 0xC0, b[0], b[1], b[2], b[3]];
    assert(r@ =~= mov_imm_spec(0xC0, val));
    r
}

/// `mov rdi, imm32` — 7 bytes.
pub fn mov_rdi_imm(val: u32) -> (r: [u8; 7])
    ensures
        r@ == mov_imm_spec(0xC7, val),
{
    let b = imm32_bytes(val);
    let r = [0x48, 0xC7, 0xC7, b[0], b[1], b[2], b[3]];
    assert(r@ =~= mov_imm_spec(0xC7, val));
    r
}

/// `mov rsi, imm32` — 7 bytes.
pub fn mov_rsi_imm(val: u32) -> (r: [u8; 7])
    ensures
        r@ == mov_imm_spec(0xC6, val),
{
    let b = imm32_bytes(val);
    let r = [0x48, 0xC7, 0xC6, b[0], b[1], b[2], b[3]];
    assert(r@ =~= mov_imm_spec(0xC6, val));
    r
}

/// `int 0x80` — 2 bytes.
pub fn syscall() -> (r: [u8; 2])
    ensures
        r@ == seq![0xCDu8, 0x80u8],
{
    let r = [0xCD, 0x80];
    assert(r@ =~= seq![0xCDu8, 0x80u8]);
    r
}

/// `ret` — 1 byte.
pub fn ret() -> (r: [u8; 1])
    ensures
        r@ == seq![0xC3u8],
{
    let r = [0xC3];
    assert(r@ =~= seq![0xC3u8]);
    r
}

/// `nop` — 1 byte.
pub fn nop() -> (r: [u8; 1])
    ensures
        r@ == seq![0x90u8],
{
    let r = [0x90];
    assert(r@ =~= seq![0x90u8]);
    r
}

/// `jmp $` (a short jump to itself) — 2 bytes.
pub fn jmp_self() -> (r: [u8; 2])
    ensures
        r@ == seq![0xEBu8, 0xFEu8],
{
    let r = [0xEB, 0xFE];
    assert(r@ =~= seq![0xEBu8, 0xFEu8]);
    r
}

fn append(code: &mut Vec<u8>, bytes: &[u8])
    ensures
        final(code)@ == old(code)@ + bytes@,
{
    let ghost before = code@;
    code.extend_from_slice(bytes);
    assert(code@ =~= before + bytes@);
}

/// Write(buf, len): rax = SYS_WRITE, rdi = buf, rsi = len, int 0x80.
pub fn emit_write_syscall(buf_addr: u32, buf_len: u32) -> (code: Vec<u8>)
    ensures
        code@ == mov_imm_spec(0xC0, SYS_WRITE as u32) + mov_imm_spec(0xC7, buf_addr)
            + mov_imm_spec(0xC6, buf_len) + seq![0xCDu8, 0x80u8],
{
    let mut code = Vec::new();
    append(&mut code, &mov_rax_imm(SYS_WRITE as u32));
    append(&mut code, &mov_rdi_imm(buf_addr));
    append(&mut code, &mov_rsi_imm(buf_len));
    append(&mut code, &syscall());
    code
}


/// Exit(code): rax = SYS_EXIT, rdi = code, int 0x80.
pub fn emit_exit_syscall(exit_code: u32) -> (code: Vec<u8>)
    ensures
        code@ == mov_imm_spec(0xC0, SYS_EXIT as u32) + mov_imm_spec(0xC7, exit_code) + seq![
            0xCDu8,
            0x80u8,
        ],
{
    let mut code = Vec::new();
    append(&mut code, &mov_rax_imm(SYS_EXIT as u32));
    append(&mut code, &mov_rdi_imm(exit_code));
    append(&mut code, &syscall());
    code
}

/// Sleep(ms): rax = SYS_SLEEP, rdi = duration in milliseconds, int 0x80.
pub fn emit_sleep_syscall(ms: u32) -> (code: Vec<u8>)
    ensures
        code@ == mov_imm_spec(0xC0, SYS_SLEEP as u32) + mov_imm_spec(0xC7, ms) + seq![
            0xCDu8,
            0x80u8,
        ],
{
    let mut code = Vec::new();
    append(&mut code, &mov_rax_imm(SYS_SLEEP as u32));
    append(&mut code, &mov_rdi_imm(ms));
    append(&mut code, &syscall());
    code
}

/// GetPid: the PID comes back in rax.
pub fn emit_getpid_syscall() -> (code: Vec<u8>)
    ensures
        code@ == mov_imm_spec(0xC0, SYS_GETPID as u32) + seq![0xCDu8, 0x80u8],
{
    let mut code = Vec::new();
    append(&mut code, &mov_rax_imm(SYS_GETPID as u32));
    append(&mut code, &syscall());
    code
}

/// Yield: gives up the rest of the timeslice.
pub fn emit_yield_syscall() -> (code: Vec<u8>)
    ensures
        code@ == mov_imm_spec(0xC0, SYS_YIELD as u32) + seq![0xCDu8, 0x80u8],
{
    let mut code = Vec::new();
    append(&mut code, &mov_rax_imm(SYS_YIELD as u32));
    append(&mut code, &syscall());
    code
}

/// GetTime: the uptime in milliseconds comes back in rax.
pub fn emit_gettime_syscall() -> (code: Vec<u8>)
    ensures
        code@ == mov_imm_spec(0xC0, SYS_GETTIME as u32) + seq![0xCDu8, 0x80u8],
{
    let mut code = Vec::new();
    append(&mut code, &mov_rax_imm(SYS_GETTIME as u32));
    append(&mut code, &syscall());
    code
}

/// Where a short jump (opcode, signed 8-bit displacement) at `at` lands:
/// the displacement counts from the end of the two-byte instruction.
pub open spec fn rel8_target(code: Seq<u8>, at: int) -> int {
    let d = code[at + 1] as int;
    at + 2 + (if d < 128 { d } else { d - 256 })
}

/// strlen (rdi = string, rax = length):
/// `xor rax,rax; cmp byte [rdi+rax],0; je ret; inc rax; jmp cmp; ret`.
pub open spec fn strlen_code() -> Seq<u8> {
    seq![0x48u8, 0x31, 0xC0] + seq![0x80u8, 0x3C, 0x07, 0x00] + seq![0x74u8, 0x05] + seq![
        0x48u8,
        0xFF,
        0xC0,
    ] + seq![0xEBu8, 0xF5] + seq![0xC3u8]
}

/// memcpy (copy rdx bytes from rsi to rdi):
/// `test rdx,rdx; je ret; mov al,[rsi]; mov [rdi],al; inc rsi; inc rdi; dec rdx; jnz mov; ret`.
pub open spec fn memcpy_code() -> Seq<u8> {
    seq![0x48u8, 0x85, 0xD2] + seq![0x74u8, 0x0F] + seq![0x8Au8, 0x06] + seq![0x88u8, 0x07]
        + seq![0x48u8, 0xFF, 0xC6] + seq![0x48u8, 0xFF, 0xC7] + seq![0x48u8, 0xFF, 0xCA] + seq![
        0x75u8,
        0xF1,
    ] + seq![0xC3u8]
}

/// memset (fill rdx bytes at rdi with al):
/// `test rdx,rdx; je ret; mov [rdi],al; inc rdi; dec rdx; jnz mov; ret`.
pub open spec fn memset_code() -> Seq<u8> {
    seq![0x48u8, 0x85, 0xD2] + seq![0x74u8, 0x0A] + seq![0x88u8, 0x07] + seq![0x48u8, 0xFF, 0xC7]
        + seq![0x48u8, 0xFF, 0xCA] + seq![0x75u8, 0xF6] + seq![0xC3u8]
}

/// strlen: count bytes until the NUL terminator.
pub fn emit_strlen() -> (code: Vec<u8>)
    ensures
        code@ == strlen_code(),
        code@.len() == 15,
        rel8_target(code@, 7) == 14 && code@[14] == 0xC3,
        rel8_target(code@, 12) == 3,
{
    let mut code = Vec::new();
    append(&mut code, &[0x48, 0x31, 0xC0]);
    append(&mut code, &[0x80, 0x3C, 0x07, 0x00]);
    append(&mut code, &[0x74, 0x05]);
    append(&mut code, &[0x48, 0xFF, 0xC0]);
    append(&mut code, &[0xEB, 0xF5]);
    append(&mut code, &ret());
    proof {
        assert(code@ =~= strlen_code());
    }
    code
}

/// memcpy: copy rdx bytes from rsi to rdi.
pub fn emit_memcpy() -> (code: Vec<u8>)
    ensures
        code@ == memcpy_code(),
        code@.len() == 21,
        rel8_target(code@, 3) == 20 && code@[20] == 0xC3,
        rel8_target(code@, 18) == 5,
{
    let mut code = Vec::new();
    append(&mut code, &[0x48, 0x85, 0xD2]);
    append(&mut code, &[0x74, 0x0F]);
    append(&mut code, &[0x8A, 0x06]);
    append(&mut code, &[0x88, 0x07]);
    append(&mut code, &[0x48, 0xFF, 0xC6]);
    append(&mut code, &[0x48, 0xFF, 0xC7]);
    append(&mut code, &[0x48, 0xFF, 0xCA]);
    append(&mut code, &[0x75, 0xF1]);
    append(&mut code, &ret());
    proof {
        assert(code@ =~= memcpy_code());
    }
    code
}

/// memset: fill rdx bytes at rdi with al.
pub fn emit_memset() -> (code: Vec<u8>)
    ensures
        code@ == memset_code(),
        code@.len() == 16,
        rel8_target(code@, 3) == 15 && code@[15] == 0xC3,
        rel8_target(code@, 13) == 5,
{
    let mut code = Vec::new();
    append(&mut code, &[0x48, 0x85, 0xD2]);
    append(&mut code, &[0x74, 0x0A]);
    append(&mut code, &[0x88, 0x07]);
    append(&mut code, &[0x48, 0xFF, 0xC7]);
    append(&mut code, &[0x48, 0xFF, 0xCA]);
    append(&mut code, &[0x75, 0xF6]);
    append(&mut code, &ret());
    proof {
        assert(code@ =~= memset_code());
    }
    code
}

} // verus!
