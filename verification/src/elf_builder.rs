//! Build a minimal ELF64 executable around a flat code blob.
//!
//! The result is an ELF64 ET_EXEC image with a single PT_LOAD segment at
//! `load_addr`: a 64-byte ELF header, one 56-byte program header, then the
//! code bytes, so that `elf::parse_elf` processes it like a real binary.
use vstd::prelude::*;
use crate::bytes::{enc16, enc32, enc64, le16, le32, le64, push_u16_le, push_u32_le, push_u64_le};
use crate::bytes::{lemma_le16_enc, lemma_le32_enc, lemma_le64_enc};
use crate::elf::{parse_elf_spec, segments_upto, phdr_offset, segment_at, ElfSegment, TARGET_MACHINE};

verus! {

/// Offset of the program header in a flat image.
pub const FLAT_PHDR_OFFSET: usize = 64;

/// Offset of the code in a flat image.
pub const FLAT_CODE_OFFSET: usize = 120;

/// The 64-byte ELF header of a flat image.
pub open spec fn flat_elf_ident() -> Seq<u8> {
    seq![0x7Fu8, 0x45, 0x4C, 0x46, 2, 1, 1, 0, 0, 0, 0, 0, 0, 0, 0, 0]
}

#[verifier::opaque]
pub open spec fn flat_elf_ehdr(load_addr: int) -> Seq<u8> {
    flat_elf_ident() + enc16(2) + enc16(TARGET_MACHINE as int) + enc32(1) + enc64(load_addr)
        + enc64(64) + enc64(0) + enc32(0) + enc16(64) + enc16(56) + enc16(1) + enc16(0) + enc16(0)
        + enc16(0)
}

/// The 56-byte PT_LOAD program header of a flat image (flags R|W|X).
#[verifier::opaque]
pub open spec fn flat_elf_phdr(load_addr: int, code_len: int) -> Seq<u8> {
    enc32(1) + enc32(7) + enc64(120) + enc64(load_addr) + enc64(load_addr) + enc64(code_len)
        + enc64(code_len) + enc64(0x1000)
}

/// The complete flat image for `code` loaded at `load_addr`.
#[verifier::opaque]
pub open spec fn flat_elf_spec(code: Seq<u8>, load_addr: int) -> Seq<u8> {
    flat_elf_ehdr(load_addr) + flat_elf_phdr(load_addr, code.len() as int) + code
}

/// The single segment that a flat image describes.
pub open spec fn flat_segment(load_addr: usize, code_len: usize) -> ElfSegment {
    ElfSegment {
        vaddr: load_addr,
        paddr: load_addr,
        data_offset: 120,
        filesz: code_len,
        memsz: code_len,
        flags: 7,
    }
}

fn push_ehdr(buf: &mut Vec<u8>, load_addr: usize)
    ensures
        final(buf)@ == old(buf)@ + flat_elf_ehdr(load_addr as int),
{
    let ghost s0 = buf@;
    reveal(flat_elf_ehdr);
    buf.extend_from_slice(&[0x7F, 0x45, 0x4C, 0x46, 2, 1, 1, 0, 0, 0, 0, 0, 0, 0, 0, 0]);
    let ghost s1 = buf@;
    push_u16_le(buf, 2);
    push_u16_le(buf, TARGET_MACHINE);
    push_u32_le(buf, 1);
    push_u64_le(buf, load_addr as u64);
    push_u64_le(buf, FLAT_PHDR_OFFSET as u64);
    push_u64_le(buf, 0);
    let ghost s2 = buf@;
    assert(s1 =~= s0 + flat_elf_ident());
    push_u32_le(buf, 0);
    push_u16_le(buf, 64);
    push_u16_le(buf, 56);
    push_u16_le(buf, 1);
    push_u16_le(buf, 0);
    push_u16_le(buf, 0);
    push_u16_le(buf, 0);
    assert(buf@ =~= s0 + flat_elf_ehdr(load_addr as int));
}

fn push_phdr(buf: &mut Vec<u8>, load_addr: usize, code_len: usize)
    ensures
        final(buf)@ == old(buf)@ + flat_elf_phdr(load_addr as int, code_len as int),
{
    let ghost s0 = buf@;
    reveal(flat_elf_phdr);
    push_u32_le(buf, 1);
    push_u32_le(buf, 7);
    push_u64_le(buf, FLAT_CODE_OFFSET as u64);
    push_u64_le(buf, load_addr as u64);
    push_u64_le(buf, load_addr as u64);
    push_u64_le(buf, code_len as u64);
    push_u64_le(buf, code_len as u64);
    push_u64_le(buf, 0x1000);
    assert(buf@ =~= s0 + flat_elf_phdr(load_addr as int, code_len as int));
}

/// Build the flat ELF image for `code` mapped Read+Write+Execute at
/// `load_addr`.
pub fn build_flat_elf(code: &[u8], load_addr: usize) -> (buf: Vec<u8>)
    requires
        code.len() + 120 <= usize::MAX,
    ensures
        buf@ == flat_elf_spec(code@, load_addr as int),
{
    let mut buf: Vec<u8> = Vec::new();
    push_ehdr(&mut buf, load_addr);
    push_phdr(&mut buf, load_addr, code.len());
    let ghost before = buf@;
    buf.extend_from_slice(code);
    assert(buf@ =~= before + code@);
    assert(before =~= flat_elf_ehdr(load_addr as int) + flat_elf_phdr(
        load_addr as int,
        code@.len() as int,
    ));
    proof {
        reveal(flat_elf_spec);
    }
    buf
}

proof fn lemma_sub_of_sub(d: Seq<u8>, p: Seq<u8>, base: int, o: int, k: int)
    requires
        0 <= base,
        base + p.len() <= d.len(),
        d.subrange(base, base + p.len()) == p,
        0 <= o,
        o + k <= p.len(),
        0 <= k,
    ensures
        d.subrange(base + o, base + o + k) == p.subrange(o, o + k),
{
    assert(d.subrange(base + o, base + o + k) =~= p.subrange(o, o + k)) by {
        assert forall|i: int| 0 <= i < k implies #[trigger] d.subrange(base + o, base + o + k)[i]
            == p.subrange(o, o + k)[i] by {
            assert(d.subrange(base, base + p.len())[o + i] == d[base + o + i]);
        }
    }
}

#[verifier::rlimit(40)]
proof fn lemma_ehdr_fields(d: Seq<u8>, a: int)
    requires
        0 <= a < 0x1_0000_0000_0000_0000,
        d.len() >= 64,
        d.subrange(0, 64) == flat_elf_ehdr(a),
    ensures
        d[0] == 0x7F && d[1] == 0x45 && d[2] == 0x4C && d[3] == 0x46 && d[4] == 2,
        le16(d, 0x10) == 2,
        le16(d, 0x12) == TARGET_MACHINE,
        le64(d, 0x18) == a,
        le64(d, 0x20) == 64,
        le16(d, 0x36) == 56,
        le16(d, 0x38) == 1,
{
    reveal(flat_elf_ehdr);
    let e = flat_elf_ehdr(a);
    assert(e.len() == 64);
    assert(d.subrange(0, 64)[0] == d[0]);
    assert(d.subrange(0, 64)[1] == d[1]);
    assert(d.subrange(0, 64)[2] == d[2]);
    assert(d.subrange(0, 64)[3] == d[3]);
    assert(d.subrange(0, 64)[4] == d[4]);
    assert(e.subrange(0x10, 0x12) =~= enc16(2));
    assert(e.subrange(0x12, 0x14) =~= enc16(TARGET_MACHINE as int));
    assert(e.subrange(0x18, 0x20) =~= enc64(a));
    assert(e.subrange(0x20, 0x28) =~= enc64(64));
    assert(e.subrange(0x36, 0x38) =~= enc16(56));
    assert(e.subrange(0x38, 0x3A) =~= enc16(1));
    lemma_sub_of_sub(d, e, 0, 0x10, 2);
    lemma_sub_of_sub(d, e, 0, 0x12, 2);
    lemma_sub_of_sub(d, e, 0, 0x18, 8);
    lemma_sub_of_sub(d, e, 0, 0x20, 8);
    lemma_sub_of_sub(d, e, 0, 0x36, 2);
    lemma_sub_of_sub(d, e, 0, 0x38, 2);
    lemma_le16_enc(d, 0x10, 2);
    lemma_le16_enc(d, 0x12, TARGET_MACHINE as int);
    lemma_le64_enc(d, 0x18, a);
    lemma_le64_enc(d, 0x20, 64);
    lemma_le16_enc(d, 0x36, 56);
    lemma_le16_enc(d, 0x38, 1);
}

#[verifier::rlimit(40)]
proof fn lemma_phdr_fields(d: Seq<u8>, a: int, n: int)
    requires
        0 <= a < 0x1_0000_0000_0000_0000,
        0 <= n < 0x1_0000_0000_0000_0000,
        d.len() >= 120,
        d.subrange(64, 120) == flat_elf_phdr(a, n),
    ensures
        le32(d, 64) == 1,
        le32(d, 68) == 7,
        le64(d, 72) == 120,
        le64(d, 80) == a,
        le64(d, 88) == a,
        le64(d, 96) == n,
        le64(d, 104) == n,
{
    reveal(flat_elf_phdr);
    let p = flat_elf_phdr(a, n);
    assert(p.len() == 56);
    assert(p.subrange(0, 4) =~= enc32(1));
    assert(p.subrange(4, 8) =~= enc32(7));
    assert(p.subrange(8, 16) =~= enc64(120));
    assert(p.subrange(16, 24) =~= enc64(a));
    assert(p.subrange(24, 32) =~= enc64(a));
    assert(p.subrange(32, 40) =~= enc64(n));
    assert(p.subrange(40, 48) =~= enc64(n));
    lemma_sub_of_sub(d, p, 64, 0, 4);
    lemma_sub_of_sub(d, p, 64, 4, 4);
    lemma_sub_of_sub(d, p, 64, 8, 8);
    lemma_sub_of_sub(d, p, 64, 16, 8);
    lemma_sub_of_sub(d, p, 64, 24, 8);
    lemma_sub_of_sub(d, p, 64, 32, 8);
    lemma_sub_of_sub(d, p, 64, 40, 8);
    lemma_le32_enc(d, 64, 1);
    lemma_le32_enc(d, 68, 7);
    lemma_le64_enc(d, 72, 120);
    lemma_le64_enc(d, 80, a);
    lemma_le64_enc(d, 88, a);
    lemma_le64_enc(d, 96, n);
    lemma_le64_enc(d, 104, n);
}

/// A flat image parses back to its load address as entry point and to
/// exactly one PT_LOAD segment covering the code (R|W|X, data at offset
/// 120, file and memory size equal to the code length).
pub proof fn lemma_flat_elf_parses(code: Seq<u8>, load_addr: usize)
    requires
        code.len() + 120 <= usize::MAX,
    ensures
        parse_elf_spec(flat_elf_spec(code, load_addr as int)) == Ok::<
            (usize, Seq<ElfSegment>),
            crate::elf::ElfError,
        >((load_addr, seq![flat_segment(load_addr, code.len() as usize)])),
{
    let a = load_addr as int;
    let n = code.len() as int;
    let d = flat_elf_spec(code, a);
    assert(flat_elf_ehdr(a).len() == 64) by {
        reveal(flat_elf_ehdr);
    }
    assert(flat_elf_phdr(a, n).len() == 56) by {
        reveal(flat_elf_phdr);
    }
    assert(d.len() == 120 + n && d.subrange(0, 64) == flat_elf_ehdr(a) && d.subrange(64, 120)
        == flat_elf_phdr(a, n)) by {
        reveal(flat_elf_spec);
        assert(d.subrange(0, 64) =~= flat_elf_ehdr(a));
        assert(d.subrange(64, 120) =~= flat_elf_phdr(a, n));
    }
    lemma_ehdr_fields(d, a);
    lemma_phdr_fields(d, a, n);
    lemma_parse_from_fields(d, load_addr, code.len() as usize);
}

/// The layout of a flat image: 120 bytes of headers, then the code; the
/// ELF header names a 64-bit x86-64 executable entered at the load
/// address with one 56-byte program header at offset 64, and that header
/// describes one PT_LOAD segment (R|W|X) of the code, at file offset 120,
/// loaded at the load address with file and memory size the code length.
pub proof fn law_flat_elf_layout(code: Seq<u8>, load_addr: usize)
    requires
        code.len() + 120 <= usize::MAX,
    ensures
        ({
            let d = flat_elf_spec(code, load_addr as int);
            let n = code.len() as int;
            &&& d.len() == 120 + n
            &&& d.subrange(120, 120 + n) == code
            &&& d[0] == 0x7F && d[1] == 0x45 && d[2] == 0x4C && d[3] == 0x46 && d[4] == 2
            &&& le16(d, 0x10) == 2 && le16(d, 0x12) == TARGET_MACHINE
            &&& le64(d, 0x18) == load_addr && le64(d, 0x20) == 64
            &&& le16(d, 0x36) == 56 && le16(d, 0x38) == 1
            &&& le32(d, 64) == 1 && le32(d, 68) == 7 && le64(d, 72) == 120
            &&& le64(d, 80) == load_addr && le64(d, 88) == load_addr
            &&& le64(d, 96) == n && le64(d, 104) == n
        }),
{
    let a = load_addr as int;
    let n = code.len() as int;
    let d = flat_elf_spec(code, a);
    assert(flat_elf_ehdr(a).len() == 64) by {
        reveal(flat_elf_ehdr);
    }
    assert(flat_elf_phdr(a, n).len() == 56) by {
        reveal(flat_elf_phdr);
    }
    assert(d.len() == 120 + n && d.subrange(0, 64) == flat_elf_ehdr(a) && d.subrange(64, 120)
        == flat_elf_phdr(a, n) && d.subrange(120, 120 + n) == code) by {
        reveal(flat_elf_spec);
        assert(d.subrange(0, 64) =~= flat_elf_ehdr(a));
        assert(d.subrange(64, 120) =~= flat_elf_phdr(a, n));
        assert(d.subrange(120, 120 + n) =~= code);
    }
    lemma_ehdr_fields(d, a);
    lemma_phdr_fields(d, a, n);
}

proof fn lemma_parse_from_fields(d: Seq<u8>, load_addr: usize, n: usize)
    requires
        d.len() == 120 + n,
        d[0] == 0x7F && d[1] == 0x45 && d[2] == 0x4C && d[3] == 0x46 && d[4] == 2,
        le16(d, 0x10) == 2,
        le16(d, 0x12) == TARGET_MACHINE,
        le64(d, 0x18) == load_addr,
        le64(d, 0x20) == 64,
        le16(d, 0x36) == 56,
        le16(d, 0x38) == 1,
        le32(d, 64) == 1,
        le32(d, 68) == 7,
        le64(d, 72) == 120,
        le64(d, 80) == load_addr,
        le64(d, 88) == load_addr,
        le64(d, 96) == n,
        le64(d, 104) == n,
    ensures
        parse_elf_spec(d) == Ok::<(usize, Seq<ElfSegment>), crate::elf::ElfError>(
            (load_addr, seq![flat_segment(load_addr, n)]),
        ),
{
    let seg = flat_segment(load_addr, n);
    assert(phdr_offset(d, 0) == 64);
    assert(segment_at(d, 64) == seg);
    assert(segments_upto(d, 0) == Ok::<Seq<ElfSegment>, crate::elf::ElfError>(Seq::empty()));
    assert(segments_upto(d, 1) == Ok::<Seq<ElfSegment>, crate::elf::ElfError>(
        Seq::<ElfSegment>::empty().push(seg),
    ));
    assert(Seq::<ElfSegment>::empty().push(seg) =~= seq![seg]);
}

} // verus!
