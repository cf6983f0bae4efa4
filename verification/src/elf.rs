//! Minimal ELF64 parser for static, non-relocatable user programs.
//!
//! Only the ELF header and the `PT_LOAD` program headers are read; the
//! result is a list of loadable segments that the page-table builder maps
//! into a task's address space.
use vstd::prelude::*;
use crate::bytes::{le16, le32, le64, read_u16_le, read_u32_le, read_u64_le};

verus! {

/// Maximum number of loadable segments per binary.
pub const MAX_SEGMENTS: usize = 8;

/// ELF machine number that this kernel accepts (EM_X86_64).
pub const TARGET_MACHINE: u16 = 0x3E;

/// Size of one ELF64 program header.
pub const PHDR_SIZE: usize = 56;

/// Error codes from ELF parsing.
#[derive(Debug, Clone, Copy, PartialEq, Eq, Structural)]
pub enum ElfError {
    /// The file doesn't start with the ELF magic bytes.
    BadMagic,
    /// Not a 64-bit ELF.
    NotElf64,
    /// Not a statically-linked executable.
    NotExecutable,
    /// Architecture mismatch with the current build target.
    BadMachine,
    /// A program header offset or size is out of bounds.
    BadPhdr,
    /// Too many PT_LOAD segments.
    TooManySegments,
}

/// A single loadable segment extracted from an ELF program header.
#[derive(Debug, Clone, Copy, PartialEq, Eq, Structural)]
pub struct ElfSegment {
    /// Virtual address where this segment is mapped.
    pub vaddr: usize,
    /// Physical address (same as vaddr for static binaries).
    pub paddr: usize,
    /// Offset of the segment data within the ELF image.
    pub data_offset: usize,
    /// Bytes of actual data in the ELF file (may be < memsz for .bss).
    pub filesz: usize,
    /// Total virtual memory size (filesz + zero-fill for .bss).
    pub memsz: usize,
    /// Permission flags (PF_R | PF_W | PF_X).
    pub flags: u32,
}

impl ElfSegment {
    pub fn readable(&self) -> (r: bool)
        ensures
            r == (self.flags & 4 != 0),
    {
        self.flags & 4 != 0
    }

    pub fn writable(&self) -> (r: bool)
        ensures
            r == (self.flags & 2 != 0),
    {
        self.flags & 2 != 0
    }

    pub fn executable(&self) -> (r: bool)
        ensures
            r == (self.flags & 1 != 0),
    {
        self.flags & 1 != 0
    }
}

/// Parsed ELF image: entry point plus up to MAX_SEGMENTS loadable segments.
pub struct ElfImage {
    pub entry_point: usize,
    pub segments: [ElfSegment; 8],
    pub segment_count: usize,
}

impl ElfImage {
    /// The loadable segments, in program-header order.
    pub open spec fn loaded(&self) -> Seq<ElfSegment> {
        self.segments@.subrange(0, self.segment_count as int)
    }
}

/// Offset of the `i`-th program header.
pub open spec fn phdr_offset(d: Seq<u8>, i: int) -> int {
    le64(d, 0x20) + i * le16(d, 0x36)
}

/// The segment described by the program header at offset `off`.
pub open spec fn segment_at(d: Seq<u8>, off: int) -> ElfSegment {
    ElfSegment {
        vaddr: le64(d, off + 16) as usize,
        paddr: le64(d, off + 24) as usize,
        data_offset: le64(d, off + 8) as usize,
        filesz: le64(d, off + 32) as usize,
        memsz: le64(d, off + 40) as usize,
        flags: le32(d, off + 4) as u32,
    }
}

/// Result of scanning the first `n` program headers: the PT_LOAD segments
/// found so far, or the first error met (a header that lies past the data,
/// a ninth PT_LOAD header, or a PT_LOAD header whose file bytes lie past
/// the data).
pub open spec fn segments_upto(d: Seq<u8>, n: nat) -> Result<Seq<ElfSegment>, ElfError>
    decreases n,
{
    if n == 0 {
        Ok(Seq::empty())
    } else {
        match segments_upto(d, (n - 1) as nat) {
            Err(e) => Err(e),
            Ok(segs) => {
                let off = phdr_offset(d, n - 1);
                if off + 56 > d.len() {
                    Err(ElfError::BadPhdr)
                } else if le32(d, off) != 1 {
                    Ok(segs)
                } else if segs.len() >= MAX_SEGMENTS {
                    Err(ElfError::TooManySegments)
                } else if segment_at(d, off).data_offset + segment_at(d, off).filesz > d.len() {
                    Err(ElfError::BadPhdr)
                } else {
                    Ok(segs.push(segment_at(d, off)))
                }
            },
        }
    }
}

/// What parsing the byte image `d` yields: the entry point and the
/// loadable segments, or the error.
pub open spec fn parse_elf_spec(d: Seq<u8>) -> Result<(usize, Seq<ElfSegment>), ElfError> {
    if d.len() < 64 || d[0] != 0x7F || d[1] != 0x45 || d[2] != 0x4C || d[3] != 0x46 {
        Err(ElfError::BadMagic)
    } else if d[4] != 2 {
        Err(ElfError::NotElf64)
    } else if le16(d, 0x10) != 2 {
        Err(ElfError::NotExecutable)
    } else if le16(d, 0x12) != TARGET_MACHINE {
        Err(ElfError::BadMachine)
    } else if le16(d, 0x36) < 56 {
        Err(ElfError::BadPhdr)
    } else {
        match segments_upto(d, le16(d, 0x38) as nat) {
            Ok(segs) => Ok((le64(d, 0x18) as usize, segs)),
            Err(e) => Err(e),
        }
    }
}

/// Segment `s` carries the fields of a PT_LOAD program header among the
/// first `n` of image `d`: its address from bytes 16..24 of the header,
/// physical address 24..32, file offset 8..16, size in the file 32..40,
/// size in memory 40..48 (independent fields: the memory size also covers
/// the zeroed tail) and flags 4..8, all little endian.
pub open spec fn from_pt_load(d: Seq<u8>, n: int, s: ElfSegment) -> bool {
    exists|j: int| {
        let o = #[trigger] phdr_offset(d, j);
        &&& 0 <= j < n
        &&& o + 56 <= d.len()
        &&& le32(d, o) == 1
        &&& s.vaddr == le64(d, o + 16) as usize
        &&& s.paddr == le64(d, o + 24) as usize
        &&& s.data_offset == le64(d, o + 8) as usize
        &&& s.filesz == le64(d, o + 32) as usize
        &&& s.memsz == le64(d, o + 40) as usize
        &&& s.flags == le32(d, o + 4) as u32
    }
}

/// Each segment found among the first `n` program headers is read from a
/// PT_LOAD header among them.
pub proof fn law_segments_from_headers(d: Seq<u8>, n: nat)
    ensures
        match segments_upto(d, n) {
            Err(_) => true,
            Ok(segs) => forall|k: int| 0 <= k < segs.len() ==> from_pt_load(d, n as int, #[trigger] segs[k]),
        },
    decreases n,
{
    if n > 0 {
        law_segments_from_headers(d, (n - 1) as nat);
        match segments_upto(d, (n - 1) as nat) {
            Ok(prev) => {
                let o = phdr_offset(d, n - 1);
                let whole = segments_upto(d, n);
                if whole is Ok {
                    let segs = whole->Ok_0;
                    assert forall|k: int| 0 <= k < segs.len() implies from_pt_load(d, n as int, #[trigger] segs[k]) by {
                        if k < prev.len() {
                            assert(segs[k] == prev[k]);
                            assert(from_pt_load(d, n - 1, prev[k]));
                            let j0 = choose|j: int| {
                                let o3 = #[trigger] phdr_offset(d, j);
                                &&& 0 <= j < n - 1
                                &&& o3 + 56 <= d.len()
                                &&& le32(d, o3) == 1
                                &&& prev[k].vaddr == le64(d, o3 + 16) as usize
                                &&& prev[k].paddr == le64(d, o3 + 24) as usize
                                &&& prev[k].data_offset == le64(d, o3 + 8) as usize
                                &&& prev[k].filesz == le64(d, o3 + 32) as usize
                                &&& prev[k].memsz == le64(d, o3 + 40) as usize
                                &&& prev[k].flags == le32(d, o3 + 4) as u32
                            };
                            assert(phdr_offset(d, j0) == phdr_offset(d, j0));
                        } else {
                            assert(segs[k] == segment_at(d, o));
                            assert(phdr_offset(d, n - 1) == o);
                        }
                    }
                }
            },
            Err(_) => {},
        }
    }
}

/// Whatever `parse_elf` accepts: the entry point is the u64 at byte 0x18,
/// and each loadable segment carries the fields of a PT_LOAD program
/// header of the image.
pub proof fn law_parsed_segments_from_headers(d: Seq<u8>)
    ensures
        match parse_elf_spec(d) {
            Err(_) => true,
            Ok((entry, segs)) => {
                &&& entry == le64(d, 0x18) as usize
                &&& forall|k: int| 0 <= k < segs.len() ==> from_pt_load(d, le16(d, 0x38), #[trigger] segs[k])
            },
        },
{
    law_segments_from_headers(d, le16(d, 0x38) as nat);
}

proof fn lemma_segments_err_stays(d: Seq<u8>, i: nat, n: nat)
    requires
        i <= n,
        segments_upto(d, i) is Err,
    ensures
        segments_upto(d, n) == segments_upto(d, i),
    decreases n,
{
    if n > i {
        lemma_segments_err_stays(d, i, (n - 1) as nat);
    }
}

proof fn lemma_segments_bounded(d: Seq<u8>, n: nat)
    ensures
        segments_upto(d, n) matches Ok(s) ==> s.len() <= MAX_SEGMENTS,
    decreases n,
{
    if n > 0 {
        lemma_segments_bounded(d, (n - 1) as nat);
    }
}

proof fn lemma_segments_in_data(d: Seq<u8>, n: nat)
    ensures
        segments_upto(d, n) matches Ok(s) ==> forall|k: int|
            0 <= k < s.len() ==> #[trigger] s[k].data_offset + s[k].filesz <= d.len(),
    decreases n,
{
    if n > 0 {
        lemma_segments_in_data(d, (n - 1) as nat);
    }
}

fn read_segment(d: &[u8], off: usize) -> (s: ElfSegment)
    requires
        off + 56 <= d.len(),
    ensures
        s == segment_at(d@, off as int),
{
    ElfSegment {
        vaddr: read_u64_le(d, off + 16) as usize,
        paddr: read_u64_le(d, off + 24) as usize,
        data_offset: read_u64_le(d, off + 8) as usize,
        filesz: read_u64_le(d, off + 32) as usize,
        memsz: read_u64_le(d, off + 40) as usize,
        flags: read_u32_le(d, off + 4),
    }
}

/// Parse a raw ELF64 binary blob and extract its loadable segments.
///
/// Segment data is described by its offset within `elf_data`; nothing is
/// copied here.
pub fn parse_elf(elf_data: &[u8]) -> (r: Result<ElfImage, ElfError>)
    ensures
        match parse_elf_spec(elf_data@) {
            Ok((entry, segs)) => r matches Ok(img) && img.entry_point == entry && img.loaded()
                == segs,
            Err(e) => r == Err::<ElfImage, ElfError>(e),
        },
        r matches Ok(img) ==> img.segment_count <= MAX_SEGMENTS && forall|k: int|
            0 <= k < img.segment_count ==> #[trigger] img.segments@[k].data_offset
                + img.segments@[k].filesz <= elf_data@.len(),
        r matches Ok(img) ==> forall|k: int|
            0 <= k < img.segment_count ==> from_pt_load(elf_data@, le16(elf_data@, 0x38), #[trigger] img.segments@[k]),
{
    proof {
        lemma_segments_in_data(elf_data@, le16(elf_data@, 0x38) as nat);
        law_segments_from_headers(elf_data@, le16(elf_data@, 0x38) as nat);
    }
    let len = elf_data.len();
    if len < 64 {
        return Err(ElfError::BadMagic);
    }
    if elf_data[0] != 0x7F || elf_data[1] != 0x45 || elf_data[2] != 0x4C || elf_data[3] != 0x46 {
        return Err(ElfError::BadMagic);
    }
    if elf_data[4] != 2 {
        return Err(ElfError::NotElf64);
    }
    let e_type = read_u16_le(elf_data, 0x10);
    if e_type != 2 {
        return Err(ElfError::NotExecutable);
    }
    let e_machine = read_u16_le(elf_data, 0x12);
    if e_machine != TARGET_MACHINE {
        return Err(ElfError::BadMachine);
    }
    let entry_point = read_u64_le(elf_data, 0x18) as usize;
    let e_phoff = read_u64_le(elf_data, 0x20);
    let e_phentsize = read_u16_le(elf_data, 0x36);
    let e_phnum = read_u16_le(elf_data, 0x38);
    if e_phentsize < 56 {
        return Err(ElfError::BadPhdr);
    }
    let empty = ElfSegment { vaddr: 0, paddr: 0, data_offset: 0, filesz: 0, memsz: 0, flags: 0 };
    let mut image = ElfImage { entry_point, segments: [empty; 8], segment_count: 0 };
    let mut i: u16 = 0;
    while i < e_phnum
        invariant
            0 <= i <= e_phnum,
            e_phnum == le16(elf_data@, 0x38),
            e_phoff == le64(elf_data@, 0x20),
            e_phentsize == le16(elf_data@, 0x36),
            len == elf_data@.len(),
            segments_upto(elf_data@, i as nat) matches Ok(s) && image.loaded() == s,
            image.segment_count <= MAX_SEGMENTS,
            image.entry_point == entry_point,
            parse_elf_spec(elf_data@) == match segments_upto(elf_data@, e_phnum as nat) {
                Ok(segs) => Ok((entry_point, segs)),
                Err(e) => Err(e),
            },
        decreases e_phnum - i,
    {
        proof {
            lemma_segments_bounded(elf_data@, i as nat);
        }
        assert((i as int) * (e_phentsize as int) <= 65535 * 65535) by (nonlinear_arith)
            requires
                i <= 65535,
                e_phentsize <= 65535,
        ;
        let off: u128 = e_phoff as u128 + (i as u128) * (e_phentsize as u128);
        assert(off == phdr_offset(elf_data@, i as int));
        if off + 56 > len as u128 {
            proof {
                assert(segments_upto(elf_data@, (i + 1) as nat) == Err::<Seq<ElfSegment>, ElfError>(
                    ElfError::BadPhdr,
                ));
                lemma_segments_err_stays(elf_data@, (i + 1) as nat, e_phnum as nat);
            }
            return Err(ElfError::BadPhdr);
        }
        let off = off as usize;
        let p_type = read_u32_le(elf_data, off);
        if p_type == 1 {
            if image.segment_count >= MAX_SEGMENTS {
                proof {
                    assert(segments_upto(elf_data@, (i + 1) as nat) == Err::<
                        Seq<ElfSegment>,
                        ElfError,
                    >(ElfError::TooManySegments));
                    lemma_segments_err_stays(elf_data@, (i + 1) as nat, e_phnum as nat);
                }
                return Err(ElfError::TooManySegments);
            }
            let seg = read_segment(elf_data, off);
            if seg.data_offset as u128 + seg.filesz as u128 > len as u128 {
                proof {
                    assert(segments_upto(elf_data@, (i + 1) as nat) == Err::<Seq<ElfSegment>, ElfError>(
                        ElfError::BadPhdr,
                    ));
                    lemma_segments_err_stays(elf_data@, (i + 1) as nat, e_phnum as nat);
                }
                return Err(ElfError::BadPhdr);
            }
            let ghost old_loaded = image.loaded();
            let c = image.segment_count;
            image.segments[c] = seg;
            image.segment_count = c + 1;
            assert(image.loaded() =~= old_loaded.push(seg));
        }
        i = i + 1;
    }
    proof {
        assert forall|k: int| 0 <= k < image.segment_count implies #[trigger] image.segments@[k]
            == image.loaded()[k] by {}
    }
    Ok(image)
}

} // verus!
