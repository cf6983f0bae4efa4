use zohara::elf::{parse_elf, ElfError};
use zohara::elf_builder::build_flat_elf;

#[test]
fn flat_elf_round_trip() {
    let code = [0x90u8, 0x90, 0xC3];
    let elf = build_flat_elf(&code, 0x40_0000);
    assert_eq!(elf.len(), 123);
    let img = parse_elf(&elf).ok().unwrap();
    assert_eq!(img.entry_point, 0x40_0000);
    assert_eq!(img.segment_count, 1);
    assert_eq!(img.segments[0].data_offset, 120);
    assert_eq!(img.segments[0].filesz, 3);
    assert_eq!(img.segments[0].flags, 7);
}

#[test]
fn short_image_is_bad_magic() {
    assert!(matches!(parse_elf(&[0u8; 10]), Err(ElfError::BadMagic)));
}

#[test]
fn segment_data_past_the_file_is_bad_phdr() {
    let code = [0x90u8, 0x90, 0xC3];
    let mut elf = build_flat_elf(&code, 0x40_0000);
    // Program header at 64: p_filesz at +32 claims more bytes than the file has.
    elf[64 + 32..64 + 40].copy_from_slice(&100u64.to_le_bytes());
    assert!(matches!(parse_elf(&elf), Err(ElfError::BadPhdr)));
    let good = build_flat_elf(&code, 0x40_0000);
    let img = parse_elf(&good).ok().unwrap();
    assert!(img.segments[0].data_offset + img.segments[0].filesz <= good.len());
}
