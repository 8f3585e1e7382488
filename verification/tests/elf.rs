use r9::elf::{parse, ElfError, Segment, EHDR_SIZE, EI_CLASS64, EI_DATA_LE, ET_EXEC, PHDR_SIZE, PT_LOAD};

/// A minimal valid two-segment ELF64: an `R-X` text segment and an `RW-`
/// data segment whose `memsz` exceeds `filesz` (a bss tail).
fn valid_elf() -> Vec<u8> {
    let mut buf = vec![0u8; 512];
    buf[0..4].copy_from_slice(b"\x7fELF");
    buf[4] = EI_CLASS64;
    buf[5] = EI_DATA_LE;
    buf[6] = 1;
    put16(&mut buf, 16, ET_EXEC);
    put16(&mut buf, 18, 183);
    put32(&mut buf, 20, 1);
    put64(&mut buf, 24, 0x1000);
    put64(&mut buf, 32, 64);
    put16(&mut buf, 52, EHDR_SIZE as u16);
    put16(&mut buf, 54, PHDR_SIZE as u16);
    put16(&mut buf, 56, 2);

    let p0 = 64;
    put32(&mut buf, p0, PT_LOAD);
    put32(&mut buf, p0 + 4, 5);
    put64(&mut buf, p0 + 8, 176);
    put64(&mut buf, p0 + 16, 0x1000);
    put64(&mut buf, p0 + 32, 0x100);
    put64(&mut buf, p0 + 40, 0x100);

    let p1 = 64 + PHDR_SIZE;
    put32(&mut buf, p1, PT_LOAD);
    put32(&mut buf, p1 + 4, 6);
    put64(&mut buf, p1 + 8, 272);
    put64(&mut buf, p1 + 16, 0x2000);
    put64(&mut buf, p1 + 32, 0x10);
    put64(&mut buf, p1 + 40, 0x100);
    buf
}

fn put16(buf: &mut [u8], off: usize, v: u16) {
    buf[off..off + 2].copy_from_slice(&v.to_le_bytes());
}
fn put32(buf: &mut [u8], off: usize, v: u32) {
    buf[off..off + 4].copy_from_slice(&v.to_le_bytes());
}
fn put64(buf: &mut [u8], off: usize, v: u64) {
    buf[off..off + 8].copy_from_slice(&v.to_le_bytes());
}

#[test]
fn parses_a_valid_elf() {
    let elf = parse(&valid_elf()).unwrap();
    assert_eq!(elf.entry, 0x1000);
    assert_eq!(elf.entry(), 0x1000);
    let segs = elf.segments();
    assert_eq!(
        segs,
        &[
            Segment { vaddr: 0x1000, offset: 176, filesz: 0x100, memsz: 0x100, is_exec: true },
            Segment { vaddr: 0x2000, offset: 272, filesz: 0x10, memsz: 0x100, is_exec: false }
        ]
    );
}

#[test]
fn rejects_bad_magic() {
    let mut elf = valid_elf();
    elf[0..4].copy_from_slice(b"NOTE");
    assert_eq!(parse(&elf), Err(ElfError::NotElf));
}

#[test]
fn rejects_32_bit() {
    let mut elf = valid_elf();
    elf[4] = 1;
    assert_eq!(parse(&elf), Err(ElfError::Not64));
}

#[test]
fn rejects_big_endian() {
    let mut elf = valid_elf();
    elf[5] = 2;
    assert_eq!(parse(&elf), Err(ElfError::WrongEndian));
}

#[test]
fn rejects_dyn() {
    let mut elf = valid_elf();
    put16(&mut elf, 16, 3);
    assert_eq!(parse(&elf), Err(ElfError::NotExec));
}

#[test]
fn rejects_no_load_segment() {
    let mut elf = valid_elf();
    put32(&mut elf, 64, 4);
    put32(&mut elf, 64 + PHDR_SIZE, 4);
    assert_eq!(parse(&elf), Err(ElfError::NoLoadSegment));
}

#[test]
fn rejects_zero_program_headers() {
    let mut elf = valid_elf();
    put16(&mut elf, 54, 0);
    put16(&mut elf, 56, 0);
    assert_eq!(parse(&elf), Err(ElfError::NoLoadSegment));
}

#[test]
fn rejects_truncated_phdr_table() {
    let mut elf = valid_elf();
    elf.truncate(100);
    assert_eq!(parse(&elf), Err(ElfError::Truncated));
}

#[test]
fn rejects_short_header() {
    let mut elf = valid_elf();
    elf.truncate(40);
    assert_eq!(parse(&elf), Err(ElfError::Truncated));
}

#[test]
fn rejects_filesz_gt_memsz() {
    let mut elf = valid_elf();
    put64(&mut elf, 64 + 32, 0x200);
    assert_eq!(parse(&elf), Err(ElfError::BadSegment));
}

#[test]
fn rejects_segment_past_slice() {
    let mut elf = valid_elf();
    put64(&mut elf, 64 + 8, 500);
    assert_eq!(parse(&elf), Err(ElfError::BadSegment));
}

#[test]
fn rejects_tiny_slice_and_bad_phentsize() {
    assert_eq!(parse(b"\x7fEL"), Err(ElfError::Truncated));
    let mut elf = valid_elf();
    put16(&mut elf, 54, 32);
    assert_eq!(parse(&elf), Err(ElfError::Truncated));
}

#[test]
fn rejects_seventeen_load_segments() {
    let mut buf = vec![0u8; 64 + 17 * PHDR_SIZE];
    buf[0..4].copy_from_slice(b"\x7fELF");
    buf[4] = EI_CLASS64;
    buf[5] = EI_DATA_LE;
    put16(&mut buf, 16, ET_EXEC);
    put64(&mut buf, 32, 64);
    put16(&mut buf, 54, PHDR_SIZE as u16);
    put16(&mut buf, 56, 17);
    for i in 0..17 {
        put32(&mut buf, 64 + i * PHDR_SIZE, PT_LOAD);
    }
    assert_eq!(parse(&buf), Err(ElfError::TooManySegments));
    put16(&mut buf, 56, 16);
    assert_eq!(parse(&buf).unwrap().segments().len(), 16);
}
